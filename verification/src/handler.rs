//! Request matching: which mock answers a request, and what the request
//! carries (query parameters, JSON body fields, client address).
use vstd::prelude::*;
use vstd::utf8::encode_utf8;

use crate::json::{
    lemma_view_arr, lemma_view_arr_push, lemma_view_obj, parse, parse_json, text_of, to_text,
    view_arr, view_json, view_obj, Json, JV,
};
use crate::shape::{
    apply_filter_recursive, filter_json, filter_views, find_array, find_array_by_field,
    set_field, set_json_field,
};
use crate::models::{parse_method_spec, HttpMethod, MockApi};
use crate::text::{
    chars_eq, chars_of, contains_char, eq_str, has_char, split_chars, split_on, split_once,
    split_once_chars, string_of, trim, trim_chars, trim_str, views, parse_nat, parse_unsigned,
    decimal, u64_string, starts_with, starts_with_chars, slice_chars, lemma_split_on_join,
    lemma_split_on_single, lemma_find_char,
};

verus! {

// ---------------------------------------------------------------------------
// String maps
// ---------------------------------------------------------------------------

/// The texts of a list of string pairs.
pub open spec fn pair_views(m: Seq<(String, String)>) -> Seq<(Seq<char>, Seq<char>)> {
    m.map_values(|p: (String, String)| (p.0@, p.1@))
}

/// The value of the last pair whose key is `k` (later pairs override earlier
/// ones, as when pairs are collected into a map).
pub open spec fn lookup(m: Seq<(Seq<char>, Seq<char>)>, k: Seq<char>) -> Option<Seq<char>>
    decreases m.len(),
{
    if m.len() == 0 {
        None
    } else if m.last().0 == k {
        Some(m.last().1)
    } else {
        lookup(m.drop_last(), k)
    }
}

/// The value stored for `key` in a list of pairs, the last pair winning.
pub fn lookup_pair(m: &Vec<(String, String)>, key: &str) -> (r: Option<String>)
    ensures
        match lookup(pair_views(m@), key@) {
            Some(v) => r matches Some(s) && s@ == v,
            None => r is None,
        },
{
    let k = chars_of(key);
    let mut i = m.len();
    assert(pair_views(m@).take(i as int) =~= pair_views(m@));
    while i > 0
        invariant
            i <= m.len(),
            k@ == key@,
            lookup(pair_views(m@), key@) == lookup(pair_views(m@).take(i as int), key@),
        decreases i,
    {
        let ghost t = pair_views(m@).take(i as int);
        let mk = chars_of(m[i - 1].0.as_str());
        assert(t.last() == (m@[i - 1].0@, m@[i - 1].1@));
        if chars_eq(&mk, &k) {
            return Some(m[i - 1].1.clone());
        }
        assert(t.drop_last() =~= pair_views(m@).take(i - 1));
        i = i - 1;
    }
    None
}

// ---------------------------------------------------------------------------
// Path matching
// ---------------------------------------------------------------------------

/// A pattern segment that matches any one path segment: `*` or `{name}`.
pub open spec fn is_wild(seg: Seq<char>) -> bool {
    seg == seq!['*'] || (seg.len() > 0 && seg[0] == '{' && seg.last() == '}')
}

pub open spec fn seg_matches(p: Seq<char>, s: Seq<char>) -> bool {
    is_wild(p) || p == s
}

/// Whether a mock path pattern matches a request path: equal text, or, when
/// the pattern has `*` or `{`, segment by segment with `*` and `{name}`
/// matching any one segment and a trailing `*` matching whatever remains.
pub open spec fn path_match(pattern: Seq<char>, path: Seq<char>) -> bool {
    if pattern == path {
        true
    } else if !has_char(pattern, '*') && !has_char(pattern, '{') {
        false
    } else {
        let pp = split_on(pattern, '/');
        let sp = split_on(path, '/');
        if pp.len() != sp.len() {
            &&& pp.last() == seq!['*']
            &&& sp.len() >= pp.len() - 1
            &&& forall|i: int| 0 <= i < pp.len() - 1 ==> seg_matches(pp[i], sp[i])
        } else {
            forall|i: int| 0 <= i < pp.len() ==> seg_matches(pp[i], sp[i])
        }
    }
}

fn is_wild_seg(seg: &Vec<char>) -> (b: bool)
    ensures
        b == is_wild(seg@),
{
    if seg.len() == 1 && seg[0] == '*' {
        assert(seg@ =~= seq!['*']);
        return true;
    }
    assert(seg@ != seq!['*']) by {
        if seg@ == seq!['*'] {
            assert(seg@.len() == 1 && seg@[0] == '*');
        }
    }
    seg.len() > 0 && seg[0] == '{' && seg[seg.len() - 1] == '}'
}

/// Whether the pattern segments `pp[..n]` match the path segments.
fn segs_match(pp: &Vec<Vec<char>>, sp: &Vec<Vec<char>>, n: usize) -> (b: bool)
    requires
        n <= pp.len(),
        n <= sp.len(),
    ensures
        b == forall|i: int| 0 <= i < n ==> seg_matches(views(pp@)[i], views(sp@)[i]),
{
    let mut i: usize = 0;
    while i < n
        invariant
            n <= pp.len(),
            n <= sp.len(),
            i <= n,
            forall|k: int| 0 <= k < i ==> seg_matches(views(pp@)[k], views(sp@)[k]),
        decreases n - i,
    {
        assert(views(pp@)[i as int] == pp@[i as int]@);
        assert(views(sp@)[i as int] == sp@[i as int]@);
        if !(is_wild_seg(&pp[i]) || chars_eq(&pp[i], &sp[i])) {
            return false;
        }
        i = i + 1;
    }
    true
}

/// Path matching: `*` or `{param}` matches any single segment, and a
/// trailing `*` matches the remaining segments.
pub fn path_matches(pattern: &str, path: &str) -> (r: bool)
    ensures
        r == path_match(pattern@, path@),
{
    let p = chars_of(pattern);
    let s = chars_of(path);
    if chars_eq(&p, &s) {
        return true;
    }
    if !contains_char(&p, '*') && !contains_char(&p, '{') {
        return false;
    }
    let pp = split_chars(&p, '/');
    let sp = split_chars(&s, '/');
    if pp.len() != sp.len() {
        let last = pp.len() - 1;
        assert(views(pp@)[last as int] == pp@[last as int]@);
        let is_star = pp[last].len() == 1 && pp[last][0] == '*';
        assert(is_star == (views(pp@).last() == seq!['*'])) by {
            if views(pp@).last() == seq!['*'] {
                assert(pp@[last as int]@.len() == 1);
            }
            if is_star {
                assert(pp@[last as int]@ =~= seq!['*']);
            }
        }
        if !is_star {
            return false;
        }
        if sp.len() < pp.len() - 1 {
            return false;
        }
        segs_match(&pp, &sp, pp.len() - 1)
    } else {
        segs_match(&pp, &sp, pp.len())
    }
}

/// The mock's method and path accept the request, and the mock is enabled.
pub open spec fn mock_accepts(m: MockApi, method: HttpMethod, path: Seq<char>) -> bool {
    m.enabled && m.method == method && path_match(m.path@, path)
}

/// The mock that answers a request: the first enabled mock with exactly the
/// request's method and a matching path; failing that, the first enabled
/// `ANY` mock with a matching path.
pub open spec fn chosen_mock(mocks: Seq<MockApi>, method: HttpMethod, path: Seq<char>) -> Option<int> {
    if exists|i: int| 0 <= i < mocks.len() && mock_accepts(mocks[i], method, path) {
        Some(choose|i: int| 0 <= i < mocks.len() && mock_accepts(mocks[i], method, path) && forall|j: int|
            0 <= j < i ==> !mock_accepts(mocks[j], method, path))
    } else if exists|i: int| 0 <= i < mocks.len() && mock_accepts(mocks[i], HttpMethod::ANY, path) {
        Some(choose|i: int| 0 <= i < mocks.len() && mock_accepts(mocks[i], HttpMethod::ANY, path) && forall|j: int|
            0 <= j < i ==> !mock_accepts(mocks[j], HttpMethod::ANY, path))
    } else {
        None
    }
}

fn first_accepting(mocks: &Vec<MockApi>, method: HttpMethod, path: &str) -> (r: Option<usize>)
    ensures
        match r {
            Some(i) => i < mocks.len() && mock_accepts(mocks@[i as int], method, path@) && forall|j: int|
                0 <= j < i ==> !mock_accepts(mocks@[j], method, path@),
            None => forall|j: int| 0 <= j < mocks.len() ==> !mock_accepts(mocks@[j], method, path@),
        },
{
    let mut i: usize = 0;
    while i < mocks.len()
        invariant
            i <= mocks.len(),
            forall|j: int| 0 <= j < i ==> !mock_accepts(mocks@[j], method, path@),
        decreases mocks.len() - i,
    {
        let m = &mocks[i];
        if m.enabled && m.method == method && path_matches(m.path.as_str(), path) {
            return Some(i);
        }
        i = i + 1;
    }
    None
}

/// Finds the mock for a request: exact method beats `ANY`.
pub fn find_mock(mocks: &Vec<MockApi>, method: HttpMethod, path: &str) -> (r: Option<usize>)
    ensures
        match chosen_mock(mocks@, method, path@) {
            Some(i) => r == Some(i as usize),
            None => r is None,
        },
{
    match first_accepting(mocks, method, path) {
        Some(i) => {
            proof {
                let w = choose|w: int| 0 <= w < mocks.len() && mock_accepts(mocks@[w], method, path@) && forall|j: int|
                    0 <= j < w ==> !mock_accepts(mocks@[j], method, path@);
                assert(0 <= w < mocks.len() && mock_accepts(mocks@[w], method, path@) && forall|j: int|
                    0 <= j < w ==> !mock_accepts(mocks@[j], method, path@)) by {
                    assert(0 <= i < mocks.len() && mock_accepts(mocks@[i as int], method, path@));
                }
                if w < i {
                } else if w > i {
                    assert(!mock_accepts(mocks@[i as int], method, path@));
                }
            }
            Some(i)
        },
        None => {
            match first_accepting(mocks, HttpMethod::ANY, path) {
                Some(i) => {
                    proof {
                        let w = choose|w: int| 0 <= w < mocks.len() && mock_accepts(mocks@[w], HttpMethod::ANY, path@) && forall|j: int|
                            0 <= j < w ==> !mock_accepts(mocks@[j], HttpMethod::ANY, path@);
                        assert(0 <= w < mocks.len() && mock_accepts(mocks@[w], HttpMethod::ANY, path@) && forall|j: int|
                            0 <= j < w ==> !mock_accepts(mocks@[j], HttpMethod::ANY, path@)) by {
                            assert(0 <= i < mocks.len() && mock_accepts(mocks@[i as int], HttpMethod::ANY, path@));
                        }
                        if w < i {
                        } else if w > i {
                            assert(!mock_accepts(mocks@[i as int], HttpMethod::ANY, path@));
                        }
                    }
                    Some(i)
                },
                None => None,
            }
        },
    }
}


// ---------------------------------------------------------------------------
// Query strings and request bodies
// ---------------------------------------------------------------------------

/// Value of an ASCII hexadecimal digit.
pub open spec fn hex_digit(b: u8) -> Option<nat> {
    if 48 <= b <= 57 {
        Some((b - 48) as nat)
    } else if 97 <= b <= 102 {
        Some((b - 87) as nat)
    } else if 65 <= b <= 70 {
        Some((b - 55) as nat)
    } else {
        None
    }
}

/// What `u8::from_str_radix(.., 16)` reads from the two bytes after a `%`:
/// two hex digits, or a `+` sign and one hex digit.
pub open spec fn hex_pair(b1: u8, b2: u8) -> Option<nat> {
    if b1 == 43 {
        hex_digit(b2)
    } else {
        match (hex_digit(b1), hex_digit(b2)) {
            (Some(h), Some(l)) => Some(16 * h + l),
            _ => None,
        }
    }
}

/// The character whose code is the byte value `b`.
pub open spec fn byte_char(b: nat) -> char {
    (b as u8) as char
}

/// Decoding of a URL-encoded component, byte by byte: `+` is a space, `%XY`
/// is the byte `XY`, and every other byte stands for itself; each resulting
/// byte becomes the character with that code.
pub open spec fn url_decode(bs: Seq<u8>) -> Seq<char>
    decreases bs.len(),
{
    if bs.len() == 0 {
        seq![]
    } else if bs[0] == 43 {
        seq![' '] + url_decode(bs.drop_first())
    } else if bs[0] == 37 && bs.len() >= 3 && hex_pair(bs[1], bs[2]) is Some {
        seq![byte_char(hex_pair(bs[1], bs[2]).unwrap())] + url_decode(bs.skip(3))
    } else {
        seq![byte_char(bs[0] as nat)] + url_decode(bs.drop_first())
    }
}

fn hex_digit_of(b: u8) -> (r: Option<u8>)
    ensures
        match hex_digit(b) {
            Some(v) => r == Some(v as u8),
            None => r is None,
        },
{
    if 48 <= b && b <= 57 {
        Some(b - 48)
    } else if 97 <= b && b <= 102 {
        Some(b - 87)
    } else if 65 <= b && b <= 70 {
        Some(b - 55)
    } else {
        None
    }
}

fn hex_pair_of(b1: u8, b2: u8) -> (r: Option<u8>)
    ensures
        match hex_pair(b1, b2) {
            Some(v) => r == Some(v as u8) && v < 256,
            None => r is None,
        },
{
    if b1 == 43 {
        return hex_digit_of(b2);
    }
    match (hex_digit_of(b1), hex_digit_of(b2)) {
        (Some(h), Some(l)) => Some(h * 16 + l),
        _ => None,
    }
}

/// Decodes a URL-encoded query component.
pub fn percent_decode(s: &str) -> (r: String)
    ensures
        r@ == url_decode(encode_utf8(s@)),
{
    let bytes = s.as_bytes();
    let ghost bs = bytes@;
    let mut out: Vec<char> = Vec::new();
    let mut i: usize = 0;
    assert(bs.skip(0) =~= bs);
    assert(out@ + url_decode(bs) =~= url_decode(bs));
    while i < bytes.len()
        invariant
            bs == bytes@,
            bs == encode_utf8(s@),
            i <= bytes.len(),
            out@ + url_decode(bs.skip(i as int)) == url_decode(bs),
        decreases bytes.len() - i,
    {
        let ghost t = bs.skip(i as int);
        let ghost old_out = out@;
        assert(t[0] == bytes[i as int]);
        if bytes[i] == 43 {
            out.push(' ');
            assert(t.drop_first() =~= bs.skip(i + 1));
            i = i + 1;
            assert(out@ + url_decode(bs.skip(i as int)) =~= old_out + url_decode(t));
        } else if bytes[i] == 37 && bytes.len() - i > 2 && hex_pair_of(bytes[i + 1], bytes[i + 2]).is_some() {
            let v = match hex_pair_of(bytes[i + 1], bytes[i + 2]) {
                Some(v) => v,
                None => 0,
            };
            assert(t[1] == bytes[i + 1] && t[2] == bytes[i + 2]);
            out.push(v as char);
            assert(t.skip(3) =~= bs.skip(i + 3));
            i = i + 3;
            assert(out@ + url_decode(bs.skip(i as int)) =~= old_out + url_decode(t));
        } else {
            proof {
                if t.len() >= 3 {
                    assert(t[1] == bytes[i + 1] && t[2] == bytes[i + 2]);
                }
            }
            out.push(bytes[i] as char);
            assert(t.drop_first() =~= bs.skip(i + 1));
            i = i + 1;
            assert(out@ + url_decode(bs.skip(i as int)) =~= old_out + url_decode(t));
        }
    }
    assert(bs.skip(i as int) =~= seq![]);
    assert(out@ =~= url_decode(bs));
    string_of(out.as_slice())
}


/// The key and value of one `key=value` piece of a query string, decoded.
pub open spec fn query_pair(piece: Seq<char>) -> (Seq<char>, Seq<char>) {
    let sp = split_once(piece, '=');
    (
        url_decode(encode_utf8(sp.0)),
        url_decode(
            encode_utf8(
                match sp.1 {
                    Some(v) => v,
                    None => seq![],
                },
            ),
        ),
    )
}

/// The pairs of the non-empty pieces, in order.
pub open spec fn query_pairs_of(pieces: Seq<Seq<char>>) -> Seq<(Seq<char>, Seq<char>)>
    decreases pieces.len(),
{
    if pieces.len() == 0 {
        seq![]
    } else {
        let p = query_pairs_of(pieces.drop_last());
        if pieces.last().len() == 0 {
            p
        } else {
            p.push(query_pair(pieces.last()))
        }
    }
}

pub open spec fn opt_text(q: Option<&str>) -> Seq<char> {
    match q {
        Some(s) => s@,
        None => seq![],
    }
}

/// The parameters of a query string: its `&`-separated pieces that are not
/// empty, each split at its first `=` and decoded.
pub open spec fn query_params(q: Seq<char>) -> Seq<(Seq<char>, Seq<char>)> {
    query_pairs_of(split_on(q, '&'))
}

/// Parses a query string into its parameters (a later value for a key wins
/// when they are looked up).
pub fn parse_query_params(query_string: Option<&str>) -> (r: Vec<(String, String)>)
    ensures
        pair_views(r@) == query_params(opt_text(query_string)),
{
    let q = match query_string {
        Some(s) => chars_of(s),
        None => Vec::new(),
    };
    assert(q@ == opt_text(query_string));
    let pieces = split_chars(&q, '&');
    let ghost pv = views(pieces@);
    let mut out: Vec<(String, String)> = Vec::new();
    let mut i: usize = 0;
    assert(pv.take(0) =~= seq![]);
    assert(pair_views(out@) =~= seq![]);
    while i < pieces.len()
        invariant
            pv == views(pieces@),
            pv == split_on(q@, '&'),
            i <= pieces.len(),
            pair_views(out@) == query_pairs_of(pv.take(i as int)),
        decreases pieces.len() - i,
    {
        let ghost t = pv.take(i as int + 1);
        assert(t.drop_last() =~= pv.take(i as int));
        assert(t.last() == pieces@[i as int]@);
        let piece = &pieces[i];
        if piece.len() > 0 {
            let (k, rest) = split_once_chars(piece, '=');
            let ks = string_of(k.as_slice());
            let kd = percent_decode(ks.as_str());
            let v = match rest {
                Some(v) => v,
                None => Vec::new(),
            };
            let vs = string_of(v.as_slice());
            let vd = percent_decode(vs.as_str());
            let ghost old_out = out@;
            out.push((kd, vd));
            assert(pair_views(out@) =~= pair_views(old_out).push((kd@, vd@)));
        }
        i = i + 1;
    }
    assert(pv.take(pieces.len() as int) =~= pv);
    out
}

/// The text of a scalar JSON value as a request parameter.
pub open spec fn scalar_text(v: JV) -> Option<Seq<char>> {
    match v {
        JV::Str(s) => Some(s),
        JV::Number(t) => Some(t),
        JV::Bool(b) => Some(crate::shape::bool_text(b)),
        _ => None,
    }
}

/// The scalar members of an object as parameters, in order.
pub open spec fn scalar_pairs(es: Seq<(Seq<char>, JV)>) -> Seq<(Seq<char>, Seq<char>)>
    decreases es.len(),
{
    if es.len() == 0 {
        seq![]
    } else {
        let p = scalar_pairs(es.drop_last());
        match scalar_text(es.last().1) {
            Some(t) => p.push((es.last().0, t)),
            None => p,
        }
    }
}

/// The parameters a request body carries: the top-level string, number and
/// boolean members of a JSON object body.
pub open spec fn body_params(body: Option<Seq<char>>) -> Seq<(Seq<char>, Seq<char>)> {
    match body {
        Some(b) => match parse_json(b) {
            Some(JV::Object(es)) => scalar_pairs(es),
            _ => seq![],
        },
        None => seq![],
    }
}

pub open spec fn opt_view(q: Option<&str>) -> Option<Seq<char>> {
    match q {
        Some(s) => Some(s@),
        None => None,
    }
}

/// Extracts the top-level scalar fields of a JSON object body.
pub fn extract_body_params(body: Option<&str>) -> (r: Vec<(String, String)>)
    ensures
        pair_views(r@) == body_params(opt_view(body)),
{
    let mut out: Vec<(String, String)> = Vec::new();
    assert(pair_views(out@) =~= seq![]);
    let b = match body {
        Some(b) => b,
        None => {
            return out;
        },
    };
    let j = match parse(b) {
        Some(j) => j,
        None => {
            return out;
        },
    };
    let m = match &j {
        Json::Object(m) => m,
        _ => {
            return out;
        },
    };
    proof {
        lemma_view_obj(m@);
    }
    let ghost e = view_obj(m@);
    assert(j@ == JV::Object(e));
    let mut i: usize = 0;
    assert(e.take(0) =~= seq![]);
    while i < m.len()
        invariant
            e == view_obj(m@),
            e.len() == m.len(),
            forall|q: int| 0 <= q < m.len() ==> #[trigger] e[q] == (m@[q].0@, view_json(m@[q].1)),
            i <= m.len(),
            pair_views(out@) == scalar_pairs(e.take(i as int)),
        decreases m.len() - i,
    {
        let ghost t = e.take(i as int + 1);
        assert(t.drop_last() =~= e.take(i as int));
        assert(t.last() == e[i as int]);
        assert(e[i as int] == (m@[i as int].0@, view_json(m@[i as int].1)));
        let text: Option<String> = match &m[i].1 {
            Json::Str(s) => Some(s.clone()),
            Json::Number(n) => Some(n.clone()),
            Json::Bool(b) => {
                let c = if *b {
                    chars_of("true")
                } else {
                    chars_of("false")
                };
                proof {
                    reveal_strlit("true");
                    reveal_strlit("false");
                    assert(c@ =~= crate::shape::bool_text(*b));
                }
                Some(string_of(c.as_slice()))
            },
            _ => None,
        };
        assert(match text {
            Some(tx) => scalar_text(e[i as int].1) == Some(tx@),
            None => scalar_text(e[i as int].1) is None,
        });
        let ghost old_out = out@;
        match text {
            Some(t) => {
                out.push((m[i].0.clone(), t));
                assert(pair_views(out@) =~= pair_views(old_out).push((m@[i as int].0@, t@)));
            },
            None => {},
        }
        i = i + 1;
    }
    assert(e.take(m.len() as int) =~= e);
    out
}


// ---------------------------------------------------------------------------
// Response shaping: request-param filtering and pagination
// ---------------------------------------------------------------------------

/// The names of a mock's request params.
pub open spec fn param_names(ps: Seq<(String, String)>) -> Seq<Seq<char>> {
    ps.map_values(|p: (String, String)| p.0@)
}

/// The value a request carries for a param: from its query string, else
/// from its body.
pub open spec fn param_value(
    qp: Seq<(Seq<char>, Seq<char>)>,
    bp: Seq<(Seq<char>, Seq<char>)>,
    k: Seq<char>,
) -> Option<Seq<char>> {
    match lookup(qp, k) {
        Some(v) => Some(v),
        None => lookup(bp, k),
    }
}

/// The filters a request turns on: each configured name for which the
/// request carries a non-empty value, paired with that value.
pub open spec fn active_filters(
    names: Seq<Seq<char>>,
    qp: Seq<(Seq<char>, Seq<char>)>,
    bp: Seq<(Seq<char>, Seq<char>)>,
) -> Seq<(Seq<char>, Seq<char>)>
    decreases names.len(),
{
    if names.len() == 0 {
        seq![]
    } else {
        let p = active_filters(names.drop_last(), qp, bp);
        match param_value(qp, bp, names.last()) {
            Some(v) => if v.len() > 0 {
                p.push((names.last(), v))
            } else {
                p
            },
            None => p,
        }
    }
}

/// The parameters a request body contributes: those of a JSON object body,
/// for POST requests only.
pub open spec fn request_body_params(method: HttpMethod, rb: Option<Seq<char>>) -> Seq<
    (Seq<char>, Seq<char>),
> {
    if method == HttpMethod::POST {
        body_params(rb)
    } else {
        seq![]
    }
}

/// A page number or page size taken from the query: the value of `param`
/// read as a `usize`, `default` when it is absent or not a number, and at
/// least 1.
pub open spec fn page_value(qp: Seq<(Seq<char>, Seq<char>)>, param: Seq<char>, default: int) -> int {
    let n = match lookup(qp, param) {
        Some(t) => match parse_nat(t, usize::MAX as int) {
            Some(n) => n as int,
            None => default,
        },
        None => default,
    };
    if n < 1 {
        1
    } else {
        n
    }
}

/// The items of page `page` (counted from 1) when each page holds `size`.
pub open spec fn page_slice(a: Seq<JV>, page: int, size: int) -> Seq<JV> {
    let start = (page - 1) * size;
    if start >= a.len() {
        seq![]
    } else if start + size >= a.len() {
        a.skip(start)
    } else {
        a.subrange(start, start + size)
    }
}

/// A count written as a JSON number.
pub open spec fn count_value(n: nat) -> JV {
    JV::Number(decimal(n))
}

/// The envelope a paginated top-level array is wrapped in.
pub open spec fn envelope(items: Seq<JV>, total: nat, page: nat, size: nat) -> JV {
    JV::Object(
        seq![
            (seq!['i', 't', 'e', 'm', 's'], JV::Array(items)),
            (seq!['p', 'a', 'g', 'e'], count_value(page)),
            (seq!['p', 'a', 'g', 'e', '_', 's', 'i', 'z', 'e'], count_value(size)),
            (seq!['t', 'o', 't', 'a', 'l'], count_value(total)),
        ],
    )
}

/// A document paginated as a mock configures: with no data field, a
/// top-level array is cut to the requested page and wrapped in an
/// envelope; with one, the array it names is cut in place and the total
/// field, when set, receives the array's full length.
pub open spec fn paginate(j: JV, mock: MockApi, qp: Seq<(Seq<char>, Seq<char>)>) -> JV {
    let page = page_value(qp, mock.pagination_page_param@, 1);
    let size = page_value(qp, mock.pagination_size_param@, mock.pagination_page_size as int);
    let data_field = trim(mock.pagination_data_field@);
    let total_field = trim(mock.pagination_total_field@);
    if data_field.len() == 0 {
        match j {
            JV::Array(a) => envelope(page_slice(a, page, size), a.len(), page as nat, size as nat),
            _ => j,
        }
    } else {
        match find_array(j, data_field) {
            Some(a) => {
                let r = set_field(j, data_field, JV::Array(page_slice(a, page, size))).0;
                if total_field.len() == 0 {
                    r
                } else {
                    set_field(r, total_field, count_value(a.len())).0
                }
            },
            None => j,
        }
    }
}

/// The response body a mock sends: its body unchanged when it neither
/// filters nor paginates or when the body is not JSON; otherwise the JSON
/// document filtered by the request's active filters (if any) and then
/// paginated (if enabled), written compactly.
pub open spec fn shaped_body(
    body: Seq<char>,
    mock: MockApi,
    qp: Seq<(Seq<char>, Seq<char>)>,
    bp: Seq<(Seq<char>, Seq<char>)>,
) -> Seq<char> {
    if mock.request_params@.len() == 0 && !mock.pagination_enabled {
        body
    } else {
        match parse_json(body) {
            Some(j) => {
                let fs = active_filters(param_names(mock.request_params@), qp, bp);
                let filtered = if fs.len() == 0 {
                    j
                } else {
                    filter_json(j, fs)
                };
                if mock.pagination_enabled {
                    text_of(paginate(filtered, mock, qp))
                } else {
                    text_of(filtered)
                }
            },
            None => body,
        }
    }
}

fn active_filter_list(
    names: &Vec<(String, String)>,
    qp: &Vec<(String, String)>,
    bp: &Vec<(String, String)>,
) -> (r: Vec<(Vec<char>, Vec<char>)>)
    ensures
        filter_views(r@) == active_filters(param_names(names@), pair_views(qp@), pair_views(bp@)),
{
    let ghost ns = param_names(names@);
    let mut out: Vec<(Vec<char>, Vec<char>)> = Vec::new();
    let mut i: usize = 0;
    assert(ns.take(0) =~= seq![]);
    assert(filter_views(out@) =~= seq![]);
    while i < names.len()
        invariant
            ns == param_names(names@),
            i <= names.len(),
            filter_views(out@) == active_filters(ns.take(i as int), pair_views(qp@), pair_views(bp@)),
        decreases names.len() - i,
    {
        let ghost t = ns.take(i as int + 1);
        assert(t.drop_last() =~= ns.take(i as int));
        assert(t.last() == names@[i as int].0@);
        let key = names[i].0.as_str();
        let v = match lookup_pair(qp, key) {
            Some(v) => Some(v),
            None => lookup_pair(bp, key),
        };
        let ghost old_out = out@;
        match v {
            Some(v) => {
                let vc = chars_of(v.as_str());
                if vc.len() > 0 {
                    out.push((chars_of(key), vc));
                    assert(filter_views(out@) =~= filter_views(old_out).push((key@, v@)));
                }
            },
            None => {},
        }
        i = i + 1;
    }
    assert(ns.take(names.len() as int) =~= ns);
    out
}

fn page_value_of(qp: &Vec<(String, String)>, param: &str, default: usize) -> (r: usize)
    ensures
        r as int == page_value(pair_views(qp@), param@, default as int),
{
    let n: usize = match lookup_pair(qp, param) {
        Some(t) => {
            let tc = chars_of(t.as_str());
            match parse_unsigned(&tc, usize::MAX as u64) {
                Some(n) => n as usize,
                None => default,
            }
        },
        None => default,
    };
    if n < 1 {
        1
    } else {
        n
    }
}

/// A copy of the items of one page of `a`.
fn slice_page(a: &Vec<Json>, page: usize, size: usize) -> (r: Vec<Json>)
    requires
        page >= 1,
        size >= 1,
    ensures
        view_arr(r@) == page_slice(view_arr(a@), page as int, size as int),
{
    let ghost va = view_arr(a@);
    proof {
        lemma_view_arr(a@);
        let p = page as int - 1;
        let q = size as int;
        assert(0 <= p < 0x1_0000_0000_0000_0000 && 0 <= q < 0x1_0000_0000_0000_0000);
        assert(p * q < 0x1_0000_0000_0000_0000_0000_0000_0000_0000) by (nonlinear_arith)
            requires
                0 <= p < 0x1_0000_0000_0000_0000,
                0 <= q < 0x1_0000_0000_0000_0000,
        ;
    }
    let start_wide: u128 = (page as u128 - 1) * (size as u128);
    let len = a.len();
    let mut out: Vec<Json> = Vec::new();
    if start_wide >= len as u128 {
        assert(view_arr(out@) =~= seq![]);
        return out;
    }
    let start = start_wide as usize;
    let end: usize = if len - start > size {
        start + size
    } else {
        len
    };
    let mut k: usize = start;
    assert(view_arr(out@) =~= va.subrange(start as int, start as int));
    while k < end
        invariant
            start <= k <= end,
            end <= a.len(),
            va == view_arr(a@),
            va.len() == a.len(),
            forall|q: int| 0 <= q < a.len() ==> #[trigger] va[q] == view_json(a@[q]),
            view_arr(out@) == va.subrange(start as int, k as int),
        decreases end - k,
    {
        let c = a[k].deep_copy();
        proof {
            lemma_view_arr_push(out@, c);
        }
        out.push(c);
        k = k + 1;
        assert(view_arr(out@) =~= va.subrange(start as int, k as int));
    }
    assert(va.skip(start as int) =~= va.subrange(start as int, len as int));
    out
}

/// The envelope for one page of a top-level array.
fn envelope_json(items: Vec<Json>, total: usize, page: usize, size: usize) -> (r: Json)
    ensures
        r@ == envelope(view_arr(items@), total as nat, page as nat, size as nat),
{
    let ghost vi = view_arr(items@);
    let k_items = "items".to_owned();
    let k_page = "page".to_owned();
    let k_size = "page_size".to_owned();
    let k_total = "total".to_owned();
    proof {
        reveal_strlit("items");
        reveal_strlit("page");
        reveal_strlit("page_size");
        reveal_strlit("total");
        assert(k_items@ =~= seq!['i', 't', 'e', 'm', 's']);
        assert(k_page@ =~= seq!['p', 'a', 'g', 'e']);
        assert(k_size@ =~= seq!['p', 'a', 'g', 'e', '_', 's', 'i', 'z', 'e']);
        assert(k_total@ =~= seq!['t', 'o', 't', 'a', 'l']);
    }
    let mut m: Vec<(String, Json)> = Vec::new();
    m.push((k_items, Json::Array(items)));
    m.push((k_page, Json::Number(u64_string(page as u64))));
    m.push((k_size, Json::Number(u64_string(size as u64))));
    m.push((k_total, Json::Number(u64_string(total as u64))));
    proof {
        lemma_view_obj(m@);
        assert(view_json(m@[0].1) == JV::Array(vi));
    }
    let r = Json::Object(m);
    assert(view_obj(m@) =~= envelope(vi, total as nat, page as nat, size as nat)->Object_0);
    r
}

/// Paginates a document as the mock configures (see `paginate`).
fn paginate_json(j: Json, mock: &MockApi, qp: &Vec<(String, String)>) -> (r: Json)
    ensures
        r@ == paginate(j@, *mock, pair_views(qp@)),
{
    let page = page_value_of(qp, mock.pagination_page_param.as_str(), 1);
    let size = page_value_of(qp, mock.pagination_size_param.as_str(), mock.pagination_page_size as usize);
    let data_field = trim_str(mock.pagination_data_field.as_str());
    let total_field = trim_str(mock.pagination_total_field.as_str());
    if data_field.len() == 0 {
        match &j {
            Json::Array(a) => {
                proof {
                    lemma_view_arr(a@);
                }
                let items = slice_page(a, page, size);
                return envelope_json(items, a.len(), page, size);
            },
            _ => {
                return j;
            },
        }
    }
    match find_array_by_field(&j, &data_field) {
        Some(a) => {
            proof {
                lemma_view_arr(a@);
            }
            let total = a.len();
            let items = slice_page(&a, page, size);
            let r = set_json_field(&j, &data_field, &Json::Array(items));
            if total_field.len() == 0 {
                r
            } else {
                set_json_field(&r, &total_field, &Json::Number(u64_string(total as u64)))
            }
        },
        None => j,
    }
}

/// Filters and paginates a mock's response body for one request (see
/// `shaped_body`): query parameters take priority over the fields of a POST
/// body, and only the mock's configured param names filter.
pub fn apply_filter_and_pagination(
    body: &str,
    mock: &MockApi,
    method: &HttpMethod,
    query_string: Option<&str>,
    req_body: Option<&str>,
) -> (r: String)
    ensures
        r@ == shaped_body(
            body@,
            *mock,
            query_params(opt_text(query_string)),
            request_body_params(*method, opt_view(req_body)),
        ),
{
    if mock.request_params.len() == 0 && !mock.pagination_enabled {
        return body.to_owned();
    }
    let j = match parse(body) {
        Some(j) => j,
        None => {
            return body.to_owned();
        },
    };
    let qp = parse_query_params(query_string);
    let bp = match method {
        HttpMethod::POST => extract_body_params(req_body),
        _ => Vec::new(),
    };
    assert(pair_views(bp@) == request_body_params(*method, opt_view(req_body))) by {
        if *method != HttpMethod::POST {
            assert(pair_views(bp@) =~= seq![]);
        }
    }
    let fs = active_filter_list(&mock.request_params, &qp, &bp);
    let filtered = if fs.len() == 0 {
        j
    } else {
        apply_filter_recursive(&j, &fs)
    };
    if !mock.pagination_enabled {
        return to_text(&filtered);
    }
    let shaped = paginate_json(filtered, mock, &qp);
    to_text(&shaped)
}


// ---------------------------------------------------------------------------
// What a request carries and what the response starts from
// ---------------------------------------------------------------------------

/// The method a request is handled as: the one its upper-cased method text
/// names, or GET when it names none.
pub open spec fn handled_method(upper: Seq<char>) -> HttpMethod {
    match parse_method_spec(upper) {
        Ok(m) => m,
        Err(_) => HttpMethod::GET,
    }
}

/// Reads a request's (upper-cased) method; unknown methods are handled as GET.
pub fn request_method(method_str: &str) -> (r: HttpMethod)
    ensures
        r == handled_method(method_str@),
{
    match HttpMethod::parse(method_str) {
        Ok(m) => m,
        Err(_) => HttpMethod::GET,
    }
}

/// The client address of a request: the first entry of `x-forwarded-for`,
/// trimmed; else `x-real-ip`; else the socket peer's address.
pub open spec fn client_ip_of(headers: Seq<(Seq<char>, Seq<char>)>, peer: Seq<char>) -> Seq<char> {
    match lookup(headers, "x-forwarded-for"@) {
        Some(v) => trim(split_once(v, ',').0),
        None => match lookup(headers, "x-real-ip"@) {
            Some(v) => v,
            None => peer,
        },
    }
}

/// Resolves the client address, honouring proxy headers before the peer.
pub fn resolve_client_ip(headers: &Vec<(String, String)>, peer: &str) -> (r: String)
    ensures
        r@ == client_ip_of(pair_views(headers@), peer@),
{
    match lookup_pair(headers, "x-forwarded-for") {
        Some(v) => {
            let vc = chars_of(v.as_str());
            let (first, _) = split_once_chars(&vc, ',');
            let t = trim_chars(&first);
            string_of(t.as_slice())
        },
        None => match lookup_pair(headers, "x-real-ip") {
            Some(v) => v,
            None => peer.to_owned(),
        },
    }
}

/// The status a mock's response is sent with: its configured status when
/// that is a valid HTTP status code (100 to 999), else 200.
pub open spec fn sent_status(code: u16) -> u16 {
    if 100 <= code <= 999 {
        code
    } else {
        200
    }
}

/// The status a mock's response is sent with (see `sent_status`).
pub fn effective_status(code: u16) -> (r: u16)
    ensures
        r == sent_status(code),
{
    if 100 <= code && code <= 999 {
        code
    } else {
        200
    }
}

/// The file a response body names with the `file://` prefix, if it does.
pub open spec fn body_file(body: Seq<char>) -> Option<Seq<char>> {
    if starts_with(body, "file://"@) {
        Some(body.skip(7))
    } else {
        None
    }
}

/// The path of the file whose contents form the response body, when the
/// configured body is `file://<path>`.
pub fn file_body_path(body: &str) -> (r: Option<String>)
    ensures
        match body_file(body@) {
            Some(p) => r matches Some(s) && s@ == p,
            None => r is None,
        },
{
    let b = chars_of(body);
    let prefix = chars_of("file://");
    proof {
        reveal_strlit("file://");
    }
    if starts_with_chars(&b, &prefix) {
        let rest = slice_chars(&b, 7, b.len());
        assert(rest@ =~= b@.skip(7));
        Some(string_of(rest.as_slice()))
    } else {
        None
    }
}

/// The body sent when no mock matches a request.
pub fn no_match_body() -> (r: String)
    ensures
        r@ == "{\"error\":\"no mock matched\"}"@,
{
    "{\"error\":\"no mock matched\"}".to_owned()
}


// ---------------------------------------------------------------------------
// Laws of matching and shaping
// ---------------------------------------------------------------------------

/// Every path pattern matches the path it spells.
pub proof fn lemma_path_matches_itself(p: Seq<char>)
    ensures
        path_match(p, p),
{
}

/// A `*` or `{name}` segment matches any one path segment: the pattern
/// `x/w/y` matches the path `x/seg/y` for a wild `w` and any `seg`
/// without `/`.
pub proof fn lemma_wild_segment_matches(x: Seq<char>, w: Seq<char>, seg: Seq<char>, y: Seq<char>)
    requires
        is_wild(w),
        !has_char(w, '/'),
        !has_char(seg, '/'),
    ensures
        path_match(x + seq!['/'] + w + seq!['/'] + y, x + seq!['/'] + seg + seq!['/'] + y),
{
    let pattern = x + seq!['/'] + w + seq!['/'] + y;
    let path = x + seq!['/'] + seg + seq!['/'] + y;
    assert(pattern =~= x + seq!['/'] + (w + seq!['/'] + y));
    assert(path =~= x + seq!['/'] + (seg + seq!['/'] + y));
    lemma_split_on_join(x, w + seq!['/'] + y, '/');
    lemma_split_on_join(w, y, '/');
    lemma_split_on_single(w, '/');
    lemma_split_on_join(x, seg + seq!['/'] + y, '/');
    lemma_split_on_join(seg, y, '/');
    lemma_split_on_single(seg, '/');
    if pattern != path {
        if w == seq!['*'] {
            assert(pattern[x.len() as int + 1] == '*');
        } else {
            assert(pattern[x.len() as int + 1] == '{');
        }
        let q = split_on(x, '/');
        let pp = split_on(pattern, '/');
        let sp = split_on(path, '/');
        assert(pp =~= q + (seq![w] + split_on(y, '/')));
        assert(sp =~= q + (seq![seg] + split_on(y, '/')));
        assert forall|i: int| 0 <= i < pp.len() implies seg_matches(pp[i], sp[i]) by {
            if i != q.len() {
                assert(pp[i] == sp[i]);
            }
        }
    }
}

/// The same for a wild last segment: the pattern `x/w` matches the path
/// `x/seg` (so `/users/{id}` matches `/users/42`).
pub proof fn lemma_wild_last_segment_matches(x: Seq<char>, w: Seq<char>, seg: Seq<char>)
    requires
        is_wild(w),
        !has_char(w, '/'),
        !has_char(seg, '/'),
    ensures
        path_match(x + seq!['/'] + w, x + seq!['/'] + seg),
{
    let pattern = x + seq!['/'] + w;
    let path = x + seq!['/'] + seg;
    lemma_split_on_join(x, w, '/');
    lemma_split_on_single(w, '/');
    lemma_split_on_join(x, seg, '/');
    lemma_split_on_single(seg, '/');
    if pattern != path {
        if w == seq!['*'] {
            assert(pattern[x.len() as int + 1] == '*');
        } else {
            assert(pattern[x.len() as int + 1] == '{');
        }
        let q = split_on(x, '/');
        let pp = split_on(pattern, '/');
        let sp = split_on(path, '/');
        assert forall|i: int| 0 <= i < pp.len() implies seg_matches(pp[i], sp[i]) by {
            if i < q.len() {
                assert(pp[i] == q[i] && sp[i] == q[i]);
            }
        }
    }
}

/// A trailing `*` matches whatever follows: the pattern `x/*` matches the
/// path `x/rest` for any `rest`, with or without further `/`.
pub proof fn lemma_trailing_star_matches(x: Seq<char>, rest: Seq<char>)
    ensures
        path_match(x + seq!['/', '*'], x + seq!['/'] + rest),
{
    let pattern = x + seq!['/', '*'];
    let path = x + seq!['/'] + rest;
    assert(pattern =~= x + seq!['/'] + seq!['*']);
    lemma_split_on_join(x, seq!['*'], '/');
    lemma_split_on_single(seq!['*'], '/');
    lemma_split_on_join(x, rest, '/');
    if pattern != path {
        assert(pattern[x.len() as int + 1] == '*');
        let q = split_on(x, '/');
        let pp = split_on(pattern, '/');
        let sp = split_on(path, '/');
        assert(pp =~= q + seq![seq!['*']]);
        assert(sp =~= q + split_on(rest, '/'));
        assert(split_on(rest, '/').len() >= 1);
        assert(pp.last() == seq!['*']);
        assert forall|i: int| 0 <= i < pp.len() - 1 implies seg_matches(pp[i], sp[i]) by {
            assert(pp[i] == q[i] && sp[i] == q[i]);
        }
        if pp.len() == sp.len() {
            assert forall|i: int| 0 <= i < pp.len() implies seg_matches(pp[i], sp[i]) by {
                if i < pp.len() - 1 {
                    assert(pp[i] == q[i] && sp[i] == q[i]);
                } else {
                    assert(is_wild(pp[i]));
                }
            }
        }
    }
}

/// A pattern matches a different path only segment by segment: every
/// segment of the pattern that is not `*` or `{name}` equals the path's
/// segment at the same position, and the path has as many segments as the
/// pattern, or, for a pattern ending in `*`, at least all the others (so
/// `/api/*` does not match `/other/a/b`).
pub proof fn lemma_match_keeps_literal_segments(p: Seq<char>, s: Seq<char>)
    requires
        path_match(p, s),
        p != s,
    ensures
        forall|i: int|
            0 <= i < split_on(p, '/').len() && i < split_on(s, '/').len() && !is_wild(
                #[trigger] split_on(p, '/')[i],
            ) ==> split_on(p, '/')[i] == split_on(s, '/')[i],
        split_on(s, '/').len() == split_on(p, '/').len() || (split_on(p, '/').last() == seq!['*']
            && split_on(s, '/').len() >= split_on(p, '/').len() - 1),
{
    let pp = split_on(p, '/');
    let sp = split_on(s, '/');
    assert forall|i: int| 0 <= i < pp.len() && i < sp.len() && !is_wild(#[trigger] pp[i]) implies pp[i]
        == sp[i] by {
        if pp.len() != sp.len() {
            if i == pp.len() - 1 {
                assert(is_wild(pp[i]));
            } else {
                assert(seg_matches(pp[i], sp[i]));
            }
        } else {
            assert(seg_matches(pp[i], sp[i]));
        }
    }
}

/// Bytes other than `%` and `+` decode to themselves, one character each.
pub proof fn lemma_plain_bytes_decode_to_themselves(bs: Seq<u8>)
    requires
        forall|i: int| 0 <= i < bs.len() ==> #[trigger] bs[i] != 37 && bs[i] != 43,
    ensures
        url_decode(bs) == bs.map_values(|b: u8| byte_char(b as nat)),
    decreases bs.len(),
{
    if bs.len() > 0 {
        let rest = bs.drop_first();
        assert forall|i: int| 0 <= i < rest.len() implies #[trigger] rest[i] != 37 && rest[i] != 43 by {
            assert(rest[i] == bs[i + 1]);
        }
        assert(bs[0] != 37 && bs[0] != 43);
        lemma_plain_bytes_decode_to_themselves(rest);
        assert(url_decode(bs) =~= bs.map_values(|b: u8| byte_char(b as nat)));
    }
}

/// Decoding never yields more characters than there are bytes.
pub proof fn lemma_url_decode_len(bs: Seq<u8>)
    ensures
        url_decode(bs).len() <= bs.len(),
    decreases bs.len(),
{
    if bs.len() > 0 {
        lemma_url_decode_len(bs.drop_first());
        if bs.len() >= 3 {
            lemma_url_decode_len(bs.skip(3));
        }
    }
}

proof fn lemma_query_pairs_append(a: Seq<Seq<char>>, b: Seq<Seq<char>>)
    ensures
        query_pairs_of(a + b) == query_pairs_of(a) + query_pairs_of(b),
    decreases b.len(),
{
    if b.len() == 0 {
        assert(a + b =~= a);
        assert(query_pairs_of(a) + query_pairs_of(b) =~= query_pairs_of(a));
    } else {
        lemma_query_pairs_append(a, b.drop_last());
        assert((a + b).drop_last() =~= a + b.drop_last());
        assert((a + b).last() == b.last());
    }
}

/// The parameters of two queries joined by `&` are those of the first,
/// then those of the second, in order.
pub proof fn lemma_query_params_join(x: Seq<char>, y: Seq<char>)
    ensures
        query_params(x + seq!['&'] + y) == query_params(x) + query_params(y),
{
    lemma_split_on_join(x, y, '&');
    lemma_query_pairs_append(split_on(x, '&'), split_on(y, '&'));
}

/// A piece `key=value`, with no `&` and no `=` in the key, is one
/// parameter: the decoded key with the decoded value (everything after the
/// first `=`); an empty query has none.
pub proof fn lemma_query_param_piece(k: Seq<char>, v: Seq<char>)
    requires
        !has_char(k, '='),
        !has_char(k, '&'),
        !has_char(v, '&'),
    ensures
        query_params(k + seq!['='] + v) == seq![(url_decode(encode_utf8(k)), url_decode(encode_utf8(v)))],
        query_params(seq![]) == Seq::<(Seq<char>, Seq<char>)>::empty(),
{
    let piece = k + seq!['='] + v;
    assert(!has_char(piece, '&')) by {
        assert forall|i: int| 0 <= i < piece.len() implies #[trigger] piece[i] != '&' by {
            if i < k.len() {
                assert(piece[i] == k[i]);
            } else if i > k.len() {
                assert(piece[i] == v[i - k.len() - 1]);
            }
        }
    }
    lemma_split_on_single(piece, '&');
    assert forall|j: int| 0 <= j < k.len() implies #[trigger] piece[j] != '=' by {
        assert(piece[j] == k[j]);
    }
    assert(piece[k.len() as int] == '=');
    lemma_find_char(piece, '=', k.len() as int);
    assert(piece.take(k.len() as int) =~= k);
    assert(piece.skip(k.len() as int + 1) =~= v);
    assert(split_once(piece, '=') == (k, Some(v)));
    let none = Seq::<Seq<char>>::empty();
    assert(query_pairs_of(none) == Seq::<(Seq<char>, Seq<char>)>::empty());
    assert(seq![piece].drop_last() =~= none);
    assert(seq![piece].last() == piece);
    assert(query_pairs_of(seq![piece]) == query_pairs_of(none).push(query_pair(piece)));
    assert(query_params(piece) =~= seq![(url_decode(encode_utf8(k)), url_decode(encode_utf8(v)))]);
    let e = Seq::<char>::empty();
    lemma_split_on_single(e, '&');
    assert(seq![e].drop_last() =~= none);
    assert(seq![e].last() == e);
    assert(query_params(e) =~= Seq::<(Seq<char>, Seq<char>)>::empty());
}

/// Looking a key up gives the value of the last pair with that key, and
/// nothing exactly when no pair has it.
pub proof fn lemma_lookup_last(m: Seq<(Seq<char>, Seq<char>)>, k: Seq<char>)
    ensures
        lookup(m, k) is None <==> forall|i: int| 0 <= i < m.len() ==> #[trigger] m[i].0 != k,
        lookup(m, k) matches Some(v) ==> exists|i: int|
            0 <= i < m.len() && #[trigger] m[i] == (k, v) && forall|j: int| i < j < m.len() ==> m[j].0 != k,
    decreases m.len(),
{
    if m.len() > 0 {
        let rest = m.drop_last();
        lemma_lookup_last(rest, k);
        let n = m.len() - 1;
        if m.last().0 == k {
            assert(m[n] == (k, m.last().1));
        } else {
            assert forall|i: int| 0 <= i < rest.len() implies rest[i] == m[i] by {}
            if lookup(rest, k) is None {
                assert forall|i: int| 0 <= i < m.len() implies #[trigger] m[i].0 != k by {
                    if i < n {
                        assert(rest[i] == m[i]);
                    }
                }
            } else {
                let v = lookup(rest, k).unwrap();
                let i = choose|i: int|
                    0 <= i < rest.len() && #[trigger] rest[i] == (k, v) && forall|j: int| i < j < rest.len() ==> rest[j].0 != k;
                assert(m[i] == (k, v));
                assert forall|j: int| i < j < m.len() implies m[j].0 != k by {
                    if j < n {
                        assert(rest[j] == m[j]);
                    }
                }
                assert(!(forall|q: int| 0 <= q < m.len() ==> #[trigger] m[q].0 != k));
            }
        }
    }
}

/// The mock that answers a request is enabled, matches the path, and has
/// the request's method or `ANY`; no mock answers exactly when no enabled
/// mock with that method or `ANY` matches the path.
pub proof fn lemma_chosen_mock_serves(mocks: Seq<MockApi>, method: HttpMethod, path: Seq<char>)
    ensures
        chosen_mock(mocks, method, path) matches Some(j) ==> 0 <= j < mocks.len() && mocks[j].enabled
            && path_match(mocks[j].path@, path) && (mocks[j].method == method || mocks[j].method
            == HttpMethod::ANY),
        chosen_mock(mocks, method, path) is None <==> forall|i: int|
            0 <= i < mocks.len() ==> !(#[trigger] mocks[i].enabled && path_match(mocks[i].path@, path) && (
            mocks[i].method == method || mocks[i].method == HttpMethod::ANY)),
{
    if chosen_mock(mocks, method, path) is None {
        assert forall|i: int| 0 <= i < mocks.len() implies !(#[trigger] mocks[i].enabled && path_match(
            mocks[i].path@,
            path,
        ) && (mocks[i].method == method || mocks[i].method == HttpMethod::ANY)) by {
            assert(!mock_accepts(mocks[i], method, path));
            assert(!mock_accepts(mocks[i], HttpMethod::ANY, path));
        }
    } else {
        if exists|i: int| 0 <= i < mocks.len() && mock_accepts(mocks[i], method, path) {
            let i = choose|i: int| 0 <= i < mocks.len() && mock_accepts(mocks[i], method, path);
            lemma_first_witness(mocks, method, path, i);
        } else {
            let i = choose|i: int| 0 <= i < mocks.len() && mock_accepts(mocks[i], HttpMethod::ANY, path);
            lemma_first_witness(mocks, HttpMethod::ANY, path, i);
        }
        let j = chosen_mock(mocks, method, path).unwrap();
        assert(mock_accepts(mocks[j], method, path) || mock_accepts(mocks[j], HttpMethod::ANY, path));
        assert(!(forall|i: int|
            0 <= i < mocks.len() ==> !(#[trigger] mocks[i].enabled && path_match(mocks[i].path@, path) && (
            mocks[i].method == method || mocks[i].method == HttpMethod::ANY)))) by {
            assert(mocks[j].enabled && path_match(mocks[j].path@, path));
        }
    }
}

/// An enabled mock with exactly the request's method and a matching path
/// wins over every `ANY` mock: the chosen mock then has the request's
/// method.
pub proof fn lemma_exact_method_preferred(mocks: Seq<MockApi>, method: HttpMethod, path: Seq<char>, i: int)
    requires
        0 <= i < mocks.len(),
        mock_accepts(mocks[i], method, path),
    ensures
        chosen_mock(mocks, method, path) matches Some(j) && 0 <= j < mocks.len() && mocks[j].method
            == method && mock_accepts(mocks[j], method, path),
{
    assert(exists|w: int| 0 <= w < mocks.len() && mock_accepts(mocks[w], method, path));
    let j = choose|j: int| 0 <= j < mocks.len() && mock_accepts(mocks[j], method, path) && forall|k: int|
        0 <= k < j ==> !mock_accepts(mocks[k], method, path);
    lemma_first_witness(mocks, method, path, i);
}

proof fn lemma_first_witness(mocks: Seq<MockApi>, method: HttpMethod, path: Seq<char>, i: int)
    requires
        0 <= i < mocks.len(),
        mock_accepts(mocks[i], method, path),
    ensures
        exists|j: int| 0 <= j < mocks.len() && mock_accepts(mocks[j], method, path) && forall|k: int|
            0 <= k < j ==> !mock_accepts(mocks[k], method, path),
    decreases i,
{
    if exists|k: int| 0 <= k < i && mock_accepts(mocks[k], method, path) {
        let k = choose|k: int| 0 <= k < i && mock_accepts(mocks[k], method, path);
        lemma_first_witness(mocks, method, path, k);
    } else {
        assert(forall|k: int| 0 <= k < i ==> !mock_accepts(mocks[k], method, path));
    }
}

/// A body that is not JSON is sent unchanged, whatever the mock and the
/// request carry.
pub proof fn lemma_non_json_passes_through(
    body: Seq<char>,
    mock: MockApi,
    qp: Seq<(Seq<char>, Seq<char>)>,
    bp: Seq<(Seq<char>, Seq<char>)>,
)
    requires
        parse_json(body) is None,
    ensures
        shaped_body(body, mock, qp, bp) == body,
{
}

/// A param sent with an empty value does not filter: the active filters
/// are those of the params with non-empty values only.
pub proof fn lemma_empty_values_ignored(
    names: Seq<Seq<char>>,
    qp: Seq<(Seq<char>, Seq<char>)>,
    bp: Seq<(Seq<char>, Seq<char>)>,
)
    ensures
        forall|k: int| 0 <= k < active_filters(names, qp, bp).len() ==> #[trigger] active_filters(
            names,
            qp,
            bp,
        )[k].1.len() > 0,
    decreases names.len(),
{
    if names.len() > 0 {
        lemma_empty_values_ignored(names.drop_last(), qp, bp);
        let p = active_filters(names.drop_last(), qp, bp);
        assert forall|k: int| 0 <= k < active_filters(names, qp, bp).len() implies #[trigger] active_filters(
            names,
            qp,
            bp,
        )[k].1.len() > 0 by {
            if k < p.len() {
                assert(active_filters(names, qp, bp)[k] == p[k]);
            }
        }
    }
}

/// A mock that neither filters nor paginates sends its body unchanged.
pub proof fn lemma_plain_mock_unchanged(
    body: Seq<char>,
    mock: MockApi,
    qp: Seq<(Seq<char>, Seq<char>)>,
    bp: Seq<(Seq<char>, Seq<char>)>,
)
    requires
        mock.request_params@.len() == 0,
        !mock.pagination_enabled,
    ensures
        shaped_body(body, mock, qp, bp) == body,
{
}

/// A page holds at most `size` items, the items that follow the earlier
/// pages, in order.
pub proof fn lemma_page_slice(a: Seq<JV>, page: int, size: int)
    requires
        page >= 1,
        size >= 1,
    ensures
        page_slice(a, page, size).len() <= size,
        forall|k: int| 0 <= k < page_slice(a, page, size).len() ==> #[trigger] page_slice(a, page, size)[k]
            == a[(page - 1) * size + k],
{
    assert((page - 1) * size >= 0) by (nonlinear_arith)
        requires
            page >= 1,
            size >= 1,
    ;
}

/// The first `m` pages of an array, one after another.
pub open spec fn first_pages(a: Seq<JV>, size: int, m: nat) -> Seq<JV>
    decreases m,
{
    if m == 0 {
        seq![]
    } else {
        first_pages(a, size, (m - 1) as nat) + page_slice(a, m as int, size)
    }
}

/// Pages neither skip nor repeat items: the first `m` pages together are
/// the array's first `m * size` items, and all of it once `m * size`
/// reaches its length.
pub proof fn lemma_pages_cover(a: Seq<JV>, size: int, m: nat)
    requires
        size >= 1,
    ensures
        first_pages(a, size, m) == a.take(
            if m * size < a.len() {
                m * size
            } else {
                a.len() as int
            },
        ),
    decreases m,
{
    if m == 0 {
        assert(a.take(0) =~= Seq::<JV>::empty());
    } else {
        lemma_pages_cover(a, size, (m - 1) as nat);
        let start = (m - 1) * size;
        let end = m * size;
        assert(end == start + size && start >= 0) by (nonlinear_arith)
            requires
                m >= 1,
                size >= 1,
                start == (m - 1) * size,
                end == m * size,
        ;
        let n = a.len() as int;
        if start >= n {
            assert(a.take(n) + Seq::<JV>::empty() =~= a.take(n));
        } else if start + size >= n {
            assert(a.take(start) + a.skip(start) =~= a.take(n));
        } else {
            assert(a.take(start) + a.subrange(start, start + size) =~= a.take(end));
        }
    }
}

/// Each page's number and size are at least 1, so pages are counted from 1.
pub proof fn lemma_page_values_positive(qp: Seq<(Seq<char>, Seq<char>)>, param: Seq<char>, default: int)
    ensures
        page_value(qp, param, default) >= 1,
{
}

} // verus!
