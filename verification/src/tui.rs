//! The terminal interface's state and the decisions it takes on each key:
//! tabs, list selection, the create/edit forms and their text editing, and
//! the store or server operations a key asks for.
use vstd::prelude::*;

use crate::handler::{body_file, file_body_path, handled_method, pair_views};
use crate::json::{parse, parse_json, text_of, to_text};
use crate::models::{
    method_name, parse_method_spec, HttpMethod, LogEvent, MockApi, PortConfig, RequestLog, SystemLog,
};
use crate::store::{CreateMockRequest, UpdateMockRequest};
use crate::views::{chip_texts, chips};
use crate::text::{
    chars_of, is_whitespace, is_ws, push_all, push_str_chars, split_chars, split_on,
    split_once, split_once_chars, str_eq, eq_str, string_of, trim, trim_chars, views, parse_i64,
    parse_int, i64_string, decimal_int, u64_string, decimal, slice_chars, trim_str,
    last_occurrence, occurs_at, rfind_chars, starts_with, starts_with_chars, lower_text, to_lower,
    parse_nat, parse_unsigned, u64_chars, has_char, find_char, lemma_find_char, lemma_find_char_result,
    lemma_split_on_single, lemma_split_on_join, lemma_split_on_extend, lemma_trim_padded,
    lemma_decimal_parses,
};

verus! {

// ---------------------------------------------------------------------------
// Form layout
// ---------------------------------------------------------------------------

pub const PORT_ID_FIELD_IDX: usize = 0;

pub const METHOD_FIELD_IDX: usize = 1;

pub const PATH_FIELD_IDX: usize = 2;

pub const NAME_FIELD_IDX: usize = 3;

pub const DESCRIPTION_FIELD_IDX: usize = 4;

pub const REQUEST_PARAMS_FIELD_IDX: usize = 5;

pub const STATUS_FIELD_IDX: usize = 6;

pub const DELAY_FIELD_IDX: usize = 7;

pub const HEADER_FIELD_IDX: usize = 8;

pub const BODY_SOURCE_FIELD_IDX: usize = 9;

pub const BODY_FIELD_IDX: usize = 10;

pub const PAGINATION_ENABLED_FIELD_IDX: usize = 11;

pub const PAGINATION_PAGE_PARAM_FIELD_IDX: usize = 12;

pub const PAGINATION_SIZE_PARAM_FIELD_IDX: usize = 13;

pub const PAGINATION_DATA_FIELD_IDX: usize = 14;

pub const PAGINATION_TOTAL_FIELD_IDX: usize = 15;

/// The number of fields of the mock form.
pub const MOCK_FORM_FIELDS: usize = 16;

// ---------------------------------------------------------------------------
// Text helpers of the forms
// ---------------------------------------------------------------------------

/// The words of `s`: its maximal runs of non-whitespace characters.
pub open spec fn words(s: Seq<char>) -> Seq<Seq<char>>
    decreases s.len(),
{
    if s.len() == 0 {
        seq![]
    } else {
        let w = words(s.drop_last());
        if is_ws(s.last()) {
            w
        } else if s.len() >= 2 && !is_ws(s[s.len() - 2]) {
            w.update(w.len() - 1, w.last().push(s.last()))
        } else {
            w.push(seq![s.last()])
        }
    }
}

/// Texts joined with one space between neighbours.
pub open spec fn join_spaced(w: Seq<Seq<char>>) -> Seq<char>
    decreases w.len(),
{
    if w.len() == 0 {
        seq![]
    } else if w.len() == 1 {
        w[0]
    } else {
        join_spaced(w.drop_last()) + seq![' '] + w.last()
    }
}

proof fn lemma_words_nonempty(s: Seq<char>)
    requires
        s.len() > 0,
        !is_ws(s.last()),
    ensures
        words(s).len() > 0,
    decreases s.len(),
{
    if s.len() >= 2 && !is_ws(s[s.len() - 2]) {
        assert(s.drop_last().last() == s[s.len() - 2]);
        lemma_words_nonempty(s.drop_last());
    }
}

proof fn lemma_words_filled(s: Seq<char>)
    ensures
        forall|k: int| 0 <= k < words(s).len() ==> #[trigger] words(s)[k].len() > 0,
    decreases s.len(),
{
    if s.len() > 0 {
        let w = words(s.drop_last());
        lemma_words_filled(s.drop_last());
        if is_ws(s.last()) {
        } else if s.len() >= 2 && !is_ws(s[s.len() - 2]) {
            assert(s.drop_last().last() == s[s.len() - 2]);
            lemma_words_nonempty(s.drop_last());
            let u = w.update(w.len() - 1, w.last().push(s.last()));
            assert forall|k: int| 0 <= k < u.len() implies #[trigger] u[k].len() > 0 by {
                if k < w.len() - 1 {
                    assert(u[k] == w[k]);
                }
            }
        } else {
            let u = w.push(seq![s.last()]);
            assert forall|k: int| 0 <= k < u.len() implies #[trigger] u[k].len() > 0 by {
                if k < w.len() {
                    assert(u[k] == w[k]);
                }
            }
        }
    }
}

proof fn lemma_join_extend_last(w: Seq<Seq<char>>, c: char)
    requires
        w.len() > 0,
    ensures
        join_spaced(w.update(w.len() - 1, w.last().push(c))) == join_spaced(w).push(c),
{
    let u = w.update(w.len() - 1, w.last().push(c));
    if w.len() == 1 {
        assert(u[0] == w[0].push(c));
    } else {
        assert(u.drop_last() =~= w.drop_last());
        assert(join_spaced(u) == join_spaced(u.drop_last()) + seq![' '] + u.last());
        assert(join_spaced(u) =~= join_spaced(w).push(c));
    }
}

proof fn lemma_join_push(w: Seq<Seq<char>>, x: Seq<char>)
    ensures
        join_spaced(w.push(x)) == if w.len() == 0 {
            x
        } else {
            join_spaced(w) + seq![' '] + x
        },
{
    assert(w.push(x).drop_last() =~= w);
}

/// Collapses each run of whitespace to one space and drops leading and
/// trailing whitespace (the words of `s`, joined by single spaces).
pub fn collapse_whitespace(s: &str) -> (r: String)
    ensures
        r@ == join_spaced(words(s@)),
{
    let v = chars_of(s);
    let mut out: Vec<char> = Vec::new();
    let mut i: usize = 0;
    assert(v@.take(0) =~= seq![]);
    while i < v.len()
        invariant
            v@ == s@,
            i <= v.len(),
            out@ == join_spaced(words(v@.take(i as int))),
        decreases v.len() - i,
    {
        let ghost t = v@.take(i as int + 1);
        let ghost w = words(v@.take(i as int));
        assert(t.drop_last() =~= v@.take(i as int));
        assert(t.last() == v@[i as int]);
        let c = v[i];
        if is_whitespace(c) {
        } else if i > 0 && !is_whitespace(v[i - 1]) {
            proof {
                let p = v@.take(i as int);
                assert(p.last() == v@[i - 1]);
                assert(t[t.len() - 2] == v@[i - 1]);
                lemma_words_nonempty(p);
                lemma_join_extend_last(w, c);
            }
            out.push(c);
        } else {
            proof {
                lemma_join_push(w, seq![c]);
                if i > 0 {
                    assert(t[t.len() - 2] == v@[i - 1]);
                }
            }
            if out.len() > 0 {
                out.push(' ');
                out.push(c);
                proof {
                    if w.len() == 0 {
                        assert(join_spaced(w) =~= seq![]);
                    }
                }
                assert(out@ =~= join_spaced(w.push(seq![c])));
            } else {
                proof {
                    if w.len() > 0 {
                        lemma_words_filled(v@.take(i as int));
                        lemma_join_len(w);
                    }
                }
                out.push(c);
                assert(out@ =~= join_spaced(w.push(seq![c])));
            }
        }
        i = i + 1;
    }
    assert(v@.take(v.len() as int) =~= v@);
    string_of(out.as_slice())
}

proof fn lemma_join_len(w: Seq<Seq<char>>)
    requires
        w.len() > 0,
        forall|k: int| 0 <= k < w.len() ==> #[trigger] w[k].len() > 0,
    ensures
        join_spaced(w).len() > 0,
    decreases w.len(),
{
    if w.len() > 1 {
        lemma_join_len(w.drop_last());
    }
}


/// The stored form of a response body entered in the form: `file://<path>`
/// when the body source is `File` and a path was given, else the text.
pub open spec fn encoded_body(source: Seq<char>, body: Seq<char>) -> Seq<char> {
    if source == "File"@ && body.len() > 0 {
        "file://"@ + body
    } else {
        body
    }
}

/// Encodes the form's body source and body into the stored response body.
pub fn encode_body_field(source: &str, body: &str) -> (r: String)
    ensures
        r@ == encoded_body(source@, body@),
{
    let b = chars_of(body);
    if str_eq(source, "File") && b.len() > 0 {
        let mut out = chars_of("file://");
        push_all(&mut out, &b);
        string_of(out.as_slice())
    } else {
        body.to_owned()
    }
}

/// The form's body source and body for a stored response body: `File` and
/// the path for `file://<path>`, else `Inline` and the text.
pub open spec fn decoded_body(stored: Seq<char>) -> (Seq<char>, Seq<char>) {
    match body_file(stored) {
        Some(path) => ("File"@, path),
        None => ("Inline"@, stored),
    }
}

/// Splits a stored response body into the form's body source and body.
pub fn decode_body_field(stored: &str) -> (r: (String, String))
    ensures
        r.0@ == decoded_body(stored@).0,
        r.1@ == decoded_body(stored@).1,
{
    match file_body_path(stored) {
        Some(path) => ("File".to_owned(), path),
        None => ("Inline".to_owned(), stored.to_owned()),
    }
}

/// The header a `key: value` piece names: both sides trimmed, and only when
/// there is a colon and the key is not empty.
pub open spec fn header_entry(piece: Seq<char>) -> Option<(Seq<char>, Seq<char>)> {
    let sp = split_once(piece, ':');
    match sp.1 {
        Some(v) => if trim(sp.0).len() == 0 {
            None
        } else {
            Some((trim(sp.0), trim(v)))
        },
        None => None,
    }
}

/// The headers the pieces name, in order.
pub open spec fn header_entries(pieces: Seq<Seq<char>>) -> Seq<(Seq<char>, Seq<char>)>
    decreases pieces.len(),
{
    if pieces.len() == 0 {
        seq![]
    } else {
        let p = header_entries(pieces.drop_last());
        match header_entry(pieces.last()) {
            Some(e) => p.push(e),
            None => p,
        }
    }
}

/// Whether some pair has key `k`.
pub open spec fn has_key(ps: Seq<(Seq<char>, Seq<char>)>, k: Seq<char>) -> bool {
    exists|q: int| 0 <= q < ps.len() && #[trigger] ps[q].0 == k
}

/// The pairs whose key does not occur again later: for each key, its last
/// value, as when pairs are collected into a map.
pub open spec fn last_per_key(ps: Seq<(Seq<char>, Seq<char>)>) -> Seq<(Seq<char>, Seq<char>)>
    decreases ps.len(),
{
    if ps.len() == 0 {
        seq![]
    } else if has_key(ps.drop_first(), ps[0].0) {
        last_per_key(ps.drop_first())
    } else {
        seq![ps[0]] + last_per_key(ps.drop_first())
    }
}

/// No key occurs twice: the pairs are a map's entries.
pub open spec fn distinct_keys(ps: Seq<(Seq<char>, Seq<char>)>) -> bool {
    forall|i: int, j: int| 0 <= i < j < ps.len() ==> ps[i].0 != ps[j].0
}

/// Keeping each key's last pair leaves no key twice, and only keys that
/// were there.
pub proof fn lemma_last_per_key_distinct_keys(ps: Seq<(Seq<char>, Seq<char>)>)
    ensures
        distinct_keys(last_per_key(ps)),
        forall|k: Seq<char>| has_key(last_per_key(ps), k) ==> has_key(ps, k),
    decreases ps.len(),
{
    if ps.len() > 0 {
        let rest = ps.drop_first();
        lemma_last_per_key_distinct_keys(rest);
        let l = last_per_key(rest);
        assert forall|k: Seq<char>| has_key(rest, k) implies has_key(ps, k) by {
            let q = choose|q: int| 0 <= q < rest.len() && #[trigger] rest[q].0 == k;
            assert(ps[q + 1] == rest[q]);
        }
        if !has_key(rest, ps[0].0) {
            let r = seq![ps[0]] + l;
            assert(last_per_key(ps) == r);
            assert forall|i: int, j: int| 0 <= i < j < r.len() implies r[i].0 != r[j].0 by {
                if i == 0 {
                    assert(r[j] == l[j - 1]);
                    if r[j].0 == ps[0].0 {
                        assert(has_key(l, ps[0].0));
                    }
                } else {
                    assert(r[i] == l[i - 1] && r[j] == l[j - 1]);
                }
            }
            assert forall|k: Seq<char>| has_key(r, k) implies has_key(ps, k) by {
                let q = choose|q: int| 0 <= q < r.len() && #[trigger] r[q].0 == k;
                if q == 0 {
                    assert(ps[0].0 == k);
                } else {
                    assert(r[q] == l[q - 1]);
                    assert(has_key(l, k));
                }
            }
        }
    }
}

/// The headers written in the form's `Key: value | Key: value` syntax.
pub open spec fn headers_of(s: Seq<char>) -> Seq<(Seq<char>, Seq<char>)> {
    last_per_key(header_entries(split_on(s, '|')))
}

/// Reads the form's header text: `|`-separated `key: value` pieces; pieces
/// without a colon or with an empty key are skipped, and a repeated key
/// keeps its last value.
pub fn parse_headers(s: &str) -> (r: Vec<(String, String)>)
    ensures
        pair_views(r@) == headers_of(s@),
        distinct_keys(pair_views(r@)),
{
    let v = chars_of(s);
    let pieces = split_chars(&v, '|');
    let ghost pv = views(pieces@);
    let mut raw: Vec<(String, String)> = Vec::new();
    let mut i: usize = 0;
    assert(pv.take(0) =~= seq![]);
    assert(pair_views(raw@) =~= seq![]);
    while i < pieces.len()
        invariant
            pv == views(pieces@),
            pv == split_on(v@, '|'),
            v@ == s@,
            i <= pieces.len(),
            pair_views(raw@) == header_entries(pv.take(i as int)),
        decreases pieces.len() - i,
    {
        let ghost t = pv.take(i as int + 1);
        assert(t.drop_last() =~= pv.take(i as int));
        assert(t.last() == pieces@[i as int]@);
        let (first, rest) = split_once_chars(&pieces[i], ':');
        match rest {
            Some(rest) => {
                let k = trim_chars(&first);
                if k.len() > 0 {
                    let val = trim_chars(&rest);
                    let ghost old_raw = raw@;
                    raw.push((string_of(k.as_slice()), string_of(val.as_slice())));
                    assert(pair_views(raw@) =~= pair_views(old_raw).push((k@, val@)));
                }
            },
            None => {},
        }
        i = i + 1;
    }
    assert(pv.take(pieces.len() as int) =~= pv);
    keep_last_per_key(&raw)
}

/// The pairs of `raw` whose key does not occur again later.
pub fn keep_last_per_key(raw: &Vec<(String, String)>) -> (r: Vec<(String, String)>)
    ensures
        pair_views(r@) == last_per_key(pair_views(raw@)),
        distinct_keys(pair_views(r@)),
{
    proof {
        lemma_last_per_key_distinct_keys(pair_views(raw@));
    }
    let ghost rv = pair_views(raw@);
    let mut out: Vec<(String, String)> = Vec::new();
    let mut i: usize = 0;
    assert(rv.skip(0) =~= rv);
    assert(pair_views(out@) =~= seq![]);
    assert(pair_views(out@) + last_per_key(rv.skip(0)) =~= last_per_key(rv));
    while i < raw.len()
        invariant
            rv == pair_views(raw@),
            i <= raw.len(),
            pair_views(out@) + last_per_key(rv.skip(i as int)) == last_per_key(rv),
        decreases raw.len() - i,
    {
        let ghost t = rv.skip(i as int);
        assert(t[0] == rv[i as int]);
        assert(t.drop_first() =~= rv.skip(i + 1));
        let mut found = false;
        let mut j: usize = i + 1;
        while j < raw.len()
            invariant
                rv == pair_views(raw@),
                i < raw.len(),
                i + 1 <= j <= raw.len(),
                found <==> exists|q: int| i + 1 <= q < j && #[trigger] rv[q].0 == rv[i as int].0,
            decreases raw.len() - j,
        {
            if str_eq(raw[j].0.as_str(), raw[i].0.as_str()) {
                found = true;
                assert(rv[j as int].0 == rv[i as int].0);
            }
            j = j + 1;
        }
        let ghost d = rv.skip(i + 1);
        assert(found == has_key(d, rv[i as int].0)) by {
            if found {
                let q = choose|q: int| i + 1 <= q < raw.len() && #[trigger] rv[q].0 == rv[i as int].0;
                assert(d[q - i - 1] == rv[q]);
            }
            if has_key(d, rv[i as int].0) {
                let q = choose|q: int| 0 <= q < d.len() && #[trigger] d[q].0 == rv[i as int].0;
                assert(d[q] == rv[q + i + 1]);
            }
        }
        if !found {
            let ghost old_out = out@;
            out.push((raw[i].0.clone(), raw[i].1.clone()));
            assert(pair_views(out@) =~= pair_views(old_out).push(rv[i as int]));
            assert(pair_views(out@) + last_per_key(rv.skip(i + 1)) =~= pair_views(old_out)
                + last_per_key(t));
        }
        i = i + 1;
    }
    assert(rv.skip(raw.len() as int) =~= seq![]);
    assert(pair_views(out@) + seq![] =~= pair_views(out@));
    out
}

/// One header in the form's syntax.
pub open spec fn header_line(p: (Seq<char>, Seq<char>)) -> Seq<char> {
    p.0 + ": "@ + p.1
}

/// Headers in the form's syntax, separated by ` | `.
pub open spec fn headers_text(ps: Seq<(Seq<char>, Seq<char>)>) -> Seq<char>
    decreases ps.len(),
{
    if ps.len() == 0 {
        seq![]
    } else if ps.len() == 1 {
        header_line(ps[0])
    } else {
        headers_text(ps.drop_last()) + " | "@ + header_line(ps.last())
    }
}

/// Writes headers in the form's `Key: value | Key: value` syntax.
pub fn format_headers(h: &Vec<(String, String)>) -> (r: String)
    ensures
        r@ == headers_text(pair_views(h@)),
{
    let ghost hv = pair_views(h@);
    let mut out: Vec<char> = Vec::new();
    let mut i: usize = 0;
    assert(hv.take(0) =~= seq![]);
    while i < h.len()
        invariant
            hv == pair_views(h@),
            i <= h.len(),
            out@ == headers_text(hv.take(i as int)),
        decreases h.len() - i,
    {
        let ghost t = hv.take(i as int + 1);
        assert(t.drop_last() =~= hv.take(i as int));
        assert(t.last() == hv[i as int]);
        let ghost before = out@;
        if i > 0 {
            push_str_chars(&mut out, " | ");
        }
        push_str_chars(&mut out, h[i].0.as_str());
        push_str_chars(&mut out, ": ");
        push_str_chars(&mut out, h[i].1.as_str());
        proof {
            if i == 0 {
                assert(out@ =~= header_line(t[0]));
            } else {
                assert(out@ =~= before + " | "@ + header_line(t.last()));
            }
        }
        i = i + 1;
    }
    assert(hv.take(h.len() as int) =~= hv);
    string_of(out.as_slice())
}


/// The request params a form field names: its non-empty `|`-separated
/// entries, trimmed, each once (the last occurrence kept), with no value.
pub open spec fn param_pairs(t: Seq<char>) -> Seq<(Seq<char>, Seq<char>)> {
    last_per_key(chip_texts(split_on(t, '|')).map_values(|n: Seq<char>| (n, Seq::<char>::empty())))
}

/// Reads the form's request-params field (see `param_pairs`).
pub fn parse_params(s: &str) -> (r: Vec<(String, String)>)
    ensures
        pair_views(r@) == param_pairs(s@),
        distinct_keys(pair_views(r@)),
{
    let names = chips(s);
    let ghost nv = names@.map_values(|t: String| t@);
    let mut raw: Vec<(String, String)> = Vec::new();
    let mut i: usize = 0;
    while i < names.len()
        invariant
            i <= names.len(),
            nv == names@.map_values(|t: String| t@),
            pair_views(raw@) == nv.take(i as int).map_values(|n: Seq<char>| (n, Seq::<char>::empty())),
        decreases names.len() - i,
    {
        let ghost before = raw@;
        raw.push((names[i].clone(), String::new()));
        assert(pair_views(raw@) =~= pair_views(before).push((nv[i as int], Seq::<char>::empty())));
        assert(nv.take(i as int + 1) =~= nv.take(i as int).push(nv[i as int]));
        assert(nv.take(i as int + 1).map_values(|n: Seq<char>| (n, Seq::<char>::empty())) =~= nv.take(
            i as int,
        ).map_values(|n: Seq<char>| (n, Seq::<char>::empty())).push((nv[i as int], Seq::<char>::empty())));
        i = i + 1;
    }
    assert(nv.take(names.len() as int) =~= nv);
    keep_last_per_key(&raw)
}

/// The names of request params in the form's `a | b` syntax.
pub open spec fn names_text(ps: Seq<(Seq<char>, Seq<char>)>) -> Seq<char>
    decreases ps.len(),
{
    if ps.len() == 0 {
        seq![]
    } else if ps.len() == 1 {
        ps[0].0
    } else {
        names_text(ps.drop_last()) + " | "@ + ps.last().0
    }
}

/// Writes request params' names in the form's syntax (see `names_text`).
pub fn format_params(ps: &Vec<(String, String)>) -> (r: String)
    ensures
        r@ == names_text(pair_views(ps@)),
{
    let ghost pv = pair_views(ps@);
    let mut out: Vec<char> = Vec::new();
    let mut i: usize = 0;
    assert(pv.take(0) =~= seq![]);
    while i < ps.len()
        invariant
            pv == pair_views(ps@),
            i <= ps.len(),
            out@ == names_text(pv.take(i as int)),
        decreases ps.len() - i,
    {
        let ghost t = pv.take(i as int + 1);
        assert(t.drop_last() =~= pv.take(i as int));
        assert(t.last() == pv[i as int]);
        let ghost before = out@;
        if i > 0 {
            push_str_chars(&mut out, " | ");
        }
        push_str_chars(&mut out, ps[i].0.as_str());
        proof {
            if i == 0 {
                assert(out@ =~= t[0].0);
            } else {
                assert(out@ =~= before + " | "@ + t.last().0);
            }
        }
        i = i + 1;
    }
    assert(pv.take(ps.len() as int) =~= pv);
    string_of(out.as_slice())
}

/// A header that the form's syntax writes and reads back unchanged: a
/// non-empty trimmed key without `:` or `|`, and a trimmed value without `|`.
pub open spec fn clean_header(p: (Seq<char>, Seq<char>)) -> bool {
    &&& p.0.len() > 0
    &&& trim(p.0) == p.0
    &&& !has_char(p.0, ':')
    &&& !has_char(p.0, '|')
    &&& trim(p.1) == p.1
    &&& !has_char(p.1, '|')
}

/// A header line, after no space or one, reads as its header.
proof fn lemma_header_entry_of_line(pre: Seq<char>, p: (Seq<char>, Seq<char>))
    requires
        clean_header(p),
        pre == Seq::<char>::empty() || pre == seq![' '],
    ensures
        header_entry(pre + header_line(p)) == Some(p),
        has_char(pre + header_line(p), ':'),
        !has_char(pre + header_line(p), '|'),
{
    reveal_strlit(": ");
    let k = p.0;
    let v = p.1;
    let s = pre + header_line(p);
    assert(s =~= pre + k + seq![':'] + seq![' '] + v);
    let at: int = (pre.len() + k.len()) as int;
    assert(s[at] == ':');
    assert forall|j: int| 0 <= j < at implies #[trigger] s[j] != ':' by {
        if j >= pre.len() {
            assert(s[j] == k[j - pre.len()]);
        }
    }
    lemma_find_char(s, ':', at);
    assert(s.take(at) =~= pre + k + Seq::<char>::empty());
    assert(s.skip(at + 1) =~= seq![' '] + v + Seq::<char>::empty());
    assert(is_ws(' '));
    lemma_trim_padded(k, pre, Seq::<char>::empty());
    lemma_trim_padded(v, seq![' '], Seq::<char>::empty());
    assert forall|j: int| 0 <= j < s.len() implies #[trigger] s[j] != '|' by {
        if pre.len() <= j < at {
            assert(s[j] == k[j - pre.len()]);
        } else if j > at + 1 {
            assert(s[j] == v[j - at - 2]);
        }
    }
}

/// A space after a piece with a colon does not change the header it names.
proof fn lemma_header_entry_padded_end(q: Seq<char>)
    requires
        has_char(q, ':'),
    ensures
        header_entry(q + seq![' ']) == header_entry(q),
        has_char(q + seq![' '], ':'),
{
    lemma_find_char_result(q, ':');
    let i = find_char(q, ':').unwrap();
    let s = q + seq![' '];
    assert forall|j: int| 0 <= j < i implies #[trigger] s[j] != ':' by {
        assert(s[j] == q[j]);
    }
    assert(s[i] == q[i]);
    lemma_find_char(s, ':', i);
    assert(s.take(i) =~= q.take(i));
    assert(s.skip(i + 1) =~= Seq::<char>::empty() + q.skip(i + 1) + seq![' ']);
    assert(Seq::<char>::empty() + q.skip(i + 1) + Seq::<char>::empty() =~= q.skip(i + 1));
    assert(is_ws(' '));
    lemma_trim_padded(q.skip(i + 1), Seq::<char>::empty(), seq![' ']);
    lemma_trim_padded(q.skip(i + 1), Seq::<char>::empty(), Seq::<char>::empty());
}

/// Pieces that each name their header read as those headers.
proof fn lemma_header_entries_exact(pieces: Seq<Seq<char>>, ps: Seq<(Seq<char>, Seq<char>)>)
    requires
        pieces.len() == ps.len(),
        forall|i: int| 0 <= i < ps.len() ==> header_entry(#[trigger] pieces[i]) == Some(ps[i]),
    ensures
        header_entries(pieces) == ps,
    decreases ps.len(),
{
    if ps.len() > 0 {
        lemma_header_entries_exact(pieces.drop_last(), ps.drop_last());
        assert(header_entry(pieces[pieces.len() - 1]) == Some(ps[ps.len() - 1]));
        assert(ps.drop_last().push(ps.last()) =~= ps);
    }
}

/// The `|`-separated pieces of clean headers' text name those headers, one
/// piece each.
proof fn lemma_header_pieces(ps: Seq<(Seq<char>, Seq<char>)>)
    requires
        ps.len() > 0,
        forall|i: int| 0 <= i < ps.len() ==> clean_header(#[trigger] ps[i]),
    ensures
        split_on(headers_text(ps), '|').len() == ps.len(),
        forall|i: int|
            0 <= i < ps.len() ==> header_entry(#[trigger] split_on(headers_text(ps), '|')[i]) == Some(ps[i]),
        forall|i: int| 0 <= i < ps.len() ==> has_char(#[trigger] split_on(headers_text(ps), '|')[i], ':'),
    decreases ps.len(),
{
    if ps.len() == 1 {
        let line = header_line(ps[0]);
        assert(clean_header(ps[0]));
        lemma_header_entry_of_line(Seq::<char>::empty(), ps[0]);
        assert(Seq::<char>::empty() + line =~= line);
        lemma_split_on_single(line, '|');
    } else {
        reveal_strlit(" | ");
        let prev = ps.drop_last();
        assert forall|i: int| 0 <= i < prev.len() implies clean_header(#[trigger] prev[i]) by {
            assert(prev[i] == ps[i]);
        }
        lemma_header_pieces(prev);
        let x = headers_text(prev);
        let last = ps[ps.len() - 1];
        assert(clean_header(last));
        let line = header_line(last);
        lemma_header_entry_of_line(seq![' '], last);
        assert(headers_text(ps) =~= (x + seq![' ']) + seq!['|'] + (seq![' '] + line));
        lemma_split_on_join(x + seq![' '], seq![' '] + line, '|');
        lemma_split_on_single(seq![' '] + line, '|');
        assert(!has_char(seq![' '], '|'));
        lemma_split_on_extend(x, seq![' '], '|');
        let q = split_on(x, '|');
        assert(has_char(q[q.len() - 1], ':'));
        lemma_header_entry_padded_end(q.last());
        let pieces = split_on(headers_text(ps), '|');
        assert(pieces =~= q.drop_last().push(q.last() + seq![' ']) + seq![seq![' '] + line]);
        assert forall|i: int| 0 <= i < ps.len() implies header_entry(#[trigger] pieces[i]) == Some(ps[i])
            && has_char(pieces[i], ':') by {
            if i < ps.len() - 2 {
                assert(pieces[i] == q[i]);
                assert(ps[i] == prev[i]);
            } else if i == ps.len() - 2 {
                assert(pieces[i] == q.last() + seq![' ']);
                assert(ps[i] == prev[i]);
            } else {
                assert(pieces[i] == seq![' '] + line);
            }
        }
    }
}

/// Pairs whose keys are all different are their own last-per-key pairs.
proof fn lemma_last_per_key_distinct(ps: Seq<(Seq<char>, Seq<char>)>)
    requires
        forall|i: int, j: int| 0 <= i < j < ps.len() ==> ps[i].0 != ps[j].0,
    ensures
        last_per_key(ps) == ps,
    decreases ps.len(),
{
    if ps.len() > 0 {
        let rest = ps.drop_first();
        assert(!has_key(rest, ps[0].0)) by {
            if has_key(rest, ps[0].0) {
                let q = choose|q: int| 0 <= q < rest.len() && #[trigger] rest[q].0 == ps[0].0;
                assert(rest[q] == ps[q + 1]);
            }
        }
        assert forall|i: int, j: int| 0 <= i < j < rest.len() implies rest[i].0 != rest[j].0 by {
            assert(rest[i] == ps[i + 1] && rest[j] == ps[j + 1]);
        }
        lemma_last_per_key_distinct(rest);
        assert(seq![ps[0]] + rest =~= ps);
    }
}

/// Headers written in the form's syntax read back as themselves when each
/// is clean (see `clean_header`) and no key repeats: saving an edit form
/// whose header field was left as shown keeps the mock's headers.
pub proof fn lemma_headers_round_trip(h: Seq<(Seq<char>, Seq<char>)>)
    requires
        forall|i: int| 0 <= i < h.len() ==> clean_header(#[trigger] h[i]),
        forall|i: int, j: int| 0 <= i < j < h.len() ==> h[i].0 != h[j].0,
    ensures
        headers_of(headers_text(h)) == h,
{
    if h.len() == 0 {
        let e = Seq::<char>::empty();
        assert(headers_text(h) == e);
        assert(!has_char(e, '|'));
        lemma_split_on_single(e, '|');
        lemma_find_char_result(e, ':');
        assert(header_entry(e) is None);
        assert(header_entries(seq![e]) == header_entries(seq![e].drop_last()));
        assert(seq![e].drop_last() =~= Seq::<Seq<char>>::empty());
        assert(header_entries(seq![e]) =~= h);
    } else {
        lemma_header_pieces(h);
        lemma_header_entries_exact(split_on(headers_text(h), '|'), h);
    }
    lemma_last_per_key_distinct(h);
}

/// A request-param name that the form's syntax writes and reads back
/// unchanged: non-empty, trimmed, without `|`.
pub open spec fn clean_name(n: Seq<char>) -> bool {
    &&& n.len() > 0
    &&& trim(n) == n
    &&& !has_char(n, '|')
}

/// The `|`-separated pieces of clean names' text trim to those names, one
/// piece each.
proof fn lemma_name_pieces(ps: Seq<(Seq<char>, Seq<char>)>)
    requires
        ps.len() > 0,
        forall|i: int| 0 <= i < ps.len() ==> clean_name(#[trigger] ps[i].0),
    ensures
        split_on(names_text(ps), '|').len() == ps.len(),
        forall|i: int| 0 <= i < ps.len() ==> trim(#[trigger] split_on(names_text(ps), '|')[i]) == ps[i].0,
    decreases ps.len(),
{
    let e = Seq::<char>::empty();
    if ps.len() == 1 {
        assert(clean_name(ps[0].0));
        lemma_split_on_single(ps[0].0, '|');
    } else {
        reveal_strlit(" | ");
        let prev = ps.drop_last();
        assert forall|i: int| 0 <= i < prev.len() implies clean_name(#[trigger] prev[i].0) by {
            assert(prev[i] == ps[i]);
        }
        lemma_name_pieces(prev);
        let x = names_text(prev);
        let n = ps[ps.len() - 1].0;
        assert(clean_name(n));
        assert(names_text(ps) =~= (x + seq![' ']) + seq!['|'] + (seq![' '] + n));
        lemma_split_on_join(x + seq![' '], seq![' '] + n, '|');
        assert(!has_char(seq![' '] + n, '|')) by {
            assert forall|j: int| 0 <= j < (seq![' '] + n).len() implies #[trigger] (seq![' '] + n)[j]
                != '|' by {
                if j > 0 {
                    assert((seq![' '] + n)[j] == n[j - 1]);
                }
            }
        }
        lemma_split_on_single(seq![' '] + n, '|');
        assert(!has_char(seq![' '], '|'));
        lemma_split_on_extend(x, seq![' '], '|');
        let q = split_on(x, '|');
        assert(is_ws(' '));
        lemma_trim_padded(q.last(), e, seq![' ']);
        assert(e + q.last() + seq![' '] =~= q.last() + seq![' ']);
        lemma_trim_padded(n, seq![' '], e);
        assert(seq![' '] + n + e =~= seq![' '] + n);
        let pieces = split_on(names_text(ps), '|');
        assert(pieces =~= q.drop_last().push(q.last() + seq![' ']) + seq![seq![' '] + n]);
        assert forall|i: int| 0 <= i < ps.len() implies trim(#[trigger] pieces[i]) == ps[i].0 by {
            if i < ps.len() - 2 {
                assert(pieces[i] == q[i]);
                assert(ps[i] == prev[i]);
            } else if i == ps.len() - 2 {
                assert(pieces[i] == q.last() + seq![' ']);
                assert(ps[i] == prev[i]);
            } else {
                assert(pieces[i] == seq![' '] + n);
            }
        }
    }
}

/// Pieces that each trim to a non-empty text have those texts as chips.
proof fn lemma_chips_exact(pieces: Seq<Seq<char>>, names: Seq<Seq<char>>)
    requires
        pieces.len() == names.len(),
        forall|i: int| 0 <= i < names.len() ==> trim(#[trigger] pieces[i]) == names[i] && names[i].len() > 0,
    ensures
        chip_texts(pieces) == names,
    decreases names.len(),
{
    if names.len() > 0 {
        lemma_chips_exact(pieces.drop_last(), names.drop_last());
        assert(trim(pieces[pieces.len() - 1]) == names[names.len() - 1]);
        assert(names.drop_last().push(names.last()) =~= names);
    }
}

/// Request params written in the form's syntax read back as themselves when
/// each name is clean (see `clean_name`), no name repeats and no value is
/// set: saving an edit form whose params field was left as shown keeps the
/// mock's params.
pub proof fn lemma_params_round_trip(ps: Seq<(Seq<char>, Seq<char>)>)
    requires
        forall|i: int| 0 <= i < ps.len() ==> clean_name(#[trigger] ps[i].0) && ps[i].1.len() == 0,
        forall|i: int, j: int| 0 <= i < j < ps.len() ==> ps[i].0 != ps[j].0,
    ensures
        param_pairs(names_text(ps)) == ps,
{
    let names = ps.map_values(|p: (Seq<char>, Seq<char>)| p.0);
    let pieces = split_on(names_text(ps), '|');
    if ps.len() == 0 {
        let e = Seq::<char>::empty();
        assert(names_text(ps) == e);
        assert(!has_char(e, '|'));
        lemma_split_on_single(e, '|');
        assert(trim(e).len() == 0) by {
            lemma_trim_padded(e, e, e);
            assert(e + e + e =~= e);
            assert(trim(e) =~= e);
        }
        assert(chip_texts(seq![e]) == chip_texts(seq![e].drop_last()));
        assert(seq![e].drop_last() =~= Seq::<Seq<char>>::empty());
        assert(chip_texts(pieces) =~= names);
    } else {
        lemma_name_pieces(ps);
        lemma_chips_exact(pieces, names);
    }
    let pairs = chip_texts(pieces).map_values(|n: Seq<char>| (n, Seq::<char>::empty()));
    assert(pairs =~= ps) by {
        assert forall|i: int| 0 <= i < ps.len() implies pairs[i] == ps[i] by {
            assert(ps[i].1 =~= Seq::<char>::empty());
        }
    }
    lemma_last_per_key_distinct(ps);
}

// ---------------------------------------------------------------------------
// Screens and forms
// ---------------------------------------------------------------------------

/// The tabs of the interface, in the order `Tab` cycles through them.
#[derive(Debug, Clone, Copy, PartialEq, Eq, Structural)]
pub enum Tab {
    Ports,
    Mocks,
    Logs,
    Functions,
}

/// The tab after `t`: Ports, Mocks, Logs, Functions, then Ports again.
pub open spec fn next_tab(t: Tab) -> Tab {
    match t {
        Tab::Ports => Tab::Mocks,
        Tab::Mocks => Tab::Logs,
        Tab::Logs => Tab::Functions,
        Tab::Functions => Tab::Ports,
    }
}

impl Tab {
    /// The next tab in the cycle.
    pub fn next(self) -> (r: Tab)
        ensures
            r == next_tab(self),
    {
        match self {
            Tab::Ports => Tab::Mocks,
            Tab::Mocks => Tab::Logs,
            Tab::Logs => Tab::Functions,
            Tab::Functions => Tab::Ports,
        }
    }
}

/// The two logs the Logs tab shows.
#[derive(Debug, Clone, Copy, PartialEq, Eq, Structural)]
pub enum LogTab {
    Request,
    System,
}

/// The dialog open over the current tab.
#[derive(Debug, Clone, Copy, PartialEq, Eq, Structural)]
pub enum ModalKind {
    PortCreate,
    PortEdit,
    MockCreate,
    MockEdit,
    Confirm,
}

/// What a confirmation dialog confirms.
#[derive(Debug, Clone, Copy, PartialEq, Eq, Structural)]
pub enum ConfirmAction {
    DeletePort(i64),
    DeleteMock(i64),
}

/// The state of the terminal interface.
pub struct App {
    pub active_tab: Tab,
    // Ports tab
    pub ports: Vec<PortConfig>,
    pub running_port_ids: Vec<i64>,
    pub port_selected: usize,
    // Mocks tab
    pub mocks: Vec<MockApi>,
    pub mock_selected: usize,
    pub mock_port_filter: Option<i64>,
    // Logs tab
    pub log_tab: LogTab,
    pub request_logs: Vec<RequestLog>,
    pub system_logs: Vec<SystemLog>,
    pub log_selected: usize,
    pub log_detail_open: bool,
    /// How far the open request detail is scrolled down, in lines.
    pub log_detail_scroll: usize,
    // Dialog
    pub modal: Option<ModalKind>,
    pub modal_fields: Vec<String>,
    pub modal_field_idx: usize,
    pub modal_cursor_pos: usize,
    /// How far the mock form's body field is scrolled down, in lines.
    pub modal_body_scroll: usize,
    pub cancel_confirm_pending: bool,
    pub confirm_message: String,
    pub confirm_action: Option<ConfirmAction>,
    pub status_msg: Option<String>,
    pub modal_error: Option<String>,
    /// Whether the template-function help is shown over everything else.
    pub show_fn_help: bool,
    /// The machine's address, shown beside each port.
    pub system_ip: String,
}

/// The largest number of entries each log list keeps.
pub const LOG_CAPACITY: usize = 500;

/// `n` moved one step down a list of `len` entries (it stays on the last).
pub open spec fn step_down(n: usize, len: int) -> usize {
    if len > 0 {
        if n + 1 < len {
            (n + 1) as usize
        } else {
            (len - 1) as usize
        }
    } else {
        n
    }
}

/// `n` moved one step up (it stays at 0).
pub open spec fn step_up(n: usize) -> usize {
    if n > 0 {
        (n - 1) as usize
    } else {
        0
    }
}

fn down_one(n: usize, len: usize) -> (r: usize)
    ensures
        r == step_down(n, len as int),
{
    if len > 0 {
        if n < len - 1 {
            n + 1
        } else {
            len - 1
        }
    } else {
        n
    }
}

/// A new entry at the front of a log list that keeps at most
/// `LOG_CAPACITY` entries.
pub open spec fn pushed_front<T>(s: Seq<T>, x: T) -> Seq<T> {
    let t = seq![x] + s;
    if t.len() > LOG_CAPACITY {
        t.take(LOG_CAPACITY as int)
    } else {
        t
    }
}

/// A scroll offset moved one line down (`down`) or up, staying at least 0.
pub open spec fn scrolled(n: usize, down: bool) -> usize {
    if down {
        if n < usize::MAX {
            (n + 1) as usize
        } else {
            n
        }
    } else if n > 0 {
        (n - 1) as usize
    } else {
        0
    }
}

fn scroll_step(n: usize, down: bool) -> (r: usize)
    ensures
        r == scrolled(n, down),
{
    if down {
        if n < usize::MAX {
            n + 1
        } else {
            n
        }
    } else if n > 0 {
        n - 1
    } else {
        0
    }
}

/// The effect of `App::port_list_nav_down`.
pub open spec fn port_nav_down_done(a: App, b: App) -> bool {
    &&& (b == (App {
            port_selected: step_down(a.port_selected, a.ports@.len() as int),
            ..a
        }))
}

/// The effect of `App::port_list_nav_up`.
pub open spec fn port_nav_up_done(a: App, b: App) -> bool {
    &&& (b == (App { port_selected: step_up(a.port_selected), ..a }))
}

/// The effect of `App::mock_list_nav_down`.
pub open spec fn mock_nav_down_done(a: App, b: App) -> bool {
    &&& (b == (App {
            mock_selected: step_down(a.mock_selected, a.mocks@.len() as int),
            ..a
        }))
}

/// The effect of `App::mock_list_nav_up`.
pub open spec fn mock_nav_up_done(a: App, b: App) -> bool {
    &&& (b == (App { mock_selected: step_up(a.mock_selected), ..a }))
}

/// The effect of `App::log_nav_down`.
pub open spec fn log_nav_down_done(a: App, b: App) -> bool {
    &&& (b == (App {
            log_selected: step_down(a.log_selected, a.shown_log_len()),
            ..a
        }))
}

/// The effect of `App::log_nav_up`.
pub open spec fn log_nav_up_done(a: App, b: App) -> bool {
    &&& (b == (App { log_selected: step_up(a.log_selected), ..a }))
}

/// The effect of `App::cycle_port_field`.
pub open spec fn port_field_cycled(a: App, b: App, forward: bool) -> bool {
    &&& (a.ports@.len() == 0 ==> b == a)
    &&& (a.ports@.len() > 0 ==> {
            let n = a.ports@.len() as int;
            let next = cycle_index(port_pos(a.ports@, form_port_id(a.modal_fields@)), n, forward);
            &&& b == (App { modal_fields: b.modal_fields, ..a })
            &&& with_field(a.modal_fields@, 0, decimal_int(a.ports@[next].id as int), b.modal_fields@)
        })
}

/// The effect of `App::cycle_method_field`.
pub open spec fn method_field_cycled(a: App, b: App, forward: bool) -> bool {
    &&& (a.modal_fields@.len() <= METHOD_FIELD_IDX ==> b == a)
    &&& (a.modal_fields@.len() > METHOD_FIELD_IDX ==> {
            let pos = choice_pos(method_choices(), a.modal_fields@[METHOD_FIELD_IDX as int]@);
            &&& b == (App { modal_fields: b.modal_fields, ..a })
            &&& with_field(
                a.modal_fields@,
                METHOD_FIELD_IDX as int,
                method_choices()[cycle_index(pos, 4, forward)],
                b.modal_fields@,
            )
        })
}

/// The effect of `App::cycle_body_source_field`.
pub open spec fn source_field_cycled(a: App, b: App, forward: bool) -> bool {
    &&& (a.modal_fields@.len() <= BODY_SOURCE_FIELD_IDX ==> b == a)
    &&& (a.modal_fields@.len() > BODY_SOURCE_FIELD_IDX ==> {
            let pos = choice_pos(source_choices(), a.modal_fields@[BODY_SOURCE_FIELD_IDX as int]@);
            &&& b == (App { modal_fields: b.modal_fields, ..a })
            &&& with_field(
                a.modal_fields@,
                BODY_SOURCE_FIELD_IDX as int,
                source_choices()[cycle_index(pos, 2, forward)],
                b.modal_fields@,
            )
        })
}

/// The effect of `App::toggle_pagination_field`: the pagination switch
/// turns "On" from anything else, and "Off" from "On".
pub open spec fn switch_field_cycled(a: App, b: App) -> bool {
    &&& (a.modal_fields@.len() <= PAGINATION_ENABLED_FIELD_IDX ==> b == a)
    &&& (a.modal_fields@.len() > PAGINATION_ENABLED_FIELD_IDX ==> {
            &&& b == (App { modal_fields: b.modal_fields, ..a })
            &&& with_field(
                a.modal_fields@,
                PAGINATION_ENABLED_FIELD_IDX as int,
                switch_text(a.modal_fields@[PAGINATION_ENABLED_FIELD_IDX as int]@ != "On"@),
                b.modal_fields@,
            )
        })
}

/// Whether the focused field takes a list of entries, which `+` extends
/// by a separator: the request params and the response headers.
pub open spec fn on_list_field(a: App) -> bool {
    is_mock_form(a) && (a.modal_field_idx == REQUEST_PARAMS_FIELD_IDX || a.modal_field_idx
        == HEADER_FIELD_IDX)
}

/// The effect of `+` in a list field: a non-empty list gets the separator
/// " | " at its end, where the cursor goes; an empty one is left alone.
pub open spec fn entry_added(a: App, b: App) -> bool {
    let idx = a.modal_field_idx as int;
    let t = field_or_empty(a.modal_fields@, idx);
    if idx >= a.modal_fields@.len() || t.len() == 0 {
        b == a
    } else {
        &&& b == (App {
            modal_fields: b.modal_fields,
            modal_cursor_pos: (t.len() + 3) as usize,
            ..a
        })
        &&& with_field(a.modal_fields@, idx, t + " | "@, b.modal_fields@)
    }
}

/// The effect of `App::open_port_create`.
pub open spec fn port_create_opened(a: App, b: App) -> bool {
    &&& (b == (App {
            modal: Some(ModalKind::PortCreate),
            modal_fields: b.modal_fields,
            modal_field_idx: 0,
            modal_cursor_pos: 0,
            status_msg: None,
            ..a
        }))
    &&& (field_texts(b.modal_fields@) == seq![Seq::<char>::empty(), Seq::<char>::empty()])
}

/// The effect of `App::open_port_edit`.
pub open spec fn port_edit_opened(a: App, b: App) -> bool {
    &&& (a.port_selected >= a.ports@.len() ==> b == a)
    &&& (a.port_selected < a.ports@.len() ==> {
            let p = a.ports@[a.port_selected as int];
            &&& b == (App {
                modal: Some(ModalKind::PortEdit),
                modal_fields: b.modal_fields,
                modal_field_idx: 0,
                modal_cursor_pos: decimal(p.port as nat).len() as usize,
                ..a
            })
            &&& field_texts(b.modal_fields@) == seq![decimal(p.port as nat), p.label@]
        })
}

/// The effect of `App::open_mock_create`.
pub open spec fn mock_create_opened(a: App, b: App) -> bool {
    &&& (b == (App {
            modal: Some(ModalKind::MockCreate),
            modal_fields: b.modal_fields,
            modal_field_idx: 0,
            modal_cursor_pos: 0,
            modal_body_scroll: 0,
            ..a
        }))
    &&& (field_texts(b.modal_fields@) == new_mock_form(a.ports@))
}

/// The effect of `App::open_mock_edit`.
pub open spec fn mock_edit_opened(a: App, b: App) -> bool {
    &&& (a.mock_selected >= a.mocks@.len() ==> b == a)
    &&& (a.mock_selected < a.mocks@.len() ==> {
            let m = a.mocks@[a.mock_selected as int];
            &&& b == (App {
                modal: Some(ModalKind::MockEdit),
                modal_fields: b.modal_fields,
                modal_field_idx: 0,
                modal_cursor_pos: decimal_int(m.port_id as int).len() as usize,
                modal_body_scroll: 0,
                ..a
            })
            &&& field_texts(b.modal_fields@) == mock_form(m)
        })
}

/// Whether the method named in the form leaves out request params: PUT and
/// DELETE mocks do not filter by them.
pub open spec fn hides_params(method: Seq<char>) -> bool {
    method == "PUT"@ || method == "DELETE"@
}

/// Whether field `k` of the open form is shown: every field of the port
/// form; in the mock form, the request params unless the method leaves
/// them out, and the pagination settings only while pagination is on.
pub open spec fn field_shown(a: App, k: int) -> bool {
    if !(a.modal == Some(ModalKind::MockCreate) || a.modal == Some(ModalKind::MockEdit)) {
        true
    } else if k == REQUEST_PARAMS_FIELD_IDX {
        !hides_params(field_or_empty(a.modal_fields@, METHOD_FIELD_IDX as int))
    } else if PAGINATION_PAGE_PARAM_FIELD_IDX <= k <= PAGINATION_TOTAL_FIELD_IDX {
        field_or_empty(a.modal_fields@, PAGINATION_ENABLED_FIELD_IDX as int) == "On"@
    } else {
        true
    }
}

/// The first shown field after `k`, going forward and wrapping around,
/// looking at most `steps` fields ahead.
pub open spec fn next_shown(a: App, k: int, steps: nat) -> int
    decreases steps,
{
    let j = (k + 1) % (a.modal_fields@.len() as int);
    if steps <= 1 || field_shown(a, j) {
        j
    } else {
        next_shown(a, j, (steps - 1) as nat)
    }
}

/// The first shown field before `k`, going back and wrapping around,
/// looking at most `steps` fields back.
pub open spec fn prev_shown(a: App, k: int, steps: nat) -> int
    decreases steps,
{
    let n = a.modal_fields@.len() as int;
    let j = (k + n - 1) % n;
    if steps <= 1 || field_shown(a, j) {
        j
    } else {
        prev_shown(a, j, (steps - 1) as nat)
    }
}

/// The effect of `App::modal_field_next`: the focus moves to the next
/// shown field, the cursor to its end.
pub open spec fn field_next_done(a: App, b: App) -> bool {
    &&& (a.modal_fields@.len() == 0 ==> b == a)
    &&& (a.modal_fields@.len() > 0 ==> {
            let idx = next_shown(a, a.modal_field_idx as int, a.modal_fields@.len()) as usize;
            b == (App {
                modal_field_idx: idx,
                modal_cursor_pos: a.modal_fields@[idx as int]@.len() as usize,
                ..a
            })
        })
}

/// The effect of `App::modal_field_prev`: the focus moves to the previous
/// shown field, the cursor to its end.
pub open spec fn field_prev_done(a: App, b: App) -> bool {
    &&& (a.modal_fields@.len() == 0 ==> b == a)
    &&& (a.modal_fields@.len() > 0 ==> {
            let idx = prev_shown(a, a.modal_field_idx as int, a.modal_fields@.len()) as usize;
            b == (App {
                modal_field_idx: idx,
                modal_cursor_pos: a.modal_fields@[idx as int]@.len() as usize,
                ..a
            })
        })
}

/// The effect of `App::modal_cursor_left`.
pub open spec fn cursor_left_done(a: App, b: App) -> bool {
    &&& (b == (App { modal_cursor_pos: step_up(a.modal_cursor_pos), ..a }))
}

/// The effect of `App::modal_cursor_right`.
pub open spec fn cursor_right_done(a: App, b: App) -> bool {
    &&& (a.modal_field_idx >= a.modal_fields@.len() ==> b == a)
    &&& (a.modal_field_idx < a.modal_fields@.len() ==> {
            let count = a.modal_fields@[a.modal_field_idx as int]@.len();
            b == (App {
                modal_cursor_pos: if a.modal_cursor_pos + 1 < count {
                    (a.modal_cursor_pos + 1) as usize
                } else {
                    count as usize
                },
                ..a
            })
        })
}

/// The effect of `App::modal_type_char`.
pub open spec fn char_typed(a: App, b: App, c: char) -> bool {
    &&& (a.modal_field_idx >= a.modal_fields@.len() ==> b == a)
    &&& (a.modal_field_idx < a.modal_fields@.len() ==> {
            let k = a.modal_field_idx as int;
            let text = a.modal_fields@[k]@;
            let pos = min_of(a.modal_cursor_pos as int, text.len() as int);
            &&& b == (App {
                modal_fields: b.modal_fields,
                modal_cursor_pos: (pos + 1) as usize,
                ..a
            })
            &&& with_field(a.modal_fields@, k, inserted(text, pos, seq![c]), b.modal_fields@)
        })
}

/// The effect of `App::modal_backspace`.
pub open spec fn backspace_done(a: App, b: App) -> bool {
    &&& (a.modal_field_idx >= a.modal_fields@.len() || a.modal_cursor_pos == 0
            ==> b == a)
    &&& (a.modal_field_idx < a.modal_fields@.len() && a.modal_cursor_pos > 0
            ==> {
            let k = a.modal_field_idx as int;
            let text = a.modal_fields@[k]@;
            let pos = a.modal_cursor_pos - 1;
            let at = if pos < text.len() {
                pos
            } else {
                0
            };
            &&& b == (App {
                modal_fields: b.modal_fields,
                modal_cursor_pos: pos as usize,
                ..a
            })
            &&& with_field(a.modal_fields@, k, text.remove(at), b.modal_fields@)
        })
}

/// The effect of `App::dismiss_modal`.
pub open spec fn modal_dismissed(a: App, b: App) -> bool {
    &&& (b == (App {
            modal: None,
            modal_fields: b.modal_fields,
            modal_field_idx: 0,
            modal_cursor_pos: 0,
            modal_body_scroll: 0,
            cancel_confirm_pending: false,
            modal_error: None,
            ..a
        }))
    &&& (b.modal_fields@.len() == 0)
}

/// The effect of `App::modal_paste`.
pub open spec fn paste_done(a: App, b: App, text: Seq<char>) -> bool {
    &&& (a.modal_field_idx >= a.modal_fields@.len() ==> b == a)
    &&& (a.modal_field_idx < a.modal_fields@.len() ==> {
            let k = a.modal_field_idx as int;
            let field = a.modal_fields@[k]@;
            let pos = min_of(a.modal_cursor_pos as int, field.len() as int);
            let ins = pasted_text(text);
            &&& b == (App {
                modal_fields: b.modal_fields,
                modal_cursor_pos: (pos + ins.len()) as usize,
                ..a
            })
            &&& with_field(a.modal_fields@, k, inserted(field, pos, ins), b.modal_fields@)
        })
}

/// The effect of `App::push_log_event`: a log entry goes to the front of
/// its list (which keeps at most `LOG_CAPACITY` entries), and the newest
/// entry is selected; a state change leaves the lists alone.
pub open spec fn log_pushed(a: App, b: App, ev: LogEvent) -> bool {
    &&& (match ev {
            LogEvent::Request(r) => b == (App {
                request_logs: b.request_logs,
                log_selected: 0,
                ..a
            }) && b.request_logs@ == pushed_front(a.request_logs@, r),
            LogEvent::System(l) => b == (App {
                system_logs: b.system_logs,
                log_selected: 0,
                ..a
            }) && b.system_logs@ == pushed_front(a.system_logs@, l),
            LogEvent::StateChanged { .. } => b == a,
        })
}


impl App {
    /// A fresh interface on the Ports tab with nothing loaded.
    pub fn new() -> (r: App)
        ensures
            r.active_tab == Tab::Ports,
            r.ports@.len() == 0,
            r.running_port_ids@.len() == 0,
            r.port_selected == 0,
            r.mocks@.len() == 0,
            r.mock_selected == 0,
            r.mock_port_filter is None,
            r.log_tab == LogTab::Request,
            r.request_logs@.len() == 0,
            r.system_logs@.len() == 0,
            r.log_selected == 0,
            !r.log_detail_open,
            r.log_detail_scroll == 0,
            r.modal is None,
            r.modal_fields@.len() == 0,
            r.modal_field_idx == 0,
            r.modal_cursor_pos == 0,
            r.modal_body_scroll == 0,
            !r.cancel_confirm_pending,
            r.confirm_message@.len() == 0,
            r.confirm_action is None,
            r.status_msg is None,
            r.modal_error is None,
            !r.show_fn_help,
            r.system_ip@.len() == 0,
    {
        App {
            active_tab: Tab::Ports,
            ports: Vec::new(),
            running_port_ids: Vec::new(),
            port_selected: 0,
            mocks: Vec::new(),
            mock_selected: 0,
            mock_port_filter: None,
            log_tab: LogTab::Request,
            request_logs: Vec::new(),
            system_logs: Vec::new(),
            log_selected: 0,
            log_detail_open: false,
            log_detail_scroll: 0,
            modal: None,
            modal_fields: Vec::new(),
            modal_field_idx: 0,
            modal_cursor_pos: 0,
            modal_body_scroll: 0,
            cancel_confirm_pending: false,
            confirm_message: String::new(),
            confirm_action: None,
            status_msg: None,
            modal_error: None,
            show_fn_help: false,
            system_ip: String::new(),
        }
    }

    /// Moves the port selection down one entry.
    pub fn port_list_nav_down(&mut self)
        ensures
            port_nav_down_done(*old(self), *final(self)),
    {
        self.port_selected = down_one(self.port_selected, self.ports.len());
    }

    /// Moves the port selection up one entry.
    pub fn port_list_nav_up(&mut self)
        ensures
            port_nav_up_done(*old(self), *final(self)),
    {
        self.port_selected = if self.port_selected > 0 {
            self.port_selected - 1
        } else {
            0
        };
    }

    /// The selected port, if the selection is within the list.
    pub fn selected_port(&self) -> (r: Option<&PortConfig>)
        ensures
            self.port_selected < self.ports@.len() ==> r == Some(&self.ports@[self.port_selected as int]),
            self.port_selected >= self.ports@.len() ==> r is None,
    {
        if self.port_selected < self.ports.len() {
            Some(&self.ports[self.port_selected])
        } else {
            None
        }
    }

    /// Moves the mock selection down one entry.
    pub fn mock_list_nav_down(&mut self)
        ensures
            mock_nav_down_done(*old(self), *final(self)),
    {
        self.mock_selected = down_one(self.mock_selected, self.mocks.len());
    }

    /// Moves the mock selection up one entry.
    pub fn mock_list_nav_up(&mut self)
        ensures
            mock_nav_up_done(*old(self), *final(self)),
    {
        self.mock_selected = if self.mock_selected > 0 {
            self.mock_selected - 1
        } else {
            0
        };
    }

    /// The selected mock, if the selection is within the list.
    pub fn selected_mock(&self) -> (r: Option<&MockApi>)
        ensures
            self.mock_selected < self.mocks@.len() ==> r == Some(&self.mocks@[self.mock_selected as int]),
            self.mock_selected >= self.mocks@.len() ==> r is None,
    {
        if self.mock_selected < self.mocks.len() {
            Some(&self.mocks[self.mock_selected])
        } else {
            None
        }
    }

    /// The number of entries of the log list on show.
    pub open spec fn shown_log_len(&self) -> int {
        match self.log_tab {
            LogTab::Request => self.request_logs@.len() as int,
            LogTab::System => self.system_logs@.len() as int,
        }
    }

    /// Moves the log selection down one entry of the log on show.
    pub fn log_nav_down(&mut self)
        ensures
            log_nav_down_done(*old(self), *final(self)),
    {
        let len = match self.log_tab {
            LogTab::Request => self.request_logs.len(),
            LogTab::System => self.system_logs.len(),
        };
        self.log_selected = down_one(self.log_selected, len);
    }

    /// Moves the log selection up one entry.
    pub fn log_nav_up(&mut self)
        ensures
            log_nav_up_done(*old(self), *final(self)),
    {
        self.log_selected = if self.log_selected > 0 {
            self.log_selected - 1
        } else {
            0
        };
    }

    /// Adds a log entry at the top of its list (the
    /// newest first, at most `LOG_CAPACITY` kept) and selects it: the list
    /// always follows the newest entry. Other events change nothing.
    pub fn push_log_event(&mut self, ev: LogEvent)
        ensures
            log_pushed(*old(self), *final(self), ev),
    {
        match ev {
            LogEvent::Request(r) => {
                let ghost g = r;
                let ghost before = self.request_logs@;
                self.request_logs.insert(0, r);
                if self.request_logs.len() > LOG_CAPACITY {
                    self.request_logs.truncate(LOG_CAPACITY);
                }
                assert(self.request_logs@ =~= pushed_front(before, g));
                self.log_selected = 0;
            },
            LogEvent::System(l) => {
                let ghost g = l;
                let ghost before = self.system_logs@;
                self.system_logs.insert(0, l);
                if self.system_logs.len() > LOG_CAPACITY {
                    self.system_logs.truncate(LOG_CAPACITY);
                }
                assert(self.system_logs@ =~= pushed_front(before, g));
                self.log_selected = 0;
            },
            LogEvent::StateChanged { .. } => {},
        }
    }
}


// ---------------------------------------------------------------------------
// Choice fields of the mock form
// ---------------------------------------------------------------------------

/// The methods the mock form's method field cycles through.
pub open spec fn method_choices() -> Seq<Seq<char>> {
    seq!["GET"@, "POST"@, "PUT"@, "DELETE"@]
}

/// The body sources the mock form's body-source field cycles through.
pub open spec fn source_choices() -> Seq<Seq<char>> {
    seq!["Inline"@, "File"@]
}

pub open spec fn texts_of(v: Seq<&'static str>) -> Seq<Seq<char>> {
    v.map_values(|t: &'static str| t@)
}

fn method_choice_list() -> (r: Vec<&'static str>)
    ensures
        texts_of(r@) == method_choices(),
{
    let r = vec!["GET", "POST", "PUT", "DELETE"];
    assert(texts_of(r@) =~= method_choices());
    r
}

fn source_choice_list() -> (r: Vec<&'static str>)
    ensures
        texts_of(r@) == source_choices(),
{
    let r = vec!["Inline", "File"];
    assert(texts_of(r@) =~= source_choices());
    r
}

/// The position of the first entry equal to `x`, or 0 when there is none.
pub open spec fn choice_pos(list: Seq<Seq<char>>, x: Seq<char>) -> int {
    if exists|i: int| 0 <= i < list.len() && list[i] == x {
        choose|i: int| 0 <= i < list.len() && list[i] == x && forall|j: int| 0 <= j < i ==> list[j] != x
    } else {
        0
    }
}

/// The position one step forward or back from `pos` among `n` entries,
/// wrapping around at either end.
pub open spec fn cycle_index(pos: int, n: int, forward: bool) -> int {
    if forward {
        if pos + 1 < n {
            pos + 1
        } else {
            0
        }
    } else {
        if pos > 0 {
            pos - 1
        } else {
            n - 1
        }
    }
}

fn cycle_step(pos: usize, n: usize, forward: bool) -> (r: usize)
    requires
        pos < n,
    ensures
        r as int == cycle_index(pos as int, n as int, forward),
        r < n,
{
    if forward {
        if pos < n - 1 {
            pos + 1
        } else {
            0
        }
    } else {
        if pos > 0 {
            pos - 1
        } else {
            n - 1
        }
    }
}

fn choice_position(list: &Vec<&'static str>, x: &str) -> (r: usize)
    ensures
        r as int == choice_pos(texts_of(list@), x@),
        list.len() > 0 ==> r < list.len(),
{
    let ghost tl = texts_of(list@);
    let mut i: usize = 0;
    while i < list.len()
        invariant
            tl == texts_of(list@),
            i <= list.len(),
            forall|j: int| 0 <= j < i ==> tl[j] != x@,
        decreases list.len() - i,
    {
        if str_eq(list[i], x) {
            proof {
                let w = choose|w: int| 0 <= w < tl.len() && tl[w] == x@ && forall|j: int|
                    0 <= j < w ==> tl[j] != x@;
                assert(0 <= w < tl.len() && tl[w] == x@ && forall|j: int| 0 <= j < w ==> tl[j] != x@)
                    by {
                    assert(tl[i as int] == x@);
                }
                if w < i {
                } else if w > i {
                    assert(tl[i as int] == x@);
                }
            }
            return i;
        }
        i = i + 1;
    }
    0
}

/// The form's fields with field `k` (when it exists) set to `text`.
pub open spec fn with_field(fields: Seq<String>, k: int, text: Seq<char>, out: Seq<String>) -> bool {
    &&& out.len() == fields.len()
    &&& forall|j: int| 0 <= j < fields.len() && j != k ==> out[j] == fields[j]
    &&& 0 <= k < fields.len() ==> out[k]@ == text
}

/// The id the form's port field holds (0 when it holds no number).
pub open spec fn form_port_id(fields: Seq<String>) -> int {
    if fields.len() > 0 {
        match parse_int(fields[0]@, i64::MIN as int, i64::MAX as int) {
            Some(n) => n,
            None => 0,
        }
    } else {
        0
    }
}

/// The position of the first port with id `id`, or 0 when there is none.
pub open spec fn port_pos(ports: Seq<PortConfig>, id: int) -> int {
    if exists|i: int| 0 <= i < ports.len() && ports[i].id == id {
        choose|i: int| 0 <= i < ports.len() && ports[i].id == id && forall|j: int| 0 <= j < i ==> ports[j].id != id
    } else {
        0
    }
}

fn port_position(ports: &Vec<PortConfig>, id: i64) -> (r: usize)
    ensures
        r as int == port_pos(ports@, id as int),
        ports.len() > 0 ==> r < ports.len(),
{
    let ghost ps = ports@;
    let mut i: usize = 0;
    while i < ports.len()
        invariant
            ps == ports@,
            i <= ps.len(),
            forall|j: int| 0 <= j < i ==> ps[j].id != id,
        decreases ps.len() - i,
    {
        if ports[i].id == id {
            proof {
                let w = choose|w: int| 0 <= w < ps.len() && ps[w].id == id && forall|j: int|
                    0 <= j < w ==> ps[j].id != id;
                assert(0 <= w < ps.len() && ps[w].id == id && forall|j: int| 0 <= j < w ==> ps[j].id != id)
                    by {
                    assert(ps[i as int].id == id);
                }
                if w < i {
                } else if w > i {
                    assert(ps[i as int].id == id);
                }
            }
            return i;
        }
        i = i + 1;
    }
    0
}

// ---------------------------------------------------------------------------
// Form operations

// ---------------------------------------------------------------------------

impl App {
    /// Moves the mock form's port field to the next (or previous) port of
    /// the list, wrapping around; nothing happens when there are no ports.
    pub fn cycle_port_field(&mut self, forward: bool)
        ensures
            port_field_cycled(*old(self), *final(self), forward),
    {
        if self.ports.len() == 0 {
            return;
        }
        let current_id: i64 = if self.modal_fields.len() > 0 {
            let t = chars_of(self.modal_fields[0].as_str());
            match parse_i64(&t) {
                Some(n) => n,
                None => 0,
            }
        } else {
            0
        };
        let pos = port_position(&self.ports, current_id);
        let next = cycle_step(pos, self.ports.len(), forward);
        let text = i64_string(self.ports[next].id);
        if self.modal_fields.len() > 0 {
            self.modal_fields.set(0, text);
        }
    }
}


/// The texts of the form's fields.
pub open spec fn field_texts(fields: Seq<String>) -> Seq<Seq<char>> {
    fields.map_values(|f: String| f@)
}

/// The text of the pagination switch.
pub open spec fn switch_text(on: bool) -> Seq<char> {
    if on {
        "On"@
    } else {
        "Off"@
    }
}

/// The fields of the mock form filled from a mock.
pub open spec fn mock_form(m: MockApi) -> Seq<Seq<char>> {
    seq![
        decimal_int(m.port_id as int),
        method_name(m.method),
        m.path@,
        m.name@,
        m.description@,
        names_text(pair_views(m.request_params@)),
        decimal(m.response_status as nat),
        decimal(m.response_delay_ms as nat),
        headers_text(pair_views(m.response_headers@)),
        decoded_body(m.response_body@).0,
        decoded_body(m.response_body@).1,
        switch_text(m.pagination_enabled),
        m.pagination_page_param@,
        m.pagination_size_param@,
        m.pagination_data_field@,
        m.pagination_total_field@,
    ]
}

/// The fields of a new mock's form: the first port (if any), `GET`, `/`,
/// no name, description or request params, status 200, no delay, no
/// headers, an inline body, and pagination off with its settings left
/// empty (empty settings take their defaults).
pub open spec fn new_mock_form(ports: Seq<PortConfig>) -> Seq<Seq<char>> {
    seq![
        if ports.len() > 0 {
            decimal_int(ports[0].id as int)
        } else {
            seq![]
        },
        "GET"@,
        "/"@,
        seq![],
        seq![],
        seq![],
        "200"@,
        "0"@,
        seq![],
        "Inline"@,
        seq![],
        "Off"@,
        seq![],
        seq![],
        seq![],
        seq![],
    ]
}

impl App {
    /// Moves the mock form's method field to the next (or previous) choice.
    pub fn cycle_method_field(&mut self, forward: bool)
        ensures
            method_field_cycled(*old(self), *final(self), forward),
    {
        if self.modal_fields.len() > METHOD_FIELD_IDX {
            let list = method_choice_list();
            let pos = choice_position(&list, self.modal_fields[METHOD_FIELD_IDX].as_str());
            let next = cycle_step(pos, list.len(), forward);
            let text = list[next].to_owned();
            assert(text@ == texts_of(list@)[next as int]);
            self.modal_fields.set(METHOD_FIELD_IDX, text);
        }
    }

    /// Moves the mock form's body-source field to the other choice.
    pub fn cycle_body_source_field(&mut self, forward: bool)
        ensures
            source_field_cycled(*old(self), *final(self), forward),
    {
        if self.modal_fields.len() > BODY_SOURCE_FIELD_IDX {
            let list = source_choice_list();
            let pos = choice_position(&list, self.modal_fields[BODY_SOURCE_FIELD_IDX].as_str());
            let next = cycle_step(pos, list.len(), forward);
            let text = list[next].to_owned();
            assert(text@ == texts_of(list@)[next as int]);
            self.modal_fields.set(BODY_SOURCE_FIELD_IDX, text);
        }
    }

    /// Flips the mock form's pagination switch between "On" and "Off".
    pub fn toggle_pagination_field(&mut self)
        ensures
            switch_field_cycled(*old(self), *final(self)),
    {
        if self.modal_fields.len() > PAGINATION_ENABLED_FIELD_IDX {
            proof {
                reveal_strlit("On");
                reveal_strlit("Off");
            }
            let on = str_eq(self.modal_fields[PAGINATION_ENABLED_FIELD_IDX].as_str(), "On");
            let text = if on {
                "Off".to_string()
            } else {
                "On".to_string()
            };
            self.modal_fields.set(PAGINATION_ENABLED_FIELD_IDX, text);
        }
    }

    /// Starts another entry in a list field (see `entry_added`).
    pub fn add_list_entry(&mut self)
        requires
            old(self).modal_field_idx < old(self).modal_fields@.len() ==> old(self).modal_fields@[old(
                self,
            ).modal_field_idx as int]@.len() + 3 <= usize::MAX,
        ensures
            entry_added(*old(self), *final(self)),
    {
        let idx = self.modal_field_idx;
        if idx < self.modal_fields.len() {
            let mut t = chars_of(self.modal_fields[idx].as_str());
            let n = t.len();
            if n > 0 {
                proof {
                    reveal_strlit(" | ");
                }
                let ghost before = t@;
                push_str_chars(&mut t, " | ");
                assert(t@ =~= before + " | "@);
                let text = string_of(t.as_slice());
                self.modal_fields.set(idx, text);
                self.modal_cursor_pos = n + 3;
            }
        }
    }

    /// Opens the new-port form: empty port and label fields.
    pub fn open_port_create(&mut self)
        ensures
            port_create_opened(*old(self), *final(self)),
    {
        self.modal = Some(ModalKind::PortCreate);
        self.modal_fields = vec![String::new(), String::new()];
        self.modal_field_idx = 0;
        self.modal_cursor_pos = 0;
        self.status_msg = None;
        assert(field_texts(self.modal_fields@) =~= seq![Seq::<char>::empty(), Seq::<char>::empty()]);
    }

    /// Opens the edit form of the selected port (its number and label, the
    /// cursor after the number); nothing happens without a selection.
    pub fn open_port_edit(&mut self)
        ensures
            port_edit_opened(*old(self), *final(self)),
    {
        if self.port_selected < self.ports.len() {
            let port_text = u64_string(self.ports[self.port_selected].port as u64);
            let label = self.ports[self.port_selected].label.clone();
            let count = chars_of(port_text.as_str()).len();
            self.modal = Some(ModalKind::PortEdit);
            self.modal_fields = vec![port_text, label];
            self.modal_field_idx = 0;
            self.modal_cursor_pos = count;
            assert(field_texts(self.modal_fields@) =~= seq![
                decimal(self.ports@[self.port_selected as int].port as nat),
                self.ports@[self.port_selected as int].label@,
            ]);
        }
    }

    /// Opens the new-mock form with its defaults (see `new_mock_form`).
    pub fn open_mock_create(&mut self)
        ensures
            mock_create_opened(*old(self), *final(self)),
    {
        let port_id = if self.ports.len() > 0 {
            i64_string(self.ports[0].id)
        } else {
            String::new()
        };
        self.modal = Some(ModalKind::MockCreate);
        self.modal_fields = vec![
            port_id,
            "GET".to_owned(),
            "/".to_owned(),
            String::new(),
            String::new(),
            String::new(),
            "200".to_owned(),
            "0".to_owned(),
            String::new(),
            "Inline".to_owned(),
            String::new(),
            "Off".to_owned(),
            String::new(),
            String::new(),
            String::new(),
            String::new(),
        ];
        self.modal_field_idx = 0;
        self.modal_cursor_pos = 0;
        self.modal_body_scroll = 0;
        assert(field_texts(self.modal_fields@) =~= new_mock_form(self.ports@));
    }

    /// Opens the edit form of the selected mock, filled from it (see
    /// `mock_form`), the cursor after the port field; nothing happens
    /// without a selection.
    pub fn open_mock_edit(&mut self)
        ensures
            mock_edit_opened(*old(self), *final(self)),
    {
        if self.mock_selected < self.mocks.len() {
            let m = &self.mocks[self.mock_selected];
            let (source, body) = decode_body_field(m.response_body.as_str());
            let switch = if m.pagination_enabled {
                "On".to_owned()
            } else {
                "Off".to_owned()
            };
            let fields = vec![
                i64_string(m.port_id),
                m.method.to_text(),
                m.path.clone(),
                m.name.clone(),
                m.description.clone(),
                format_params(&m.request_params),
                u64_string(m.response_status as u64),
                u64_string(m.response_delay_ms),
                format_headers(&m.response_headers),
                source,
                body,
                switch,
                m.pagination_page_param.clone(),
                m.pagination_size_param.clone(),
                m.pagination_data_field.clone(),
                m.pagination_total_field.clone(),
            ];
            let count = chars_of(fields[0].as_str()).len();
            assert(field_texts(fields@) =~= mock_form(*m));
            self.modal = Some(ModalKind::MockEdit);
            self.modal_fields = fields;
            self.modal_field_idx = 0;
            self.modal_cursor_pos = count;
            self.modal_body_scroll = 0;
        }
    }

    /// Moves to the next field (wrapping), the cursor at its end.
    pub fn modal_field_next(&mut self)
        ensures
            field_next_done(*old(self), *final(self)),
    {
        let len = self.modal_fields.len();
        if len > 0 {
            let idx = self.shown_step(true);
            self.modal_field_idx = idx;
            self.modal_cursor_pos = chars_of(self.modal_fields[idx].as_str()).len();
        }
    }

    /// Whether field `k` is shown (see `field_shown`).
    pub fn is_field_shown(&self, k: usize) -> (r: bool)
        ensures
            r == field_shown(*self, k as int),
    {
        let mock = self.modal == Some(ModalKind::MockCreate) || self.modal == Some(ModalKind::MockEdit);
        if !mock {
            return true;
        }
        proof {
            reveal_strlit("PUT");
            reveal_strlit("DELETE");
            reveal_strlit("On");
        }
        if k == REQUEST_PARAMS_FIELD_IDX {
            let m = field_chars(&self.modal_fields, METHOD_FIELD_IDX);
            !(eq_str(&m, "PUT") || eq_str(&m, "DELETE"))
        } else if PAGINATION_PAGE_PARAM_FIELD_IDX <= k && k <= PAGINATION_TOTAL_FIELD_IDX {
            let sw = field_chars(&self.modal_fields, PAGINATION_ENABLED_FIELD_IDX);
            eq_str(&sw, "On")
        } else {
            true
        }
    }

    /// The next (or previous) shown field from the focused one.
    fn shown_step(&self, forward: bool) -> (r: usize)
        requires
            self.modal_fields@.len() > 0,
        ensures
            r < self.modal_fields@.len(),
            forward ==> r as int == next_shown(*self, self.modal_field_idx as int, self.modal_fields@.len()),
            !forward ==> r as int == prev_shown(*self, self.modal_field_idx as int, self.modal_fields@.len()),
    {
        let len = self.modal_fields.len();
        let mut cur = self.modal_field_idx;
        let mut st = len;
        loop
            invariant
                len == self.modal_fields@.len(),
                len > 0,
                1 <= st <= len,
                forward ==> next_shown(*self, self.modal_field_idx as int, len as nat) == next_shown(
                    *self,
                    cur as int,
                    st as nat,
                ),
                !forward ==> prev_shown(*self, self.modal_field_idx as int, len as nat) == prev_shown(
                    *self,
                    cur as int,
                    st as nat,
                ),
            decreases st,
        {
            let j = if forward {
                ((cur as u128 + 1) % (len as u128)) as usize
            } else {
                ((cur as u128 + len as u128 - 1) % (len as u128)) as usize
            };
            if st <= 1 || self.is_field_shown(j) {
                return j;
            }
            cur = j;
            st = st - 1;
        }
    }

    /// Moves to the previous field (wrapping), the cursor at its end.
    pub fn modal_field_prev(&mut self)
        ensures
            field_prev_done(*old(self), *final(self)),
    {
        let len = self.modal_fields.len();
        if len > 0 {
            let idx = self.shown_step(false);
            self.modal_field_idx = idx;
            self.modal_cursor_pos = chars_of(self.modal_fields[idx].as_str()).len();
        }
    }

    /// Moves the cursor one character left (it stops at 0).
    pub fn modal_cursor_left(&mut self)
        ensures
            cursor_left_done(*old(self), *final(self)),
    {
        self.modal_cursor_pos = if self.modal_cursor_pos > 0 {
            self.modal_cursor_pos - 1
        } else {
            0
        };
    }

    /// Moves the cursor one character right (it stops at the field's end).
    pub fn modal_cursor_right(&mut self)
        ensures
            cursor_right_done(*old(self), *final(self)),
    {
        if self.modal_field_idx < self.modal_fields.len() {
            let count = chars_of(self.modal_fields[self.modal_field_idx].as_str()).len();
            self.modal_cursor_pos = if self.modal_cursor_pos < count {
                self.modal_cursor_pos + 1
            } else {
                count
            };
        }
    }

    /// Closes the dialog and forgets its fields, error and pending cancel.
    pub fn dismiss_modal(&mut self)
        ensures
            modal_dismissed(*old(self), *final(self)),
    {
        self.modal = None;
        self.modal_fields.clear();
        self.modal_field_idx = 0;
        self.modal_cursor_pos = 0;
        self.modal_body_scroll = 0;
        self.cancel_confirm_pending = false;
        self.modal_error = None;
    }
}


// ---------------------------------------------------------------------------
// Text editing in the form
// ---------------------------------------------------------------------------

/// `text` with `ins` inserted before its character `pos`.
pub open spec fn inserted(text: Seq<char>, pos: int, ins: Seq<char>) -> Seq<char> {
    text.take(pos) + ins + text.skip(pos)
}

/// The smaller of two numbers.
pub open spec fn min_of(a: int, b: int) -> int {
    if a < b {
        a
    } else {
        b
    }
}

/// What pasting `text` inserts: the trimmed text, written compactly when it
/// is a JSON document starting with `{` or `[`, else with each run of
/// whitespace collapsed to one space.
pub open spec fn pasted_text(text: Seq<char>) -> Seq<char> {
    let t = trim(text);
    if t.len() > 0 && (t[0] == '{' || t[0] == '[') {
        match parse_json(t) {
            Some(j) => text_of(j),
            None => join_spaced(words(t)),
        }
    } else {
        join_spaced(words(t))
    }
}

fn insert_chars(field: &String, pos: usize, ins: &Vec<char>) -> (r: String)
    requires
        pos <= field@.len(),
    ensures
        r@ == inserted(field@, pos as int, ins@),
{
    let f = chars_of(field.as_str());
    let mut out = slice_chars(&f, 0, pos);
    push_all(&mut out, ins);
    let rest = slice_chars(&f, pos, f.len());
    push_all(&mut out, &rest);
    assert(out@ =~= inserted(field@, pos as int, ins@));
    string_of(out.as_slice())
}

impl App {
    /// Types `c` at the cursor (the cursor taken no further than the field's
    /// end) and moves the cursor after it.
    pub fn modal_type_char(&mut self, c: char)
        requires
            old(self).modal_field_idx < old(self).modal_fields@.len() ==> old(self).modal_fields@[old(
                self,
            ).modal_field_idx as int]@.len() < usize::MAX,
        ensures
            char_typed(*old(self), *final(self), c),
    {
        let k = self.modal_field_idx;
        if k < self.modal_fields.len() {
            let count = chars_of(self.modal_fields[k].as_str()).len();
            let pos = if self.modal_cursor_pos < count {
                self.modal_cursor_pos
            } else {
                count
            };
            let ins = vec![c];
            assert(ins@ =~= seq![c]);
            let t = insert_chars(&self.modal_fields[k], pos, &ins);
            self.modal_fields.set(k, t);
            self.modal_cursor_pos = pos + 1;
        }
    }

    /// Deletes the character before the cursor and moves the cursor back;
    /// with the cursor past the field's end the first character goes.
    pub fn modal_backspace(&mut self)
        requires
            old(self).modal_field_idx < old(self).modal_fields@.len() && old(self).modal_cursor_pos > 0
                ==> old(self).modal_fields@[old(self).modal_field_idx as int]@.len() > 0,
        ensures
            backspace_done(*old(self), *final(self)),
    {
        let k = self.modal_field_idx;
        if k < self.modal_fields.len() && self.modal_cursor_pos > 0 {
            let pos = self.modal_cursor_pos - 1;
            let f = chars_of(self.modal_fields[k].as_str());
            let at = if pos < f.len() {
                pos
            } else {
                0
            };
            let mut out = slice_chars(&f, 0, at);
            let rest = slice_chars(&f, at + 1, f.len());
            push_all(&mut out, &rest);
            assert(out@ =~= f@.remove(at as int));
            self.modal_fields.set(k, string_of(out.as_slice()));
            self.modal_cursor_pos = pos;
        }
    }

    /// Pastes text at the cursor (see `pasted_text`) and moves the cursor
    /// after it.
    pub fn modal_paste(&mut self, text: &str)
        requires
            old(self).modal_field_idx < old(self).modal_fields@.len() ==> old(self).modal_fields@[old(
                self,
            ).modal_field_idx as int]@.len() + pasted_text(text@).len() <= usize::MAX,
        ensures
            paste_done(*old(self), *final(self), text@),
    {
        let cleaned = chars_of(clean_paste(text).as_str());
        let k = self.modal_field_idx;
        if k < self.modal_fields.len() {
            let count = chars_of(self.modal_fields[k].as_str()).len();
            let pos = if self.modal_cursor_pos < count {
                self.modal_cursor_pos
            } else {
                count
            };
            let f = insert_chars(&self.modal_fields[k], pos, &cleaned);
            self.modal_fields.set(k, f);
            self.modal_cursor_pos = pos + cleaned.len();
        }
    }
}


// ---------------------------------------------------------------------------
// Header autocompletion
// ---------------------------------------------------------------------------

/// The headers the header field offers to complete.
pub open spec fn common_headers() -> Seq<Seq<char>> {
    seq![
        "Content-Type: application/json"@,
        "Content-Type: text/plain"@,
        "Content-Type: text/html; charset=utf-8"@,
        "Content-Type: application/xml"@,
        "Cache-Control: no-cache"@,
        "Cache-Control: no-store, max-age=0"@,
        "Access-Control-Allow-Origin: *"@,
    ]
}

fn common_header_list() -> (r: Vec<&'static str>)
    ensures
        texts_of(r@) == common_headers(),
        r.len() == 7,
{
    let r = vec![
        "Content-Type: application/json",
        "Content-Type: text/plain",
        "Content-Type: text/html; charset=utf-8",
        "Content-Type: application/xml",
        "Cache-Control: no-cache",
        "Cache-Control: no-store, max-age=0",
        "Access-Control-Allow-Origin: *",
    ];
    assert(texts_of(r@) =~= common_headers());
    r
}

/// The header being typed: the header field's text after its last ` | `.
pub open spec fn typed_header(current: Seq<char>) -> Seq<char> {
    match last_occurrence(current, " | "@) {
        Some(p) => current.skip(p + 3),
        None => current,
    }
}

/// Whether common header `i` completes `typed`, ignoring case.
pub open spec fn completes(i: int, typed: Seq<char>) -> bool {
    starts_with(lower_text(common_headers()[i]), lower_text(typed))
}

/// The common header offered for the header field's text: the first one
/// that completes the header being typed, when that is not empty.
pub open spec fn suggestion_for(current: Seq<char>) -> Option<int> {
    let typed = typed_header(current);
    if typed.len() == 0 {
        None
    } else {
        first_completion(typed)
    }
}

/// The header field after accepting `sug`: it replaces the header being typed.
pub open spec fn accepted_text(current: Seq<char>, sug: Seq<char>) -> Seq<char> {
    match last_occurrence(current, " | "@) {
        Some(p) => current.take(p + 3) + sug,
        None => sug,
    }
}

fn separator_position(v: &Vec<char>) -> (r: Option<usize>)
    ensures
        match r {
            Some(q) => last_occurrence(v@, " | "@) == Some(q as int) && q + 3 <= v@.len(),
            None => last_occurrence(v@, " | "@) is None,
        },
{
    let sep = chars_of(" | ");
    proof {
        reveal_strlit(" | ");
    }
    let r = rfind_chars(v, &sep);
    proof {
        if r is None {
            assert(!(exists|i: int| occurs_at(v@, i, sep@)));
        }
    }
    r
}

fn typed_part(current: &Vec<char>) -> (r: Vec<char>)
    ensures
        r@ == typed_header(current@),
{
    let n = current.len();
    match separator_position(current) {
        Some(p) => {
            let t = slice_chars(current, p + 3, n);
            assert(t@ =~= current@.skip(p + 3));
            t
        },
        None => slice_chars(current, 0, current.len()),
    }
}

fn accepted_chars(current: &Vec<char>, sug: &Vec<char>) -> (r: Vec<char>)
    ensures
        r@ == accepted_text(current@, sug@),
{
    let n = current.len();
    match separator_position(current) {
        Some(p) => {
            let mut t = slice_chars(current, 0, p + 3);
            push_all(&mut t, sug);
            assert(t@ =~= current@.take(p + 3) + sug@);
            t
        },
        None => slice_chars(sug, 0, sug.len()),
    }
}

/// The first common header that completes `typed`.
pub open spec fn first_completion(typed: Seq<char>) -> Option<int> {
    if exists|i: int| 0 <= i < 7 && completes(i, typed) {
        Some(choose|i: int| 0 <= i < 7 && completes(i, typed) && forall|j: int| 0 <= j < i ==> !completes(j, typed))
    } else {
        None
    }
}

fn find_completion(typed: &Vec<char>) -> (r: Option<usize>)
    ensures
        match first_completion(typed@) {
            Some(i) => r == Some(i as usize),
            None => r is None,
        },
        r matches Some(i) ==> i < 7,
{
    let typed_lower = chars_of(to_lower(string_of(typed.as_slice()).as_str()).as_str());
    let list = common_header_list();
    let ghost tl = texts_of(list@);
    let ghost ty = typed@;
    let mut i: usize = 0;
    while i < list.len()
        invariant
            tl == texts_of(list@),
            tl == common_headers(),
            list.len() == 7,
            ty == typed@,
            typed_lower@ == lower_text(ty),
            i <= list.len(),
            forall|j: int| 0 <= j < i ==> !completes(j, ty),
        decreases list.len() - i,
    {
        let h = chars_of(to_lower(list[i]).as_str());
        assert(tl[i as int] == list@[i as int]@);
        if starts_with_chars(&h, &typed_lower) {
            proof {
                assert(completes(i as int, ty));
                assert(exists|k: int| 0 <= k < 7 && completes(k, ty));
                let w = choose|w: int| 0 <= w < 7 && completes(w, ty) && forall|j: int|
                    0 <= j < w ==> !completes(j, ty);
                assert(0 <= w < 7 && completes(w, ty) && forall|j: int| 0 <= j < w ==> !completes(j, ty))
                    by {
                    assert(0 <= i < 7 && completes(i as int, ty) && forall|j: int|
                        0 <= j < i ==> !completes(j, ty));
                }
                if w < i {
                    assert(!completes(w, ty));
                } else if w > i {
                    assert(!completes(i as int, ty));
                }
                assert(first_completion(ty) == Some(i as int));
            }
            return Some(i);
        }
        i = i + 1;
    }
    None
}

fn common_header(i: usize) -> (r: &'static str)
    requires
        i < 7,
    ensures
        r@ == common_headers()[i as int],
{
    let list = common_header_list();
    let r = list[i];
    assert(r@ == texts_of(list@)[i as int]);
    r
}

impl App {
    /// The common header offered to complete the header field (see
    /// `suggestion_for`), if any.
    pub fn header_autocomplete_suggestion(&self) -> (r: Option<&'static str>)
        ensures
            self.modal_fields@.len() <= HEADER_FIELD_IDX ==> r is None,
            self.modal_fields@.len() > HEADER_FIELD_IDX ==> match suggestion_for(
                self.modal_fields@[HEADER_FIELD_IDX as int]@,
            ) {
                Some(i) => r matches Some(h) && h@ == common_headers()[i],
                None => r is None,
            },
    {
        if self.modal_fields.len() <= HEADER_FIELD_IDX {
            return None;
        }
        let current = chars_of(self.modal_fields[HEADER_FIELD_IDX].as_str());
        let typed = typed_part(&current);
        if typed.len() == 0 {
            return None;
        }
        match find_completion(&typed) {
            Some(i) => Some(common_header(i)),
            None => None,
        }
    }

    /// Replaces the header being typed with the offered common header.
    pub fn accept_header_autocomplete(&mut self)
        ensures
            header_offer_accepted(*old(self), *final(self)),
    {
        match self.header_autocomplete_suggestion() {
            Some(sug) => {
                let current = chars_of(self.modal_fields[HEADER_FIELD_IDX].as_str());
                let sv = chars_of(sug);
                let next = accepted_chars(&current, &sv);
                self.modal_fields.set(HEADER_FIELD_IDX, string_of(next.as_slice()));
            },
            None => {},
        }
    }
}

/// What accepting the offered header does: with an offer, the header field
/// becomes `accepted_text` of its text and the offer; without one, nothing.
pub open spec fn header_offer_accepted(before: App, after: App) -> bool {
    let offer = if before.modal_fields@.len() > HEADER_FIELD_IDX {
        suggestion_for(before.modal_fields@[HEADER_FIELD_IDX as int]@)
    } else {
        None
    };
    match offer {
        Some(i) => {
            &&& after == (App { modal_fields: after.modal_fields, ..before })
            &&& with_field(
                before.modal_fields@,
                HEADER_FIELD_IDX as int,
                accepted_text(before.modal_fields@[HEADER_FIELD_IDX as int]@, common_headers()[i]),
                after.modal_fields@,
            )
        },
        None => after == before,
    }
}


// ---------------------------------------------------------------------------
// Validating and submitting the forms
// ---------------------------------------------------------------------------

/// The text of field `k`, or empty when the form has no such field.
pub open spec fn field_or_empty(fields: Seq<String>, k: int) -> Seq<char> {
    if 0 <= k < fields.len() {
        fields[k]@
    } else {
        seq![]
    }
}

/// What is wrong with the port form, if anything: the port number must be
/// given and be a number from 1 to 65535.
pub open spec fn port_form_error(fields: Seq<String>) -> Option<Seq<char>> {
    let port = field_or_empty(fields, 0);
    if port.len() == 0 {
        Some("Port number is required"@)
    } else if (match parse_nat(port, u16::MAX as int) {
        Some(p) => p == 0,
        None => true,
    }) {
        Some("Port number must be a valid number (1–65535)"@)
    } else {
        None
    }
}

/// What is wrong with the mock form, if anything: it needs a path and a
/// name, and a file path when the body source is `File`.
pub open spec fn mock_form_error(fields: Seq<String>) -> Option<Seq<char>> {
    let source = if BODY_SOURCE_FIELD_IDX < fields.len() {
        fields[BODY_SOURCE_FIELD_IDX as int]@
    } else {
        "Inline"@
    };
    if field_or_empty(fields, PATH_FIELD_IDX as int).len() == 0 {
        Some("Path is required"@)
    } else if field_or_empty(fields, 3).len() == 0 {
        Some("Name is required"@)
    } else if source == "File"@ && field_or_empty(fields, BODY_FIELD_IDX as int).len() == 0 {
        Some("File path is required when Body Source is File"@)
    } else {
        None
    }
}

fn field_chars(fields: &Vec<String>, k: usize) -> (r: Vec<char>)
    ensures
        r@ == field_or_empty(fields@, k as int),
{
    if k < fields.len() {
        chars_of(fields[k].as_str())
    } else {
        Vec::new()
    }
}

/// A number field read as an unsigned value up to `max`, or `default`.
pub open spec fn number_or(t: Seq<char>, max: int, default: int) -> int {
    match parse_nat(t, max) {
        Some(n) => n as int,
        None => default,
    }
}

/// A setting's text, or `default` when it is left empty.
pub open spec fn setting_or(t: Seq<char>, default: Seq<char>) -> Seq<char> {
    if t.len() == 0 {
        default
    } else {
        t
    }
}

/// The new mock a filled-in mock form describes; the page size, which the
/// form does not set, is 10.
pub open spec fn created_from(fields: Seq<String>, req: CreateMockRequest) -> bool {
    &&& parse_int(fields[0]@, i64::MIN as int, i64::MAX as int) == Some(req.port_id as int)
    &&& req.method == handled_method(fields[1]@)
    &&& req.path@ == fields[2]@
    &&& req.name@ == fields[3]@
    &&& req.description@ == fields[4]@
    &&& pair_views(req.request_params@) == param_pairs(fields[5]@)
    &&& req.request_schema is None
    &&& req.response_status as int == number_or(fields[6]@, u16::MAX as int, 200)
    &&& req.response_delay_ms as int == number_or(fields[7]@, u64::MAX as int, 0)
    &&& pair_views(req.response_headers@) == headers_of(fields[8]@)
    &&& req.response_body@ == encoded_body(fields[9]@, fields[10]@)
    &&& req.pagination_enabled == (fields[11]@ == "On"@)
    &&& req.pagination_page_size == 10
    &&& req.pagination_page_param@ == setting_or(fields[12]@, "page"@)
    &&& req.pagination_size_param@ == setting_or(fields[13]@, "pageSize"@)
    &&& req.pagination_data_field@ == fields[14]@
    &&& req.pagination_total_field@ == fields[15]@
}

/// The text of field `k`, if the form has it.
pub open spec fn field_if_any(fields: Seq<String>, k: int) -> Option<Seq<char>> {
    if 0 <= k < fields.len() {
        Some(fields[k]@)
    } else {
        None
    }
}

pub open spec fn text_opt(o: Option<String>) -> Option<Seq<char>> {
    match o {
        Some(s) => Some(s@),
        None => None,
    }
}

/// A number field read as an unsigned value up to `max`, if it is one.
pub open spec fn number_if(fields: Seq<String>, k: int, max: int) -> Option<int> {
    if 0 <= k < fields.len() {
        match parse_nat(fields[k]@, max) {
            Some(n) => Some(n as int),
            None => None,
        }
    } else {
        None
    }
}

/// The changes a mock edit form describes: every field the form has, the
/// method and numbers only when they read as such.
pub open spec fn updated_from(fields: Seq<String>, r: UpdateMockRequest) -> bool {
    &&& r.method == (if fields.len() > 1 {
        match parse_method_spec(fields[1]@) {
            Ok(m) => Some(m),
            Err(_) => None,
        }
    } else {
        None
    })
    &&& (fields.len() > 1 ==> forall|m: HttpMethod| fields[1]@ == method_name(m) ==> r.method == Some(m))
    &&& text_opt(r.path) == field_if_any(fields, 2)
    &&& text_opt(r.name) == field_if_any(fields, 3)
    &&& text_opt(r.description) == field_if_any(fields, 4)
    &&& (match r.request_params {
        Some(p) => fields.len() > 5 && pair_views(p@) == param_pairs(fields[5]@),
        None => fields.len() <= 5,
    })
    &&& (match r.response_status {
        Some(v) => number_if(fields, 6, u16::MAX as int) == Some(v as int),
        None => number_if(fields, 6, u16::MAX as int) is None,
    })
    &&& (match r.response_delay_ms {
        Some(v) => number_if(fields, 7, u64::MAX as int) == Some(v as int),
        None => number_if(fields, 7, u64::MAX as int) is None,
    })
    &&& (match r.response_headers {
        Some(h) => fields.len() > 8 && pair_views(h@) == headers_of(fields[8]@),
        None => fields.len() <= 8,
    })
    &&& (match r.response_body {
        Some(b) => fields.len() > 10 && b@ == encoded_body(fields[9]@, fields[10]@),
        None => fields.len() <= 10,
    })
    &&& r.pagination_enabled == (if fields.len() > 11 {
        Some(fields[11]@ == "On"@)
    } else {
        None
    })
    &&& text_opt(r.pagination_page_param) == (if fields.len() > 12 {
        Some(setting_or(fields[12]@, "page"@))
    } else {
        None
    })
    &&& text_opt(r.pagination_size_param) == (if fields.len() > 13 {
        Some(setting_or(fields[13]@, "pageSize"@))
    } else {
        None
    })
    &&& text_opt(r.pagination_data_field) == field_if_any(fields, 14)
    &&& text_opt(r.pagination_total_field) == field_if_any(fields, 15)
    &&& r.request_schema is None
    &&& r.enabled is None
    &&& r.pagination_page_size is None
}

fn setting_field(fields: &Vec<String>, k: usize, default: &str) -> (r: Option<String>)
    ensures
        text_opt(r) == (if k < fields@.len() {
            Some(setting_or(fields@[k as int]@, default@))
        } else {
            None
        }),
{
    if k < fields.len() {
        if chars_of(fields[k].as_str()).len() == 0 {
            Some(default.to_owned())
        } else {
            Some(fields[k].clone())
        }
    } else {
        None
    }
}

fn number_field(fields: &Vec<String>, k: usize, max: u64) -> (r: Option<u64>)
    ensures
        match r {
            Some(v) => number_if(fields@, k as int, max as int) == Some(v as int),
            None => number_if(fields@, k as int, max as int) is None,
        },
{
    if k < fields.len() {
        let t = chars_of(fields[k].as_str());
        parse_unsigned(&t, max)
    } else {
        None
    }
}

fn text_field(fields: &Vec<String>, k: usize) -> (r: Option<String>)
    ensures
        text_opt(r) == field_if_any(fields@, k as int),
{
    if k < fields.len() {
        Some(fields[k].clone())
    } else {
        None
    }
}

impl App {
    /// Checks the port form (see `port_form_error`).
    pub fn validate_port_modal(&self) -> (r: Option<String>)
        ensures
            text_opt(r) == port_form_error(self.modal_fields@),
    {
        let port = field_chars(&self.modal_fields, 0);
        if port.len() == 0 {
            return Some("Port number is required".to_owned());
        }
        let bad = match parse_unsigned(&port, 65535) {
            Some(p) => p == 0,
            None => true,
        };
        if bad {
            return Some("Port number must be a valid number (1–65535)".to_owned());
        }
        None
    }

    /// Checks the mock form (see `mock_form_error`).
    pub fn validate_mock_modal(&self) -> (r: Option<String>)
        ensures
            text_opt(r) == mock_form_error(self.modal_fields@),
    {
        let path = field_chars(&self.modal_fields, PATH_FIELD_IDX);
        if path.len() == 0 {
            return Some("Path is required".to_owned());
        }
        let name = field_chars(&self.modal_fields, 3);
        if name.len() == 0 {
            return Some("Name is required".to_owned());
        }
        let is_file = if BODY_SOURCE_FIELD_IDX < self.modal_fields.len() {
            str_eq(self.modal_fields[BODY_SOURCE_FIELD_IDX].as_str(), "File")
        } else {
            false
        };
        proof {
            if BODY_SOURCE_FIELD_IDX >= self.modal_fields@.len() {
                reveal_strlit("Inline");
                reveal_strlit("File");
                assert("Inline"@ != "File"@) by {
                    assert("Inline"@.len() != "File"@.len());
                }
            }
        }
        let body = field_chars(&self.modal_fields, BODY_FIELD_IDX);
        if is_file && body.len() == 0 {
            return Some("File path is required when Body Source is File".to_owned());
        }
        None
    }

    /// The new mock the form describes (see `created_from`); `None` when the
    /// form is not the full mock form or its port field is not a number.
    pub fn build_create_mock(&self) -> (r: Option<CreateMockRequest>)
        ensures
            self.modal_fields@.len() < MOCK_FORM_FIELDS ==> r is None,
            self.modal_fields@.len() >= MOCK_FORM_FIELDS ==> match parse_int(
                self.modal_fields@[0]@,
                i64::MIN as int,
                i64::MAX as int,
            ) {
                Some(_) => r matches Some(req) && created_from(self.modal_fields@, req),
                None => r is None,
            },
            r matches Some(req) ==> distinct_keys(pair_views(req.response_headers@)) && distinct_keys(
                pair_views(req.request_params@),
            ),
    {
        let f = &self.modal_fields;
        if f.len() < MOCK_FORM_FIELDS {
            return None;
        }
        let port_text = chars_of(f[0].as_str());
        let port_id = match parse_i64(&port_text) {
            Some(p) => p,
            None => {
                return None;
            },
        };
        let method = match HttpMethod::parse(f[1].as_str()) {
            Ok(m) => m,
            Err(_) => HttpMethod::GET,
        };
        let status = match number_field(f, 6, 65535) {
            Some(v) => v as u16,
            None => 200,
        };
        let delay = match number_field(f, 7, u64::MAX) {
            Some(v) => v,
            None => 0,
        };
        let page_param = match setting_field(f, 12, "page") {
            Some(t) => t,
            None => String::new(),
        };
        let size_param = match setting_field(f, 13, "pageSize") {
            Some(t) => t,
            None => String::new(),
        };
        proof {
            reveal_strlit("On");
        }
        let req = CreateMockRequest {
            port_id,
            name: f[3].clone(),
            description: f[4].clone(),
            method,
            path: f[2].clone(),
            request_schema: None,
            response_status: status,
            response_headers: parse_headers(f[8].as_str()),
            response_body: encode_body_field(f[9].as_str(), f[10].as_str()),
            response_delay_ms: delay,
            pagination_enabled: str_eq(f[11].as_str(), "On"),
            pagination_page_size: 10,
            request_params: parse_params(f[5].as_str()),
            pagination_page_param: page_param,
            pagination_size_param: size_param,
            pagination_data_field: f[14].clone(),
            pagination_total_field: f[15].clone(),
        };
        Some(req)
    }

    /// The changes the mock edit form describes (see `updated_from`).
    pub fn build_update_mock(&self) -> (r: UpdateMockRequest)
        ensures
            updated_from(self.modal_fields@, r),
            r.response_headers matches Some(h) ==> distinct_keys(pair_views(h@)),
            r.request_params matches Some(p) ==> distinct_keys(pair_views(p@)),
    {
        let f = &self.modal_fields;
        let response_body = if f.len() > BODY_FIELD_IDX {
            Some(encode_body_field(f[9].as_str(), f[10].as_str()))
        } else {
            None
        };
        let params = if f.len() > REQUEST_PARAMS_FIELD_IDX {
            Some(parse_params(f[5].as_str()))
        } else {
            None
        };
        let switch = if f.len() > PAGINATION_ENABLED_FIELD_IDX {
            Some(str_eq(f[11].as_str(), "On"))
        } else {
            None
        };
        let method = if f.len() > 1 {
            match HttpMethod::parse(f[1].as_str()) {
                Ok(m) => Some(m),
                Err(_) => None,
            }
        } else {
            None
        };
        let status = match number_field(f, 6, 65535) {
            Some(v) => Some(v as u16),
            None => None,
        };
        let headers = if f.len() > HEADER_FIELD_IDX {
            Some(parse_headers(f[HEADER_FIELD_IDX].as_str()))
        } else {
            None
        };
        let mut r = UpdateMockRequest::default();
        r.method = method;
        r.path = text_field(f, 2);
        r.name = text_field(f, 3);
        r.description = text_field(f, 4);
        r.request_params = params;
        r.response_status = status;
        r.response_delay_ms = number_field(f, 7, u64::MAX);
        r.response_headers = headers;
        r.response_body = response_body;
        r.pagination_enabled = switch;
        r.pagination_page_param = setting_field(f, 12, "page");
        r.pagination_size_param = setting_field(f, 13, "pageSize");
        r.pagination_data_field = text_field(f, 14);
        r.pagination_total_field = text_field(f, 15);
        r
    }
}


// ---------------------------------------------------------------------------
// Keys
// ---------------------------------------------------------------------------

/// A key press, as the interface tells keys apart.
#[derive(Debug, Clone, Copy, PartialEq, Eq, Structural)]
pub enum Key {
    Char(char),
    Tab,
    BackTab,
    Esc,
    Enter,
    Up,
    Down,
    Left,
    Right,
    Backspace,
    F1,
    Other,
}

/// The store or server operation a key asks for; the caller performs it and
/// reports back where the outcome matters.
pub enum KeyAction {
    Nothing,
    /// Start the port's server, marking the port enabled.
    StartPort(i64),
    /// Stop the port's server, marking the port disabled so that it does not
    /// start again on the next launch.
    StopPort(i64),
    /// Set a mock's `enabled` flag, then restart its port.
    ToggleMock { id: i64, enabled: bool, port_id: i64 },
    CreatePort { port: u16, label: String },
    UpdatePort { id: i64, label: String, enabled: bool },
    /// Create a mock, then restart its port.
    CreateMock(CreateMockRequest),
    /// Update a mock, then restart port `port_id`.
    UpdateMock { id: i64, port_id: i64, req: UpdateMockRequest },
    /// Stop the port's server, then delete the port.
    DeletePort(i64),
    /// Delete the mock, then restart its port.
    DeleteMock(i64),
    /// Delete every entry of a log from the store.
    ClearLogs(LogTab),
}

/// The tab a number key selects.
pub open spec fn tab_of_key(key: Key) -> Option<Tab> {
    if key == Key::Char('1') {
        Some(Tab::Ports)
    } else if key == Key::Char('2') {
        Some(Tab::Mocks)
    } else if key == Key::Char('3') {
        Some(Tab::Logs)
    } else if key == Key::Char('4') {
        Some(Tab::Functions)
    } else {
        None
    }
}

pub open spec fn is_down_key(key: Key) -> bool {
    key == Key::Down || key == Key::Char('j')
}

pub open spec fn is_up_key(key: Key) -> bool {
    key == Key::Up || key == Key::Char('k')
}

/// `ids` without `id`.
pub open spec fn without_id(ids: Seq<i64>, id: i64) -> Seq<i64>
    decreases ids.len(),
{
    if ids.len() == 0 {
        seq![]
    } else if ids.last() == id {
        without_id(ids.drop_last(), id)
    } else {
        without_id(ids.drop_last(), id).push(ids.last())
    }
}

/// Stopping a port forgets only that port among the running ones: the
/// other ids stay, in their order (the list filtered by `x != id`).
pub proof fn lemma_without_id_keeps_others(ids: Seq<i64>, id: i64)
    ensures
        without_id(ids, id) == ids.filter(|x: i64| x != id),
        !without_id(ids, id).contains(id),
        forall|x: i64| x != id ==> (without_id(ids, id).contains(x) <==> ids.contains(x)),
    decreases ids.len(),
{
    reveal(Seq::filter);
    if ids.len() > 0 {
        let rest = ids.drop_last();
        lemma_without_id_keeps_others(rest, id);
        let w = without_id(rest, id);
        assert(ids.filter(|x: i64| x != id) == if ids.last() != id {
            rest.filter(|x: i64| x != id).push(ids.last())
        } else {
            rest.filter(|x: i64| x != id)
        });
        assert forall|x: i64| x != id implies (without_id(ids, id).contains(x) <==> ids.contains(x)) by {
            if ids.contains(x) {
                let k = choose|k: int| 0 <= k < ids.len() && ids[k] == x;
                if k < ids.len() - 1 {
                    assert(rest[k] == x);
                    assert(w.contains(x));
                    if ids.last() != id {
                        let j = choose|j: int| 0 <= j < w.len() && w[j] == x;
                        assert(w.push(ids.last())[j] == x);
                    }
                } else {
                    assert(w.push(ids.last())[w.len() as int] == x);
                }
            }
            if without_id(ids, id).contains(x) {
                let j = choose|j: int| 0 <= j < without_id(ids, id).len() && without_id(ids, id)[j] == x;
                if j < w.len() {
                    assert(w[j] == x);
                    assert(w.contains(x));
                    assert(rest.contains(x));
                    let k = choose|k: int| 0 <= k < rest.len() && rest[k] == x;
                    assert(ids[k] == rest[k]);
                    assert(ids.contains(x));
                } else {
                    assert(ids[ids.len() - 1] == x);
                    assert(ids.contains(x));
                }
            }
        }
        if without_id(ids, id).contains(id) {
            let j = choose|j: int| 0 <= j < without_id(ids, id).len() && without_id(ids, id)[j] == id;
            if j < w.len() {
                assert(w[j] == id);
            }
        }
    }
}

/// The question asked before deleting a port.
pub open spec fn delete_port_question(port: u16) -> Seq<char> {
    "Delete port "@ + decimal(port as nat) + "?"@
}

/// The question asked before deleting a mock.
pub open spec fn delete_mock_question(name: Seq<char>) -> Seq<char> {
    "Delete mock \""@ + name + "\"?"@
}

/// What a key does on the Ports tab.
pub open spec fn ports_key_done(a: App, b: App, key: Key, r: KeyAction) -> bool {
    let has = a.port_selected < a.ports@.len();
    let p = a.ports@[a.port_selected as int];
    if is_down_key(key) {
        port_nav_down_done(a, b) && r is Nothing
    } else if is_up_key(key) {
        port_nav_up_done(a, b) && r is Nothing
    } else if key == Key::Char('n') {
        port_create_opened(a, b) && r is Nothing
    } else if key == Key::Char('e') {
        port_edit_opened(a, b) && r is Nothing
    } else if key == Key::Char('d') && has {
        &&& b == (App {
            confirm_message: b.confirm_message,
            confirm_action: Some(ConfirmAction::DeletePort(p.id)),
            modal: Some(ModalKind::Confirm),
            ..a
        })
        &&& b.confirm_message@ == delete_port_question(p.port)
        &&& r is Nothing
    } else if key == Key::Char(' ') && has {
        &&& b == (App { running_port_ids: b.running_port_ids, ..a })
        &&& if a.running_port_ids@.contains(p.id) {
            b.running_port_ids@ == without_id(a.running_port_ids@, p.id) && r == KeyAction::StopPort(p.id)
        } else {
            b.running_port_ids@ == a.running_port_ids@.push(p.id) && r == KeyAction::StartPort(p.id)
        }
    } else {
        b == a && r is Nothing
    }
}

/// What a key does on the Mocks tab.
pub open spec fn mocks_key_done(a: App, b: App, key: Key, r: KeyAction) -> bool {
    let has = a.mock_selected < a.mocks@.len();
    let m = a.mocks@[a.mock_selected as int];
    if is_down_key(key) {
        mock_nav_down_done(a, b) && r is Nothing
    } else if is_up_key(key) {
        mock_nav_up_done(a, b) && r is Nothing
    } else if key == Key::Char('n') {
        mock_create_opened(a, b) && r is Nothing
    } else if key == Key::Char('e') {
        mock_edit_opened(a, b) && r is Nothing
    } else if key == Key::Char('d') && has {
        &&& b == (App {
            confirm_message: b.confirm_message,
            confirm_action: Some(ConfirmAction::DeleteMock(m.id)),
            modal: Some(ModalKind::Confirm),
            ..a
        })
        &&& b.confirm_message@ == delete_mock_question(m.name@)
        &&& r is Nothing
    } else if key == Key::Char(' ') && has {
        b == a && r == (KeyAction::ToggleMock { id: m.id, enabled: !m.enabled, port_id: m.port_id })
    } else {
        b == a && r is Nothing
    }
}

/// What a key does on the Logs tab.
pub open spec fn logs_key_done(a: App, b: App, key: Key, r: KeyAction) -> bool {
    if key == Key::Char('c') {
        &&& r == KeyAction::ClearLogs(a.log_tab)
        &&& b == (App {
            request_logs: b.request_logs,
            system_logs: b.system_logs,
            log_selected: 0,
            log_detail_open: false,
            log_detail_scroll: 0,
            ..a
        })
        &&& if a.log_tab == LogTab::Request {
            b.request_logs@.len() == 0 && b.system_logs@ == a.system_logs@
        } else {
            b.system_logs@.len() == 0 && b.request_logs@ == a.request_logs@
        }
    } else {
        r is Nothing && logs_view_key_done(a, b, key)
    }
}

/// What a key that does not clear the log does on the Logs tab.
pub open spec fn logs_view_key_done(a: App, b: App, key: Key) -> bool {
    if key == Key::Esc {
        b == (App { log_detail_open: false, log_detail_scroll: 0, ..a })
    } else if key == Key::Enter {
        if a.log_tab == LogTab::Request {
            b == (App { log_detail_open: !a.log_detail_open, log_detail_scroll: 0, ..a })
        } else {
            b == a
        }
    } else if (is_down_key(key) || is_up_key(key)) && a.log_detail_open {
        b == (App { log_detail_scroll: scrolled(a.log_detail_scroll, is_down_key(key)), ..a })
    } else if is_down_key(key) {
        log_nav_down_done(a, b)
    } else if is_up_key(key) {
        log_nav_up_done(a, b)
    } else if key == Key::Char('r') {
        b == (App { log_tab: LogTab::Request, log_detail_open: false, log_detail_scroll: 0, ..a })
    } else if key == Key::Char('s') {
        b == (App { log_tab: LogTab::System, log_detail_open: false, log_detail_scroll: 0, ..a })
    } else {
        b == a
    }
}

/// What a key does when no dialog is open: number keys and Tab switch tabs
/// on every tab; the rest depends on the tab.
pub open spec fn normal_key_done(a: App, b: App, key: Key, r: KeyAction) -> bool {
    match tab_of_key(key) {
        Some(t) => b == (App { active_tab: t, ..a }) && r is Nothing,
        None => if key == Key::Tab {
            b == (App { active_tab: next_tab(a.active_tab), ..a }) && r is Nothing
        } else {
            match a.active_tab {
                Tab::Ports => ports_key_done(a, b, key, r),
                Tab::Mocks => mocks_key_done(a, b, key, r),
                Tab::Logs => logs_key_done(a, b, key, r),
                Tab::Functions => b == a && r is Nothing,
            }
        },
    }
}

fn without_id_vec(ids: &Vec<i64>, id: i64) -> (r: Vec<i64>)
    ensures
        r@ == without_id(ids@, id),
{
    let mut out: Vec<i64> = Vec::new();
    let mut i: usize = 0;
    assert(ids@.take(0) =~= seq![]);
    while i < ids.len()
        invariant
            i <= ids.len(),
            out@ == without_id(ids@.take(i as int), id),
        decreases ids.len() - i,
    {
        let ghost t = ids@.take(i as int + 1);
        assert(t.drop_last() =~= ids@.take(i as int));
        if ids[i] != id {
            out.push(ids[i]);
        }
        i = i + 1;
    }
    assert(ids@.take(ids.len() as int) =~= ids@);
    out
}

fn contains_id(ids: &Vec<i64>, id: i64) -> (r: bool)
    ensures
        r == ids@.contains(id),
{
    let mut i: usize = 0;
    while i < ids.len()
        invariant
            i <= ids.len(),
            forall|j: int| 0 <= j < i ==> ids@[j] != id,
        decreases ids.len() - i,
    {
        if ids[i] == id {
            assert(ids@[i as int] == id);
            return true;
        }
        i = i + 1;
    }
    false
}

impl App {
    /// Handles a key when no dialog is open (see `normal_key_done`).
    pub fn handle_normal_key(&mut self, key: Key) -> (r: KeyAction)
        ensures
            normal_key_done(*old(self), *final(self), key, r),
    {
        match key {
            Key::Char('1') => {
                self.active_tab = Tab::Ports;
                return KeyAction::Nothing;
            },
            Key::Char('2') => {
                self.active_tab = Tab::Mocks;
                return KeyAction::Nothing;
            },
            Key::Char('3') => {
                self.active_tab = Tab::Logs;
                return KeyAction::Nothing;
            },
            Key::Char('4') => {
                self.active_tab = Tab::Functions;
                return KeyAction::Nothing;
            },
            Key::Tab => {
                self.active_tab = self.active_tab.next();
                return KeyAction::Nothing;
            },
            _ => {},
        }
        match self.active_tab {
            Tab::Ports => self.ports_key(key),
            Tab::Mocks => self.mocks_key(key),
            Tab::Logs => self.logs_key(key),
            Tab::Functions => KeyAction::Nothing,
        }
    }

    fn ports_key(&mut self, key: Key) -> (r: KeyAction)
        ensures
            ports_key_done(*old(self), *final(self), key, r),
    {
        if key == Key::Down || key == Key::Char('j') {
            self.port_list_nav_down();
            KeyAction::Nothing
        } else if key == Key::Up || key == Key::Char('k') {
            self.port_list_nav_up();
            KeyAction::Nothing
        } else if key == Key::Char('n') {
            self.open_port_create();
            KeyAction::Nothing
        } else if key == Key::Char('e') {
            self.open_port_edit();
            KeyAction::Nothing
        } else if key == Key::Char('d') && self.port_selected < self.ports.len() {
            let port = self.ports[self.port_selected].port;
            let id = self.ports[self.port_selected].id;
            let mut msg = chars_of("Delete port ");
            let digits = u64_chars(port as u64);
            push_all(&mut msg, &digits);
            push_str_chars(&mut msg, "?");
            self.confirm_message = string_of(msg.as_slice());
            self.confirm_action = Some(ConfirmAction::DeletePort(id));
            self.modal = Some(ModalKind::Confirm);
            KeyAction::Nothing
        } else if key == Key::Char(' ') && self.port_selected < self.ports.len() {
            let id = self.ports[self.port_selected].id;
            if contains_id(&self.running_port_ids, id) {
                self.running_port_ids = without_id_vec(&self.running_port_ids, id);
                KeyAction::StopPort(id)
            } else {
                self.running_port_ids.push(id);
                KeyAction::StartPort(id)
            }
        } else {
            KeyAction::Nothing
        }
    }

    fn mocks_key(&mut self, key: Key) -> (r: KeyAction)
        ensures
            mocks_key_done(*old(self), *final(self), key, r),
    {
        if key == Key::Down || key == Key::Char('j') {
            self.mock_list_nav_down();
            KeyAction::Nothing
        } else if key == Key::Up || key == Key::Char('k') {
            self.mock_list_nav_up();
            KeyAction::Nothing
        } else if key == Key::Char('n') {
            self.open_mock_create();
            KeyAction::Nothing
        } else if key == Key::Char('e') {
            self.open_mock_edit();
            KeyAction::Nothing
        } else if key == Key::Char('d') && self.mock_selected < self.mocks.len() {
            let id = self.mocks[self.mock_selected].id;
            let mut msg = chars_of("Delete mock \"");
            push_str_chars(&mut msg, self.mocks[self.mock_selected].name.as_str());
            push_str_chars(&mut msg, "\"?");
            self.confirm_message = string_of(msg.as_slice());
            self.confirm_action = Some(ConfirmAction::DeleteMock(id));
            self.modal = Some(ModalKind::Confirm);
            KeyAction::Nothing
        } else if key == Key::Char(' ') && self.mock_selected < self.mocks.len() {
            let m = &self.mocks[self.mock_selected];
            KeyAction::ToggleMock { id: m.id, enabled: !m.enabled, port_id: m.port_id }
        } else {
            KeyAction::Nothing
        }
    }

    fn logs_key(&mut self, key: Key) -> (r: KeyAction)
        ensures
            logs_key_done(*old(self), *final(self), key, r),
    {
        if key == Key::Char('c') {
            let tab = self.log_tab;
            if tab == LogTab::Request {
                self.request_logs = Vec::new();
            } else {
                self.system_logs = Vec::new();
            }
            self.log_selected = 0;
            self.log_detail_open = false;
            self.log_detail_scroll = 0;
            return KeyAction::ClearLogs(tab);
        }
        let down = key == Key::Down || key == Key::Char('j');
        let up = key == Key::Up || key == Key::Char('k');
        if key == Key::Esc {
            self.log_detail_open = false;
            self.log_detail_scroll = 0;
        } else if key == Key::Enter {
            if self.log_tab == LogTab::Request {
                self.log_detail_open = !self.log_detail_open;
                self.log_detail_scroll = 0;
            }
        } else if (down || up) && self.log_detail_open {
            self.log_detail_scroll = scroll_step(self.log_detail_scroll, down);
        } else if down {
            self.log_nav_down();
        } else if up {
            self.log_nav_up();
        } else if key == Key::Char('r') {
            self.log_tab = LogTab::Request;
            self.log_detail_open = false;
            self.log_detail_scroll = 0;
        } else if key == Key::Char('s') {
            self.log_tab = LogTab::System;
            self.log_detail_open = false;
            self.log_detail_scroll = 0;
        }
        KeyAction::Nothing
    }
}


/// Whether the dialog is the mock form.
pub open spec fn is_mock_form(a: App) -> bool {
    a.modal == Some(ModalKind::MockCreate) || a.modal == Some(ModalKind::MockEdit)
}

/// Whether the focused field of the mock form is a choice (port, method,
/// body source or the pagination switch), which arrows cycle instead of
/// moving the cursor.
pub open spec fn on_choice_field(a: App) -> bool {
    is_mock_form(a) && (a.modal_field_idx == PORT_ID_FIELD_IDX || a.modal_field_idx == METHOD_FIELD_IDX
        || a.modal_field_idx == BODY_SOURCE_FIELD_IDX || a.modal_field_idx
        == PAGINATION_ENABLED_FIELD_IDX)
}

/// The port number a valid port form gives.
pub open spec fn form_port(fields: Seq<String>) -> u16 {
    match parse_nat(field_or_empty(fields, 0), u16::MAX as int) {
        Some(n) => n as u16,
        None => 8080,
    }
}

/// What Enter does in a dialog: a form with an error shows it; a valid
/// form asks for its store operation (the dialog stays open until the
/// outcome is known); a confirmation asks for its deletion and closes.
pub open spec fn enter_done(a: App, b: App, r: KeyAction) -> bool {
    match a.modal {
        Some(ModalKind::PortCreate) => match port_form_error(a.modal_fields@) {
            Some(e) => b == (App { modal_error: b.modal_error, ..a }) && text_opt(b.modal_error) == Some(e)
                && r is Nothing,
            None => b == a && (r matches KeyAction::CreatePort { port, label } && port == form_port(
                a.modal_fields@,
            ) && label@ == field_or_empty(a.modal_fields@, 1)),
        },
        Some(ModalKind::PortEdit) => match port_form_error(a.modal_fields@) {
            Some(e) => b == (App { modal_error: b.modal_error, ..a }) && text_opt(b.modal_error) == Some(e)
                && r is Nothing,
            None => b == a && if a.port_selected < a.ports@.len() {
                let p = a.ports@[a.port_selected as int];
                (r matches KeyAction::UpdatePort { id, label, enabled } && id == p.id && enabled
                    == p.enabled && label@ == field_or_empty(a.modal_fields@, 1))
            } else {
                r is Nothing
            },
        },
        Some(ModalKind::MockCreate) => match mock_form_error(a.modal_fields@) {
            Some(e) => b == (App { modal_error: b.modal_error, ..a }) && text_opt(b.modal_error) == Some(e)
                && r is Nothing,
            None => b == a && if a.modal_fields@.len() >= MOCK_FORM_FIELDS && parse_int(
                a.modal_fields@[0]@,
                i64::MIN as int,
                i64::MAX as int,
            ) is Some {
                (r matches KeyAction::CreateMock(req) && created_from(a.modal_fields@, req))
            } else {
                r is Nothing
            },
        },
        Some(ModalKind::MockEdit) => match mock_form_error(a.modal_fields@) {
            Some(e) => b == (App { modal_error: b.modal_error, ..a }) && text_opt(b.modal_error) == Some(e)
                && r is Nothing,
            None => b == a && if a.mock_selected < a.mocks@.len() {
                let m = a.mocks@[a.mock_selected as int];
                (r matches KeyAction::UpdateMock { id, port_id, req } && id == m.id && port_id
                    == m.port_id && updated_from(a.modal_fields@, req))
            } else {
                r is Nothing
            },
        },
        Some(ModalKind::Confirm) => modal_dismissed(a, b) && match a.confirm_action {
            Some(ConfirmAction::DeletePort(id)) => r == KeyAction::DeletePort(id),
            Some(ConfirmAction::DeleteMock(id)) => r == KeyAction::DeleteMock(id),
            None => r is Nothing,
        },
        None => b == a && r is Nothing,
    }
}

/// What a key does in an open dialog, once any earlier error is cleared.
pub open spec fn dialog_key_done(a: App, b: App, key: Key, r: KeyAction) -> bool {
    let mock = is_mock_form(a);
    let idx = a.modal_field_idx;
    if key == Key::Esc {
        r is Nothing && if a.modal == Some(ModalKind::Confirm) {
            modal_dismissed(a, b)
        } else {
            b == (App { cancel_confirm_pending: true, ..a })
        }
    } else if key == Key::Tab {
        field_next_done(a, b) && r is Nothing
    } else if key == Key::BackTab {
        field_prev_done(a, b) && r is Nothing
    } else if (key == Key::Left || key == Key::Right) && mock && idx == PORT_ID_FIELD_IDX {
        port_field_cycled(a, b, key == Key::Right) && r is Nothing
    } else if (key == Key::Left || key == Key::Right) && mock && idx == METHOD_FIELD_IDX {
        method_field_cycled(a, b, key == Key::Right) && r is Nothing
    } else if (key == Key::Left || key == Key::Right) && mock && idx == BODY_SOURCE_FIELD_IDX {
        source_field_cycled(a, b, key == Key::Right) && r is Nothing
    } else if (key == Key::Left || key == Key::Right) && mock && idx == PAGINATION_ENABLED_FIELD_IDX {
        switch_field_cycled(a, b) && r is Nothing
    } else if key == Key::Right && mock && idx == HEADER_FIELD_IDX && a.modal_fields@.len()
        > HEADER_FIELD_IDX && suggestion_for(a.modal_fields@[HEADER_FIELD_IDX as int]@) is Some {
        header_offer_accepted(a, b) && r is Nothing
    } else if key == Key::Left && !on_choice_field(a) {
        cursor_left_done(a, b) && r is Nothing
    } else if key == Key::Right && !on_choice_field(a) {
        cursor_right_done(a, b) && r is Nothing
    } else if key == Key::Backspace && !on_choice_field(a) {
        backspace_done(a, b) && r is Nothing
    } else if key == Key::Char('+') && on_list_field(a) {
        entry_added(a, b) && r is Nothing
    } else if key is Char && !on_choice_field(a) {
        char_typed(a, b, key->Char_0) && r is Nothing
    } else if key == Key::Enter {
        enter_done(a, b, r)
    } else if (key == Key::Up || key == Key::Down) && mock && idx == BODY_FIELD_IDX {
        b == (App { modal_body_scroll: scrolled(a.modal_body_scroll, key == Key::Down), ..a }) && r is Nothing
    } else {
        b == a && r is Nothing
    }
}

/// What a key does in an open dialog. While a discard is waiting to be
/// confirmed, Enter closes the dialog and Esc keeps editing; otherwise any
/// earlier error is cleared and `dialog_key_done` applies.
pub open spec fn modal_key_done(a: App, b: App, key: Key, r: KeyAction) -> bool {
    if a.cancel_confirm_pending {
        r is Nothing && if key == Key::Enter {
            modal_dismissed(a, b)
        } else if key == Key::Esc {
            b == (App { cancel_confirm_pending: false, ..a })
        } else {
            b == a
        }
    } else {
        dialog_key_done(App { modal_error: None, ..a }, b, key, r)
    }
}

/// The texts being edited fit the machine: typing into the focused field,
/// or deleting from it, has room to work. While a discard waits to be
/// confirmed no key edits, so any key fits.
pub open spec fn edit_fits(a: App, key: Key) -> bool {
    let idx = a.modal_field_idx;
    !a.cancel_confirm_pending ==> {
        &&& (key is Char && idx < a.modal_fields@.len() ==> a.modal_fields@[idx as int]@.len() + 3
            <= usize::MAX)
        &&& (key == Key::Backspace && !on_choice_field(a) && idx < a.modal_fields@.len()
            && a.modal_cursor_pos > 0 ==> a.modal_fields@[idx as int]@.len() > 0)
    }
}

impl App {
    /// Handles a key while a dialog is open (see `modal_key_done`).
    pub fn handle_modal_key(&mut self, key: Key) -> (r: KeyAction)
        requires
            edit_fits(*old(self), key),
        ensures
            modal_key_done(*old(self), *final(self), key, r),
    {
        if self.cancel_confirm_pending {
            if key == Key::Enter {
                self.dismiss_modal();
            } else if key == Key::Esc {
                self.cancel_confirm_pending = false;
            }
            return KeyAction::Nothing;
        }
        self.modal_error = None;
        let mock = self.modal == Some(ModalKind::MockCreate) || self.modal == Some(ModalKind::MockEdit);
        let idx = self.modal_field_idx;
        let on_choice = mock && (idx == PORT_ID_FIELD_IDX || idx == METHOD_FIELD_IDX || idx
            == BODY_SOURCE_FIELD_IDX || idx == PAGINATION_ENABLED_FIELD_IDX);
        let on_list = mock && (idx == REQUEST_PARAMS_FIELD_IDX || idx == HEADER_FIELD_IDX);
        if key == Key::Esc {
            if self.modal == Some(ModalKind::Confirm) {
                self.dismiss_modal();
            } else {
                self.cancel_confirm_pending = true;
            }
            KeyAction::Nothing
        } else if key == Key::Tab {
            self.modal_field_next();
            KeyAction::Nothing
        } else if key == Key::BackTab {
            self.modal_field_prev();
            KeyAction::Nothing
        } else if (key == Key::Left || key == Key::Right) && mock && idx == PORT_ID_FIELD_IDX {
            self.cycle_port_field(key == Key::Right);
            KeyAction::Nothing
        } else if (key == Key::Left || key == Key::Right) && mock && idx == METHOD_FIELD_IDX {
            self.cycle_method_field(key == Key::Right);
            KeyAction::Nothing
        } else if (key == Key::Left || key == Key::Right) && mock && idx == BODY_SOURCE_FIELD_IDX {
            self.cycle_body_source_field(key == Key::Right);
            KeyAction::Nothing
        } else if (key == Key::Left || key == Key::Right) && mock && idx == PAGINATION_ENABLED_FIELD_IDX {
            self.toggle_pagination_field();
            KeyAction::Nothing
        } else if key == Key::Right && mock && idx == HEADER_FIELD_IDX
            && self.header_autocomplete_suggestion().is_some() {
            self.accept_header_autocomplete();
            KeyAction::Nothing
        } else if key == Key::Left && !on_choice {
            self.modal_cursor_left();
            KeyAction::Nothing
        } else if key == Key::Right && !on_choice {
            self.modal_cursor_right();
            KeyAction::Nothing
        } else if key == Key::Backspace && !on_choice {
            self.modal_backspace();
            KeyAction::Nothing
        } else if key == Key::Char('+') && on_list {
            self.add_list_entry();
            KeyAction::Nothing
        } else if !on_choice && matches!(key, Key::Char(_)) {
            match key {
                Key::Char(c) => self.modal_type_char(c),
                _ => {},
            }
            KeyAction::Nothing
        } else if key == Key::Enter {
            self.submit_dialog()
        } else if (key == Key::Up || key == Key::Down) && mock && idx == BODY_FIELD_IDX {
            self.modal_body_scroll = scroll_step(self.modal_body_scroll, key == Key::Down);
            KeyAction::Nothing
        } else {
            KeyAction::Nothing
        }
    }

    fn submit_dialog(&mut self) -> (r: KeyAction)
        ensures
            enter_done(*old(self), *final(self), r),
    {
        match self.modal {
            Some(ModalKind::PortCreate) => match self.validate_port_modal() {
                Some(e) => {
                    self.modal_error = Some(e);
                    KeyAction::Nothing
                },
                None => {
                    let pt = field_chars(&self.modal_fields, 0);
                    let port: u16 = match parse_unsigned(&pt, 65535) {
                        Some(n) => n as u16,
                        None => 8080,
                    };
                    let label = match text_field(&self.modal_fields, 1) {
                        Some(l) => l,
                        None => String::new(),
                    };
                    KeyAction::CreatePort { port, label }
                },
            },
            Some(ModalKind::PortEdit) => match self.validate_port_modal() {
                Some(e) => {
                    self.modal_error = Some(e);
                    KeyAction::Nothing
                },
                None => {
                    if self.port_selected < self.ports.len() {
                        let label = match text_field(&self.modal_fields, 1) {
                            Some(l) => l,
                            None => String::new(),
                        };
                        let p = &self.ports[self.port_selected];
                        KeyAction::UpdatePort { id: p.id, label, enabled: p.enabled }
                    } else {
                        KeyAction::Nothing
                    }
                },
            },
            Some(ModalKind::MockCreate) => match self.validate_mock_modal() {
                Some(e) => {
                    self.modal_error = Some(e);
                    KeyAction::Nothing
                },
                None => match self.build_create_mock() {
                    Some(req) => KeyAction::CreateMock(req),
                    None => KeyAction::Nothing,
                },
            },
            Some(ModalKind::MockEdit) => match self.validate_mock_modal() {
                Some(e) => {
                    self.modal_error = Some(e);
                    KeyAction::Nothing
                },
                None => {
                    if self.mock_selected < self.mocks.len() {
                        let id = self.mocks[self.mock_selected].id;
                        let port_id = self.mocks[self.mock_selected].port_id;
                        let req = self.build_update_mock();
                        KeyAction::UpdateMock { id, port_id, req }
                    } else {
                        KeyAction::Nothing
                    }
                },
            },
            Some(ModalKind::Confirm) => {
                let action = match self.confirm_action {
                    Some(ConfirmAction::DeletePort(id)) => KeyAction::DeletePort(id),
                    Some(ConfirmAction::DeleteMock(id)) => KeyAction::DeleteMock(id),
                    None => KeyAction::Nothing,
                };
                self.dismiss_modal();
                action
            },
            None => KeyAction::Nothing,
        }
    }
}


// ---------------------------------------------------------------------------
// The event loop's decisions
// ---------------------------------------------------------------------------

/// Something that happened: a key (with whether Control was held), pasted
/// text, a timer tick, a terminal resize, or a log event.
pub enum Event {
    Key(Key, bool),
    Paste(String),
    Tick,
    Resize,
    Log(LogEvent),
}

/// What the event loop does next.
pub enum LoopStep {
    Quit,
    Continue(KeyAction),
}

/// Whether a key quits: `q` outside dialogs and help, or Control-C anywhere.
pub open spec fn quits(a: App, key: Key, ctrl: bool) -> bool {
    (key == Key::Char('q') && a.modal is None && !a.show_fn_help) || (ctrl && key == Key::Char('c'))
}

/// Whether a key toggles the function help: F1 anywhere, `?` outside
/// dialogs.
pub open spec fn toggles_help(a: App, key: Key) -> bool {
    key == Key::F1 || (key == Key::Char('?') && a.modal is None)
}

/// Whether a key clears the mock form's body field: Control-U while the
/// body field is focused (and no discard question is pending).
pub open spec fn clears_body(a: App, key: Key, ctrl: bool) -> bool {
    &&& ctrl
    &&& key == Key::Char('u')
    &&& is_mock_form(a)
    &&& !a.cancel_confirm_pending
    &&& a.modal_field_idx == BODY_FIELD_IDX
    &&& BODY_FIELD_IDX < a.modal_fields@.len()
}

/// What a key event does: quit; F1 (and `?` outside dialogs) toggles the
/// help; while the help is shown only Esc (closing it) acts; Control-U
/// clears the focused body field; otherwise the dialog or the tab takes the
/// key.
pub open spec fn key_event_done(a: App, b: App, key: Key, ctrl: bool, r: LoopStep) -> bool {
    if quits(a, key, ctrl) {
        b == a && r is Quit
    } else if toggles_help(a, key) {
        b == (App { show_fn_help: !a.show_fn_help, ..a }) && r == LoopStep::Continue(KeyAction::Nothing)
    } else if a.show_fn_help {
        r == LoopStep::Continue(KeyAction::Nothing) && if key == Key::Esc {
            b == (App { show_fn_help: false, ..a })
        } else {
            b == a
        }
    } else if clears_body(a, key, ctrl) {
        &&& r == LoopStep::Continue(KeyAction::Nothing)
        &&& b == (App {
            modal_fields: b.modal_fields,
            modal_cursor_pos: 0,
            modal_body_scroll: 0,
            modal_error: None,
            ..a
        })
        &&& with_field(a.modal_fields@, BODY_FIELD_IDX as int, seq![], b.modal_fields@)
    } else if a.modal is Some {
        r matches LoopStep::Continue(act) && modal_key_done(a, b, key, act)
    } else {
        r matches LoopStep::Continue(act) && normal_key_done(a, b, key, act)
    }
}

/// The texts an event would edit fit the machine.
pub open spec fn event_fits(a: App, ev: Event) -> bool {
    match ev {
        Event::Key(key, _) => edit_fits(a, key),
        Event::Paste(text) => a.modal_field_idx < a.modal_fields@.len() ==> a.modal_fields@[a.modal_field_idx as int]@.len()
            + pasted_text(text@).len() <= usize::MAX,
        _ => true,
    }
}

/// The text pasting `text` inserts (see `pasted_text`).
pub fn clean_paste(text: &str) -> (r: String)
    ensures
        r@ == pasted_text(text@),
{
    let t = trim_str(text);
    let ts = string_of(t.as_slice());
    if t.len() > 0 && (t[0] == '{' || t[0] == '[') {
        match parse(ts.as_str()) {
            Some(j) => to_text(&j),
            None => collapse_whitespace(ts.as_str()),
        }
    } else {
        collapse_whitespace(ts.as_str())
    }
}

/// `n` kept within a list of `len` entries: at most its last position
/// (0 for an empty list).
pub open spec fn clamped(n: usize, len: int) -> usize {
    if len == 0 {
        0
    } else if n < len {
        n
    } else {
        (len - 1) as usize
    }
}

impl App {
    /// Whether `handle_event` can take `ev` (see `event_fits`): the texts
    /// it would edit stay within the machine's limits.
    pub fn accepts(&self, ev: &Event) -> (r: bool)
        ensures
            r == event_fits(*self, *ev),
    {
        let idx = self.modal_field_idx;
        if idx >= self.modal_fields.len() {
            return true;
        }
        let count = chars_of(self.modal_fields[idx].as_str()).len();
        match ev {
            Event::Key(_, _) if self.cancel_confirm_pending => true,
            Event::Key(key, _) => {
                let mock = self.modal == Some(ModalKind::MockCreate) || self.modal == Some(
                    ModalKind::MockEdit,
                );
                let on_choice = mock && (idx == PORT_ID_FIELD_IDX || idx == METHOD_FIELD_IDX || idx
                    == BODY_SOURCE_FIELD_IDX || idx == PAGINATION_ENABLED_FIELD_IDX);
                let typing_fits = match key {
                    Key::Char(_) => count <= usize::MAX - 3,
                    _ => true,
                };
                let erasing_fits = !(*key == Key::Backspace && !on_choice && self.modal_cursor_pos
                    > 0) || count > 0;
                typing_fits && erasing_fits
            },
            Event::Paste(text) => {
                let added = chars_of(clean_paste(text.as_str()).as_str()).len();
                count <= usize::MAX - added
            },
            _ => true,
        }
    }

    /// Handles one event (see `key_event_done` for keys); log events are
    /// added to their list, pastes go into an open dialog's focused field,
    /// ticks and resizes change nothing.
    pub fn handle_event(&mut self, ev: Event) -> (r: LoopStep)
        requires
            event_fits(*old(self), ev),
        ensures
            match ev {
                Event::Key(key, ctrl) => key_event_done(*old(self), *final(self), key, ctrl, r),
                Event::Paste(text) => r == LoopStep::Continue(KeyAction::Nothing) && if old(self).modal is Some {
                    paste_done(*old(self), *final(self), text@)
                } else {
                    *final(self) == *old(self)
                },
                Event::Log(l) => r == LoopStep::Continue(KeyAction::Nothing) && log_pushed(*old(self), *final(self), l),
                _ => r == LoopStep::Continue(KeyAction::Nothing) && *final(self) == *old(self),
            },
    {
        match ev {
            Event::Key(key, ctrl) => {
                if (key == Key::Char('q') && self.modal.is_none() && !self.show_fn_help) || (ctrl && key
                    == Key::Char('c')) {
                    return LoopStep::Quit;
                }
                if key == Key::F1 || (key == Key::Char('?') && self.modal.is_none()) {
                    self.show_fn_help = !self.show_fn_help;
                    return LoopStep::Continue(KeyAction::Nothing);
                }
                if self.show_fn_help {
                    if key == Key::Esc {
                        self.show_fn_help = false;
                    }
                    return LoopStep::Continue(KeyAction::Nothing);
                }
                let mock = self.modal == Some(ModalKind::MockCreate) || self.modal == Some(
                    ModalKind::MockEdit,
                );
                if ctrl && key == Key::Char('u') && mock && !self.cancel_confirm_pending
                    && self.modal_field_idx == BODY_FIELD_IDX && BODY_FIELD_IDX < self.modal_fields.len() {
                    self.modal_fields.set(BODY_FIELD_IDX, String::new());
                    self.modal_cursor_pos = 0;
                    self.modal_body_scroll = 0;
                    self.modal_error = None;
                    return LoopStep::Continue(KeyAction::Nothing);
                }
                if self.modal.is_some() {
                    LoopStep::Continue(self.handle_modal_key(key))
                } else {
                    LoopStep::Continue(self.handle_normal_key(key))
                }
            },
            Event::Paste(text) => {
                if self.modal.is_some() {
                    self.modal_paste(text.as_str());
                }
                LoopStep::Continue(KeyAction::Nothing)
            },
            Event::Log(l) => {
                self.push_log_event(l);
                LoopStep::Continue(KeyAction::Nothing)
            },
            Event::Tick => LoopStep::Continue(KeyAction::Nothing),
            Event::Resize => LoopStep::Continue(KeyAction::Nothing),
        }
    }

    /// Reports the outcome of creating a port: on success the dialog
    /// closes; on failure the form shows that the port is in use.
    pub fn port_create_finished(&mut self, ok: bool, port: u16)
        ensures
            ok ==> modal_dismissed(App { status_msg: None, ..*old(self) }, *final(self)),
            !ok ==> *final(self) == (App { modal_error: final(self).modal_error, ..*old(self) })
                && text_opt(final(self).modal_error) == Some("Port "@ + decimal(port as nat) + " is already in use"@),
    {
        if ok {
            self.status_msg = None;
            self.dismiss_modal();
        } else {
            let mut msg = chars_of("Port ");
            let digits = u64_chars(port as u64);
            push_all(&mut msg, &digits);
            push_str_chars(&mut msg, " is already in use");
            self.modal_error = Some(string_of(msg.as_slice()));
        }
    }

    /// Reports the outcome of saving a form (port edit, mock create or
    /// edit): on success the dialog closes; on failure it stays open.
    pub fn form_saved(&mut self, ok: bool)
        ensures
            ok ==> modal_dismissed(*old(self), *final(self)),
            !ok ==> *final(self) == *old(self),
    {
        if ok {
            self.dismiss_modal();
        }
    }

    /// Shows freshly loaded ports, keeping the selection within the list.
    pub fn set_ports(&mut self, ports: Vec<PortConfig>, running: Vec<i64>)
        ensures
            *final(self) == (App {
                ports: ports,
                running_port_ids: running,
                port_selected: clamped(old(self).port_selected, ports@.len() as int),
                ..*old(self)
            }),
    {
        let len = ports.len();
        self.ports = ports;
        self.running_port_ids = running;
        self.port_selected = if len == 0 {
            0
        } else if self.port_selected < len {
            self.port_selected
        } else {
            len - 1
        };
    }

    /// Shows freshly loaded mocks, keeping the selection within the list.
    pub fn set_mocks(&mut self, mocks: Vec<MockApi>)
        ensures
            *final(self) == (App {
                mocks: mocks,
                mock_selected: clamped(old(self).mock_selected, mocks@.len() as int),
                ..*old(self)
            }),
    {
        let len = mocks.len();
        self.mocks = mocks;
        self.mock_selected = if len == 0 {
            0
        } else if self.mock_selected < len {
            self.mock_selected
        } else {
            len - 1
        };
    }
}


// ---------------------------------------------------------------------------
// Laws of the interface
// ---------------------------------------------------------------------------

/// Tab visits the four tabs in turn and comes back after four presses.
pub proof fn lemma_tab_cycle(t: Tab)
    ensures
        next_tab(next_tab(next_tab(next_tab(t)))) == t,
        next_tab(t) != t,
        next_tab(next_tab(t)) != t,
        next_tab(next_tab(next_tab(t))) != t,
{
}

/// Moving a selection keeps it within a non-empty list it was within.
pub proof fn lemma_nav_stays_in_list(n: usize, len: int)
    requires
        0 < len <= usize::MAX,
        n < len,
    ensures
        step_down(n, len) < len,
        step_up(n) < len,
        step_down(n, len) >= n,
        step_up(n) <= n,
{
}

/// A log list never holds more than `LOG_CAPACITY` entries after a push,
/// and the newest entry comes first.
pub proof fn lemma_log_capacity<T>(s: Seq<T>, x: T)
    ensures
        pushed_front(s, x).len() <= LOG_CAPACITY,
        pushed_front(s, x)[0] == x,
        s.len() < LOG_CAPACITY ==> pushed_front(s, x) == seq![x] + s,
{
}

/// The body source and body of the form survive storing: a file path comes
/// back as `File` and the path; inline text that does not begin with
/// `file://` comes back as `Inline` and the text.
pub proof fn lemma_body_field_round_trip(body: Seq<char>)
    ensures
        body.len() > 0 ==> decoded_body(encoded_body("File"@, body)) == ("File"@, body),
        !starts_with(body, "file://"@) ==> decoded_body(encoded_body("Inline"@, body)) == ("Inline"@, body),
{
    reveal_strlit("File");
    reveal_strlit("Inline");
    reveal_strlit("file://");
    assert("Inline"@ != "File"@) by {
        assert("Inline"@.len() != "File"@.len());
    }
    if body.len() > 0 {
        let e = "file://"@ + body;
        assert(e.take(7) =~= "file://"@);
        assert(e.skip(7) =~= body);
    }
}

/// Going forward from field `k`, within `steps` fields the search reaches
/// the first field, which is always shown.
proof fn lemma_next_shown_lands(a: App, k: int, steps: nat)
    requires
        0 <= k < a.modal_fields@.len(),
        a.modal_fields@.len() - k <= steps,
    ensures
        0 <= next_shown(a, k, steps) < a.modal_fields@.len(),
        field_shown(a, next_shown(a, k, steps)),
    decreases steps,
{
    let n = a.modal_fields@.len() as int;
    let j = (k + 1) % n;
    assert(field_shown(a, 0));
    if k + 1 < n {
        vstd::arithmetic::div_mod::lemma_small_mod((k + 1) as nat, n as nat);
        assert(j == k + 1);
        if !(steps <= 1 || field_shown(a, j)) {
            lemma_next_shown_lands(a, j, (steps - 1) as nat);
        }
    } else {
        vstd::arithmetic::div_mod::lemma_mod_self_0(n);
        assert(j == 0);
    }
}

/// Going back from field `k`, within `steps` fields the search reaches the
/// first field, which is always shown.
proof fn lemma_prev_shown_lands(a: App, k: int, steps: nat)
    requires
        0 <= k < a.modal_fields@.len(),
        (if k == 0 { a.modal_fields@.len() as int } else { k }) <= steps,
    ensures
        0 <= prev_shown(a, k, steps) < a.modal_fields@.len(),
        field_shown(a, prev_shown(a, k, steps)),
    decreases steps,
{
    let n = a.modal_fields@.len() as int;
    let j = (k + n - 1) % n;
    assert(field_shown(a, 0));
    if k == 0 {
        vstd::arithmetic::div_mod::lemma_small_mod((n - 1) as nat, n as nat);
        assert(j == n - 1);
    } else {
        vstd::arithmetic::div_mod::lemma_mod_add_multiples_vanish(k - 1, n);
        vstd::arithmetic::div_mod::lemma_small_mod((k - 1) as nat, n as nat);
        assert(j == k - 1);
    }
    if !(steps <= 1 || field_shown(a, j)) {
        lemma_prev_shown_lands(a, j, (steps - 1) as nat);
    }
}

/// Tab and Shift+Tab always focus a shown field: the request params of a
/// PUT or DELETE mock, and the pagination settings while pagination is
/// off, are passed over.
pub proof fn lemma_focus_lands_on_shown_field(a: App, b: App, c: App)
    requires
        a.modal_field_idx < a.modal_fields@.len(),
        field_next_done(a, b),
        field_prev_done(a, c),
    ensures
        field_shown(b, b.modal_field_idx as int),
        field_shown(c, c.modal_field_idx as int),
{
    let n = a.modal_fields@.len();
    let k = a.modal_field_idx as int;
    lemma_next_shown_lands(a, k, n);
    lemma_prev_shown_lands(a, k, n);
    let f = next_shown(a, k, n);
    let g = prev_shown(a, k, n);
    assert(a.modal_fields.len() == n);
    assert(b.modal_field_idx as int == f);
    assert(c.modal_field_idx as int == g);
    assert(field_shown(b, f) == field_shown(a, f));
    assert(field_shown(c, g) == field_shown(a, g));
}

/// A stored body other than a bare `file://` is what the form's body
/// source and body, as the edit form shows them, store again.
proof fn lemma_body_stored_again(b: Seq<char>)
    requires
        b != "file://"@,
    ensures
        encoded_body(decoded_body(b).0, decoded_body(b).1) == b,
{
    reveal_strlit("File");
    reveal_strlit("Inline");
    reveal_strlit("file://");
    assert("Inline"@ != "File"@) by {
        assert("Inline"@.len() != "File"@.len());
    }
    if starts_with(b, "file://"@) {
        assert(b.take(7) =~= "file://"@);
        if b.len() == 7 {
            assert(b =~= "file://"@);
        }
        assert("file://"@ + b.skip(7) =~= b);
    }
}

/// Saving an edit form left as it was opened keeps the mock: the update
/// gives the mock's own method, path, name, description, status, delay,
/// headers, body, pagination switch, data field and total field. This
/// holds for headers that the form writes and reads back (see
/// `clean_header`; no key twice) and a body other than a bare `file://`.
pub proof fn lemma_untouched_edit_keeps_mock(a: App, b: App, u: UpdateMockRequest)
    requires
        a.mock_selected < a.mocks@.len(),
        mock_edit_opened(a, b),
        updated_from(b.modal_fields@, u),
        a.mocks@[a.mock_selected as int].response_body@ != "file://"@,
        forall|i: int|
            0 <= i < a.mocks@[a.mock_selected as int].response_headers@.len() ==> clean_header(
                #[trigger] pair_views(a.mocks@[a.mock_selected as int].response_headers@)[i],
            ),
        forall|i: int, j: int|
            0 <= i < j < a.mocks@[a.mock_selected as int].response_headers@.len() ==> pair_views(
                a.mocks@[a.mock_selected as int].response_headers@,
            )[i].0 != pair_views(a.mocks@[a.mock_selected as int].response_headers@)[j].0,
    ensures
        u.method == Some(a.mocks@[a.mock_selected as int].method),
        text_opt(u.path) == Some(a.mocks@[a.mock_selected as int].path@),
        text_opt(u.name) == Some(a.mocks@[a.mock_selected as int].name@),
        text_opt(u.description) == Some(a.mocks@[a.mock_selected as int].description@),
        u.response_status == Some(a.mocks@[a.mock_selected as int].response_status),
        u.response_delay_ms == Some(a.mocks@[a.mock_selected as int].response_delay_ms),
        u.response_headers matches Some(h) && pair_views(h@) == pair_views(
            a.mocks@[a.mock_selected as int].response_headers@,
        ),
        u.response_body matches Some(t) && t@ == a.mocks@[a.mock_selected as int].response_body@,
        u.pagination_enabled == Some(a.mocks@[a.mock_selected as int].pagination_enabled),
        text_opt(u.pagination_data_field) == Some(a.mocks@[a.mock_selected as int].pagination_data_field@),
        text_opt(u.pagination_total_field) == Some(
            a.mocks@[a.mock_selected as int].pagination_total_field@,
        ),
{
    let m = a.mocks@[a.mock_selected as int];
    let f = b.modal_fields@;
    let form = mock_form(m);
    assert(field_texts(f) == form);
    assert(f.len() == 16);
    assert forall|k: int| 0 <= k < 16 implies #[trigger] f[k]@ == form[k] by {
        assert(field_texts(f)[k] == f[k]@);
    }
    // method
    assert(f[1]@ == method_name(m.method));
    // status and delay
    assert(f[6]@ == decimal(m.response_status as nat));
    lemma_decimal_parses(m.response_status as nat, u16::MAX as int);
    assert(f[7]@ == decimal(m.response_delay_ms as nat));
    lemma_decimal_parses(m.response_delay_ms as nat, u64::MAX as int);
    // headers
    let hv = pair_views(m.response_headers@);
    assert(hv.len() == m.response_headers@.len());
    lemma_headers_round_trip(hv);
    assert(f[8]@ == headers_text(hv));
    // body
    lemma_body_stored_again(m.response_body@);
    assert(f[9]@ == decoded_body(m.response_body@).0);
    assert(f[10]@ == decoded_body(m.response_body@).1);
    // pagination switch
    reveal_strlit("On");
    reveal_strlit("Off");
    assert(f[11]@ == switch_text(m.pagination_enabled));
    assert("Off"@ != "On"@) by {
        assert("Off"@.len() != "On"@.len());
    }
    assert(f[14]@ == m.pagination_data_field@);
    assert(f[15]@ == m.pagination_total_field@);
}

/// Typing a character and then deleting it gives back the field's text and
/// the cursor (for a cursor within the text, and a text shorter than the
/// machine's largest index).
pub proof fn lemma_type_then_backspace(a: App, b: App, c: App, ch: char)
    requires
        a.modal_field_idx < a.modal_fields@.len(),
        a.modal_cursor_pos <= a.modal_fields@[a.modal_field_idx as int]@.len(),
        a.modal_fields@[a.modal_field_idx as int]@.len() < usize::MAX,
        char_typed(a, b, ch),
        backspace_done(b, c),
    ensures
        field_texts(c.modal_fields@) == field_texts(a.modal_fields@),
        c == (App { modal_fields: c.modal_fields, ..a }),
{
    let k = a.modal_field_idx as int;
    let text = a.modal_fields@[k]@;
    let pos = a.modal_cursor_pos as int;
    let typed = inserted(text, pos, seq![ch]);
    assert(b.modal_fields@[k]@ == typed);
    assert(typed.remove(pos) =~= text);
    assert forall|j: int| 0 <= j < a.modal_fields@.len() implies #[trigger] field_texts(c.modal_fields@)[j]
        == field_texts(a.modal_fields@)[j] by {
        if j != k {
            assert(c.modal_fields@[j] == b.modal_fields@[j]);
            assert(b.modal_fields@[j] == a.modal_fields@[j]);
        }
    }
    assert(field_texts(c.modal_fields@) =~= field_texts(a.modal_fields@));
}

/// Refreshed lists keep the selection within them.
pub proof fn lemma_clamped_in_list(n: usize, len: int)
    requires
        0 < len <= usize::MAX,
    ensures
        clamped(n, len) < len,
        n < len ==> clamped(n, len) == n,
{
}

} // verus!
