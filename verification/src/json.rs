//! JSON documents as plain values.
//!
//! A document is read from text by serde_json (as a stream of tokens that this
//! module assembles into a tree) and written back in serde_json's compact
//! form; string escaping is serde_json's own.
use serde_json::Value;
use serde_json::from_str;
use serde_json::Value::{Array, Bool, Null, Number, Object, String as Text};
use vstd::prelude::*;

verus! {

// ---------------------------------------------------------------------------
// The model
// ---------------------------------------------------------------------------

/// A JSON document. Object entries keep their order; numbers are kept as the
/// text serde_json prints for them.
pub enum JV {
    Null,
    Bool(bool),
    Number(Seq<char>),
    Str(Seq<char>),
    Array(Seq<JV>),
    Object(Seq<(Seq<char>, JV)>),
}

/// A JSON document held by the program.
#[derive(Debug)]
pub enum Json {
    Null,
    Bool(bool),
    Number(String),
    Str(String),
    Array(Vec<Json>),
    Object(Vec<(String, Json)>),
}

pub open spec fn view_json(j: Json) -> JV
    decreases j,
{
    match j {
        Json::Null => JV::Null,
        Json::Bool(b) => JV::Bool(b),
        Json::Number(t) => JV::Number(t@),
        Json::Str(s) => JV::Str(s@),
        Json::Array(v) => JV::Array(view_arr(v@)),
        Json::Object(m) => JV::Object(view_obj(m@)),
    }
}

pub open spec fn view_arr(s: Seq<Json>) -> Seq<JV>
    decreases s,
{
    if s.len() == 0 {
        seq![]
    } else {
        seq![view_json(s[0])] + view_arr(s.subrange(1, s.len() as int))
    }
}

pub open spec fn view_obj(s: Seq<(String, Json)>) -> Seq<(Seq<char>, JV)>
    decreases s,
{
    if s.len() == 0 {
        seq![]
    } else {
        seq![(s[0].0@, view_json(s[0].1))] + view_obj(s.subrange(1, s.len() as int))
    }
}

impl View for Json {
    type V = JV;

    open spec fn view(&self) -> JV {
        view_json(*self)
    }
}

/// The view of an array's elements is element-wise.
pub proof fn lemma_view_arr(s: Seq<Json>)
    ensures
        view_arr(s).len() == s.len(),
        forall|i: int| 0 <= i < s.len() ==> #[trigger] view_arr(s)[i] == view_json(s[i]),
    decreases s.len(),
{
    if s.len() > 0 {
        let t = s.subrange(1, s.len() as int);
        lemma_view_arr(t);
        assert forall|i: int| 0 <= i < s.len() implies #[trigger] view_arr(s)[i] == view_json(
            s[i],
        ) by {
            if i > 0 {
                assert(view_arr(s)[i] == view_arr(t)[i - 1]);
                assert(t[i - 1] == s[i]);
            }
        }
    }
}

/// The view of an object's members is member-wise: keys by their text.
pub proof fn lemma_view_obj(s: Seq<(String, Json)>)
    ensures
        view_obj(s).len() == s.len(),
        forall|i: int|
            0 <= i < s.len() ==> #[trigger] view_obj(s)[i] == (s[i].0@, view_json(s[i].1)),
    decreases s.len(),
{
    if s.len() > 0 {
        let t = s.subrange(1, s.len() as int);
        lemma_view_obj(t);
        assert forall|i: int| 0 <= i < s.len() implies #[trigger] view_obj(s)[i] == (
            s[i].0@,
            view_json(s[i].1),
        ) by {
            if i > 0 {
                assert(view_obj(s)[i] == view_obj(t)[i - 1]);
                assert(t[i - 1] == s[i]);
            }
        }
    }
}

/// The value of the first entry of `m` whose key is `k`.
pub open spec fn obj_get(m: Seq<(Seq<char>, JV)>, k: Seq<char>) -> Option<JV>
    decreases m.len(),
{
    if m.len() == 0 {
        None
    } else if m[0].0 == k {
        Some(m[0].1)
    } else {
        obj_get(m.subrange(1, m.len() as int), k)
    }
}

/// Position of the first entry of `m` whose key is `k`.
pub open spec fn obj_index(m: Seq<(Seq<char>, JV)>, k: Seq<char>) -> Option<int> {
    if exists|i: int| 0 <= i < m.len() && m[i].0 == k {
        Some(choose|i: int| 0 <= i < m.len() && m[i].0 == k && forall|j: int| 0 <= j < i ==> m[j].0 != k)
    } else {
        None
    }
}

/// Looking a key up finds the first member with that key, or nothing when
/// no member has it.
pub proof fn lemma_obj_get(m: Seq<(Seq<char>, JV)>, k: Seq<char>, i: int)
    requires
        0 <= i <= m.len(),
        forall|j: int| 0 <= j < i ==> m[j].0 != k,
    ensures
        i < m.len() && m[i].0 == k ==> obj_get(m, k) == Some(m[i].1) && obj_index(m, k) == Some(i),
        i == m.len() ==> obj_get(m, k) is None && obj_index(m, k) is None,
    decreases i,
{
    if i > 0 {
        let t = m.subrange(1, m.len() as int);
        assert forall|j: int| 0 <= j < i - 1 implies t[j].0 != k by {
            assert(t[j] == m[j + 1]);
        }
        lemma_obj_get(t, k, i - 1);
        if i < m.len() {
            assert(t[i - 1] == m[i]);
        }
    }
    if i < m.len() && m[i].0 == k {
        let w = choose|w: int| 0 <= w < m.len() && m[w].0 == k && forall|j: int| 0 <= j < w ==> m[j].0 != k;
        assert(0 <= w < m.len() && m[w].0 == k && forall|j: int| 0 <= j < w ==> m[j].0 != k) by {
            assert(0 <= i < m.len() && m[i].0 == k && forall|j: int| 0 <= j < i ==> m[j].0 != k);
        }
        if w < i {
        } else if w > i {
            assert(m[i].0 != k);
        }
    }
}

impl Json {
    /// A copy of the document.
    pub fn deep_copy(&self) -> (r: Json)
        ensures
            r@ == self@,
        decreases self,
    {
        match self {
            Json::Null => Json::Null,
            Json::Bool(b) => Json::Bool(*b),
            Json::Number(t) => Json::Number(t.clone()),
            Json::Str(s) => Json::Str(s.clone()),
            Json::Array(v) => {
                let mut out: Vec<Json> = Vec::new();
                let mut i: usize = 0;
                proof {
                    lemma_view_arr(v@);
                }
                while i < v.len()
                    invariant
                        *self == Json::Array(*v),
                        i <= v.len(),
                        out.len() == i,
                        forall|k: int| 0 <= k < i ==> #[trigger] view_json(out@[k]) == view_json(v@[k]),
                    decreases v.len() - i,
                {
                    proof {
                        assert(self->Array_0 == *v);
                        assert(decreases_to!(*self => self->Array_0));
                        assert(decreases_to!(*v => v@));
                        assert(decreases_to!(v@ => v@[i as int]));
                        assert(decreases_to!(*self => v@[i as int]));
                    }
                    let c = v[i].deep_copy();
                    out.push(c);
                    i = i + 1;
                }
                proof {
                    lemma_view_arr(out@);
                    assert(view_arr(out@) =~= view_arr(v@));
                }
                Json::Array(out)
            },
            Json::Object(m) => {
                let mut out: Vec<(String, Json)> = Vec::new();
                let mut i: usize = 0;
                proof {
                    lemma_view_obj(m@);
                }
                while i < m.len()
                    invariant
                        *self == Json::Object(*m),
                        i <= m.len(),
                        out.len() == i,
                        forall|k: int|
                            0 <= k < i ==> #[trigger] out@[k].0@ == m@[k].0@ && view_json(out@[k].1)
                                == view_json(m@[k].1),
                    decreases m.len() - i,
                {
                    proof {
                        assert(self->Object_0 == *m);
                        assert(decreases_to!(*self => self->Object_0));
                        assert(decreases_to!(*m => m@));
                        assert(decreases_to!(m@ => m@[i as int]));
                        assert(decreases_to!(m@[i as int] => m@[i as int].1));
                        assert(decreases_to!(*self => m@[i as int].1));
                    }
                    let c = m[i].1.deep_copy();
                    let k = m[i].0.clone();
                    out.push((k, c));
                    i = i + 1;
                }
                proof {
                    lemma_view_obj(out@);
                    assert(view_obj(out@) =~= view_obj(m@));
                }
                Json::Object(out)
            },
        }
    }
}

impl Clone for Json {
    fn clone(&self) -> (r: Json)
        ensures
            r@ == self@,
    {
        self.deep_copy()
    }
}

// ---------------------------------------------------------------------------
// Writing (serde_json's compact form)
// ---------------------------------------------------------------------------

/// A lower-case hexadecimal digit.
pub open spec fn hex_digit(d: nat) -> char {
    if d < 10 {
        ((48 + d) as u32) as char
    } else {
        ((87 + d) as u32) as char
    }
}

/// How serde_json writes one character inside a string: `"` and `\` and
/// the control characters below U+0020 are escaped (`\b`, `\t`, `\n`,
/// `\f`, `\r`, else `\u00` and two lower-case hex digits); every other
/// character is written as it is.
pub open spec fn escaped_char(c: char) -> Seq<char> {
    let n = c as u32;
    if c == '"' {
        seq!['\\', '"']
    } else if c == '\\' {
        seq!['\\', '\\']
    } else if n == 8 {
        seq!['\\', 'b']
    } else if n == 9 {
        seq!['\\', 't']
    } else if n == 10 {
        seq!['\\', 'n']
    } else if n == 12 {
        seq!['\\', 'f']
    } else if n == 13 {
        seq!['\\', 'r']
    } else if n < 32 {
        seq!['\\', 'u', '0', '0', hex_digit((n / 16) as nat), hex_digit((n % 16) as nat)]
    } else {
        seq![c]
    }
}

/// A string's characters, each as serde_json writes it.
pub open spec fn escaped(s: Seq<char>) -> Seq<char>
    decreases s.len(),
{
    if s.len() == 0 {
        seq![]
    } else {
        escaped(s.drop_last()) + escaped_char(s.last())
    }
}

/// What `serde_json::to_string` writes for a string: the text in double
/// quotes, each character escaped as `escaped_char` says.
pub open spec fn quoted(s: Seq<char>) -> Seq<char> {
    seq!['"'] + escaped(s) + seq!['"']
}

/// `serde_json::to_string::<str>`: the quoted and escaped form of a string
/// (see `quoted`, after serde_json's escape table); serializing a string
/// does not fail.
#[verifier::external_body]
fn json_quote(s: &str) -> (r: String)
    ensures
        r@ == quoted(s@),
{
    match serde_json::to_string(s) {
        Ok(t) => t,
        Err(_) => String::new(),
    }
}

/// The compact text of a document.
pub open spec fn text_of(j: JV) -> Seq<char>
    decreases j,
{
    match j {
        JV::Null => seq!['n', 'u', 'l', 'l'],
        JV::Bool(b) => if b {
            seq!['t', 'r', 'u', 'e']
        } else {
            seq!['f', 'a', 'l', 's', 'e']
        },
        JV::Number(t) => t,
        JV::Str(s) => quoted(s),
        JV::Array(a) => seq!['['] + items_text(a) + seq![']'],
        JV::Object(m) => seq!['{'] + entries_text(m) + seq!['}'],
    }
}

/// The elements of an array, each written and separated by commas.
pub open spec fn items_text(a: Seq<JV>) -> Seq<char>
    decreases a,
{
    if a.len() == 0 {
        seq![]
    } else if a.len() == 1 {
        text_of(a[0])
    } else {
        items_text(a.subrange(0, a.len() - 1)) + seq![','] + text_of(a[a.len() - 1])
    }
}

/// The entries of an object, each written as `"key":value` and separated by commas.
pub open spec fn entries_text(m: Seq<(Seq<char>, JV)>) -> Seq<char>
    decreases m,
{
    if m.len() == 0 {
        seq![]
    } else if m.len() == 1 {
        quoted(m[0].0) + seq![':'] + text_of(m[0].1)
    } else {
        entries_text(m.subrange(0, m.len() - 1)) + seq![','] + quoted(m[m.len() - 1].0) + seq![':']
            + text_of(m[m.len() - 1].1)
    }
}

fn push_chars_of(out: &mut Vec<char>, s: &str)
    ensures
        final(out)@ == old(out)@ + s@,
{
    crate::text::push_str_chars(out, s);
}

/// Appends the compact text of `j` to `out`.
pub fn write_json(j: &Json, out: &mut Vec<char>)
    ensures
        final(out)@ == old(out)@ + text_of(j@),
    decreases j,
{
    let ghost start = out@;
    match j {
        Json::Null => {
            out.push('n');
            out.push('u');
            out.push('l');
            out.push('l');
            assert(out@ =~= start + text_of(j@));
        },
        Json::Bool(b) => {
            if *b {
                out.push('t');
                out.push('r');
                out.push('u');
                out.push('e');
            } else {
                out.push('f');
                out.push('a');
                out.push('l');
                out.push('s');
                out.push('e');
            }
            assert(out@ =~= start + text_of(j@));
        },
        Json::Number(t) => {
            push_chars_of(out, t.as_str());
        },
        Json::Str(s) => {
            let q = json_quote(s.as_str());
            push_chars_of(out, q.as_str());
        },
        Json::Array(v) => {
            proof {
                lemma_view_arr(v@);
            }
            let ghost a = view_arr(v@);
            out.push('[');
            let mut i: usize = 0;
            while i < v.len()
                invariant
                    i <= v.len(),
                    *j == Json::Array(*v),
                    a == view_arr(v@),
                    a.len() == v.len(),
                    forall|k: int| 0 <= k < v.len() ==> #[trigger] a[k] == view_json(v@[k]),
                    out@ == start + seq!['['] + items_text(a.subrange(0, i as int)),
                decreases v.len() - i,
            {
                let ghost before = out@;
                if i > 0 {
                    out.push(',');
                }
                proof {
                    assert(j->Array_0 == *v);
                    assert(decreases_to!(*j => j->Array_0));
                    assert(decreases_to!(*v => v@));
                    assert(decreases_to!(v@ => v@[i as int]));
                    assert(decreases_to!(*j => v@[i as int]));
                }
                write_json(&v[i], out);
                proof {
                    let t = a.subrange(0, i + 1);
                    assert(t.subrange(0, t.len() - 1) =~= a.subrange(0, i as int));
                    assert(t[t.len() - 1] == a[i as int]);
                    if i == 0 {
                        assert(items_text(a.subrange(0, 0)) =~= seq![]);
                        assert(out@ =~= start + seq!['['] + items_text(t));
                    } else {
                        assert(out@ =~= start + seq!['['] + items_text(t));
                    }
                }
                i = i + 1;
            }
            out.push(']');
            assert(a.subrange(0, v.len() as int) =~= a);
            assert(out@ =~= start + text_of(j@));
        },
        Json::Object(m) => {
            proof {
                lemma_view_obj(m@);
            }
            let ghost e = view_obj(m@);
            out.push('{');
            let mut i: usize = 0;
            while i < m.len()
                invariant
                    i <= m.len(),
                    *j == Json::Object(*m),
                    e == view_obj(m@),
                    e.len() == m.len(),
                    forall|k: int|
                        0 <= k < m.len() ==> #[trigger] e[k] == (m@[k].0@, view_json(m@[k].1)),
                    out@ == start + seq!['{'] + entries_text(e.subrange(0, i as int)),
                decreases m.len() - i,
            {
                if i > 0 {
                    out.push(',');
                }
                let q = json_quote(m[i].0.as_str());
                push_chars_of(out, q.as_str());
                out.push(':');
                proof {
                    assert(j->Object_0 == *m);
                    assert(decreases_to!(*j => j->Object_0));
                    assert(decreases_to!(*m => m@));
                    assert(decreases_to!(m@ => m@[i as int]));
                    assert(decreases_to!(m@[i as int] => m@[i as int].1));
                    assert(decreases_to!(*j => m@[i as int].1));
                }
                write_json(&m[i].1, out);
                proof {
                    let t = e.subrange(0, i + 1);
                    assert(t.subrange(0, t.len() - 1) =~= e.subrange(0, i as int));
                    assert(t[t.len() - 1] == e[i as int]);
                    if i == 0 {
                        assert(entries_text(e.subrange(0, 0)) =~= seq![]);
                    }
                    assert(out@ =~= start + seq!['{'] + entries_text(t));
                }
                i = i + 1;
            }
            out.push('}');
            assert(e.subrange(0, m.len() as int) =~= e);
            assert(out@ =~= start + text_of(j@));
        },
    }
}

/// The compact text of `j`, as `serde_json::to_string` writes it.
pub fn to_text(j: &Json) -> (s: String)
    ensures
        s@ == text_of(j@),
{
    let mut out: Vec<char> = Vec::new();
    write_json(j, &mut out);
    assert(out@ =~= text_of(j@));
    crate::text::string_of(out.as_slice())
}

// ---------------------------------------------------------------------------
// Reading
// ---------------------------------------------------------------------------

/// One token of a document read in pre-order: a scalar, or the start of an
/// array (`false`) or object (`true`) with its number of members. An object
/// member is a `Str` token for its key followed by the tokens of its value.
pub enum JsonToken {
    Null,
    Bool(bool),
    Number(String),
    Str(String),
    Open(usize, bool),
}

pub enum TokV {
    Null,
    Bool(bool),
    Number(Seq<char>),
    Str(Seq<char>),
    Open(nat, bool),
}

impl View for JsonToken {
    type V = TokV;

    open spec fn view(&self) -> TokV {
        match self {
            JsonToken::Null => TokV::Null,
            JsonToken::Bool(b) => TokV::Bool(*b),
            JsonToken::Number(t) => TokV::Number(t@),
            JsonToken::Str(s) => TokV::Str(s@),
            JsonToken::Open(n, o) => TokV::Open(*n as nat, *o),
        }
    }
}

pub open spec fn tok_views(ts: Seq<JsonToken>) -> Seq<TokV> {
    ts.map_values(|t: JsonToken| t@)
}

/// The tokens serde_json reads from `text`, or `None` when `text` is not JSON.
pub uninterp spec fn json_tokens(text: Seq<char>) -> Option<Seq<TokV>>;

/// `serde_json::from_str::<Value>`, with the value read back as pre-order
/// tokens (numbers as their printed text); the result is named `json_tokens`
/// of the text. Object members come in the order serde_json's map keeps them.
#[verifier::external_body]
fn read_tokens(text: &str) -> (r: Option<Vec<JsonToken>>)
    ensures
        match r {
            Some(ts) => json_tokens(text@) == Some(tok_views(ts@)),
            None => json_tokens(text@) is None,
        },
{
    let mut out = Vec::new();
    let mut stack = vec![from_str(text).ok()?];
    while let Some(x) = stack.pop() {
        out.push(match x {
            Null => JsonToken::Null,
            Bool(b) => JsonToken::Bool(b),
            Number(n) => JsonToken::Number(n.to_string()),
            Text(s) => JsonToken::Str(s),
            Array(a) => { stack.extend(a.iter().rev().cloned()); JsonToken::Open(a.len(), false) },
            Object(m) => { for (k, y) in m.iter().rev() { stack.extend([y.clone(), Text(k.clone())]) } JsonToken::Open(m.len(), true) },
        });
    }
    Some(out)
}

/// The document at the front of `ts`, and how many tokens it takes.
pub open spec fn decode(ts: Seq<TokV>) -> Option<(JV, int)>
    decreases ts.len(), 0int, 0int,
{
    if ts.len() == 0 {
        None
    } else {
        match ts[0] {
            TokV::Null => Some((JV::Null, 1)),
            TokV::Bool(b) => Some((JV::Bool(b), 1)),
            TokV::Number(t) => Some((JV::Number(t), 1)),
            TokV::Str(s) => Some((JV::Str(s), 1)),
            TokV::Open(n, false) => match decode_items(ts.skip(1), n) {
                Some((items, k)) => Some((JV::Array(items), k + 1)),
                None => None,
            },
            TokV::Open(n, true) => match decode_entries(ts.skip(1), n) {
                Some((es, k)) => Some((JV::Object(es), k + 1)),
                None => None,
            },
        }
    }
}

/// `n` documents at the front of `ts`, and how many tokens they take.
pub open spec fn decode_items(ts: Seq<TokV>, n: nat) -> Option<(Seq<JV>, int)>
    decreases ts.len(), 1int, n,
{
    if n == 0 {
        Some((seq![], 0))
    } else {
        match decode(ts) {
            Some((v, k)) => if 1 <= k <= ts.len() {
                match decode_items(ts.skip(k), (n - 1) as nat) {
                    Some((rest, k2)) => Some((seq![v] + rest, k + k2)),
                    None => None,
                }
            } else {
                None
            },
            None => None,
        }
    }
}

/// `n` object members at the front of `ts`, and how many tokens they take.
pub open spec fn decode_entries(ts: Seq<TokV>, n: nat) -> Option<(Seq<(Seq<char>, JV)>, int)>
    decreases ts.len(), 1int, n,
{
    if n == 0 {
        Some((seq![], 0))
    } else if ts.len() > 0 && ts[0] is Str {
        let key = ts[0]->Str_0;
        match decode(ts.skip(1)) {
            Some((v, k)) => if 1 <= k <= ts.len() - 1 {
                match decode_entries(ts.skip(k + 1), (n - 1) as nat) {
                    Some((rest, k2)) => Some((seq![(key, v)] + rest, k + 1 + k2)),
                    None => None,
                }
            } else {
                None
            },
            None => None,
        }
    } else {
        None
    }
}

/// The document serde_json reads from `text`, or `None` when it is not JSON.
pub open spec fn parse_json(text: Seq<char>) -> Option<JV> {
    match json_tokens(text) {
        Some(ts) => match decode(ts) {
            Some((v, k)) => if k == ts.len() {
                Some(v)
            } else {
                None
            },
            None => None,
        },
        None => None,
    }
}

proof fn lemma_decode_bounds(ts: Seq<TokV>)
    ensures
        decode(ts) matches Some((v, k)) ==> 1 <= k <= ts.len(),
    decreases ts.len(), 0int, 0int,
{
    if ts.len() > 0 {
        match ts[0] {
            TokV::Open(n, false) => {
                lemma_items_bounds(ts.skip(1), n);
            },
            TokV::Open(n, true) => {
                lemma_entries_bounds(ts.skip(1), n);
            },
            _ => {},
        }
    }
}

proof fn lemma_items_bounds(ts: Seq<TokV>, n: nat)
    ensures
        decode_items(ts, n) matches Some((v, k)) ==> 0 <= k <= ts.len() && v.len() == n,
    decreases ts.len(), 1int, n,
{
    if n > 0 {
        if let Some((v, k)) = decode(ts) {
            if 1 <= k <= ts.len() {
                lemma_items_bounds(ts.skip(k), (n - 1) as nat);
            }
        }
    }
}

proof fn lemma_entries_bounds(ts: Seq<TokV>, n: nat)
    ensures
        decode_entries(ts, n) matches Some((v, k)) ==> 0 <= k <= ts.len() && v.len() == n,
    decreases ts.len(), 1int, n,
{
    if n > 0 && ts.len() > 0 && ts[0] is Str {
        if let Some((v, k)) = decode(ts.skip(1)) {
            if 1 <= k <= ts.len() - 1 {
                lemma_entries_bounds(ts.skip(k + 1), (n - 1) as nat);
            }
        }
    }
}


/// Appending an element appends its view.
pub proof fn lemma_view_arr_push(s: Seq<Json>, x: Json)
    ensures
        view_arr(s.push(x)) == view_arr(s).push(view_json(x)),
{
    lemma_view_arr(s);
    lemma_view_arr(s.push(x));
    assert(view_arr(s.push(x)) =~= view_arr(s).push(view_json(x))) by {
        assert forall|i: int| 0 <= i < s.len() + 1 implies view_arr(s.push(x))[i] == view_arr(
            s,
        ).push(view_json(x))[i] by {
            if i < s.len() {
                assert(s.push(x)[i] == s[i]);
            }
        }
    }
}

/// Appending a member appends its view.
pub proof fn lemma_view_obj_push(s: Seq<(String, Json)>, x: (String, Json))
    ensures
        view_obj(s.push(x)) == view_obj(s).push((x.0@, view_json(x.1))),
{
    lemma_view_obj(s);
    lemma_view_obj(s.push(x));
    assert(view_obj(s.push(x)) =~= view_obj(s).push((x.0@, view_json(x.1)))) by {
        assert forall|i: int| 0 <= i < s.len() + 1 implies view_obj(s.push(x))[i] == view_obj(
            s,
        ).push((x.0@, view_json(x.1)))[i] by {
            if i < s.len() {
                assert(s.push(x)[i] == s[i]);
            }
        }
    }
}

fn decode_at(ts: &Vec<JsonToken>, p: usize) -> (r: Option<(Json, usize)>)
    requires
        p <= ts.len(),
    ensures
        match decode(tok_views(ts@).skip(p as int)) {
            Some((v, k)) => r matches Some((j, q)) && j@ == v && q == p + k,
            None => r is None,
        },
    decreases ts.len() - p, 0int, 0int,
{
    let ghost tv = tok_views(ts@);
    let ghost t = tv.skip(p as int);
    if p == ts.len() {
        return None;
    }
    assert(t[0] == ts@[p as int]@);
    match &ts[p] {
        JsonToken::Null => Some((Json::Null, p + 1)),
        JsonToken::Bool(b) => Some((Json::Bool(*b), p + 1)),
        JsonToken::Number(n) => Some((Json::Number(n.clone()), p + 1)),
        JsonToken::Str(x) => Some((Json::Str(x.clone()), p + 1)),
        JsonToken::Open(n, is_obj) => {
            assert(t.skip(1) =~= tv.skip(p + 1));
            if *is_obj {
                match decode_entries_at(ts, p + 1, *n) {
                    Some((es, q)) => Some((Json::Object(es), q)),
                    None => None,
                }
            } else {
                match decode_items_at(ts, p + 1, *n) {
                    Some((items, q)) => Some((Json::Array(items), q)),
                    None => None,
                }
            }
        },
    }
}

fn decode_items_at(ts: &Vec<JsonToken>, p: usize, n: usize) -> (r: Option<(Vec<Json>, usize)>)
    requires
        p <= ts.len(),
    ensures
        match decode_items(tok_views(ts@).skip(p as int), n as nat) {
            Some((v, k)) => r matches Some((items, q)) && view_arr(items@) == v && q == p + k,
            None => r is None,
        },
    decreases ts.len() - p, 1int, n,
{
    let ghost tv = tok_views(ts@);
    let mut items: Vec<Json> = Vec::new();
    let mut q = p;
    let mut i: usize = 0;
    assert(view_arr(items@) =~= seq![]);
    assert(decode_items(tv.skip(p as int), n as nat) == match decode_items(tv.skip(q as int), (n - i) as nat) {
        Some((rest, k)) => Some((view_arr(items@) + rest, (q - p) + k)),
        None => None,
    }) by {
        if let Some((rest, k)) = decode_items(tv.skip(q as int), (n - i) as nat) {
            assert(view_arr(items@) + rest =~= rest);
        }
    }
    while i < n
        invariant
            tv == tok_views(ts@),
            p <= q <= ts.len(),
            i <= n,
            decode_items(tv.skip(p as int), n as nat) == match decode_items(tv.skip(q as int), (n - i) as nat) {
                Some((rest, k)) => Some((view_arr(items@) + rest, (q - p) + k)),
                None => None,
            },
        decreases n - i,
    {
        let ghost t = tv.skip(q as int);
        proof {
            lemma_decode_bounds(t);
        }
        match decode_at(ts, q) {
            Some((j, q2)) => {
                let ghost k = q2 - q;
                proof {
                    assert(t.skip(k) =~= tv.skip(q2 as int));
                    lemma_view_arr_push(items@, j);
                    if let Some((rest, k2)) = decode_items(tv.skip(q2 as int), (n - i - 1) as nat) {
                        assert(view_arr(items@) + (seq![j@] + rest) =~= view_arr(items@.push(j)) + rest);
                    }
                }
                items.push(j);
                q = q2;
                i = i + 1;
            },
            None => {
                return None;
            },
        }
    }
    assert(view_arr(items@) + seq![] =~= view_arr(items@));
    Some((items, q))
}

fn decode_entries_at(ts: &Vec<JsonToken>, p: usize, n: usize) -> (r: Option<(Vec<(String, Json)>, usize)>)
    requires
        p <= ts.len(),
    ensures
        match decode_entries(tok_views(ts@).skip(p as int), n as nat) {
            Some((v, k)) => r matches Some((es, q)) && view_obj(es@) == v && q == p + k,
            None => r is None,
        },
    decreases ts.len() - p, 1int, n,
{
    let ghost tv = tok_views(ts@);
    let mut es: Vec<(String, Json)> = Vec::new();
    let mut q = p;
    let mut i: usize = 0;
    assert(view_obj(es@) =~= seq![]);
    assert(decode_entries(tv.skip(p as int), n as nat) == match decode_entries(tv.skip(q as int), (n - i) as nat) {
        Some((rest, k)) => Some((view_obj(es@) + rest, (q - p) + k)),
        None => None,
    }) by {
        if let Some((rest, k)) = decode_entries(tv.skip(q as int), (n - i) as nat) {
            assert(view_obj(es@) + rest =~= rest);
        }
    }
    while i < n
        invariant
            tv == tok_views(ts@),
            p <= q <= ts.len(),
            i <= n,
            decode_entries(tv.skip(p as int), n as nat) == match decode_entries(tv.skip(q as int), (n - i) as nat) {
                Some((rest, k)) => Some((view_obj(es@) + rest, (q - p) + k)),
                None => None,
            },
        decreases n - i,
    {
        let ghost t = tv.skip(q as int);
        if q == ts.len() {
            return None;
        }
        assert(t[0] == ts@[q as int]@);
        let key = match &ts[q] {
            JsonToken::Str(x) => x.clone(),
            _ => {
                return None;
            },
        };
        proof {
            assert(t.skip(1) =~= tv.skip(q + 1));
            lemma_decode_bounds(t.skip(1));
        }
        match decode_at(ts, q + 1) {
            Some((j, q2)) => {
                let ghost k = q2 - (q + 1);
                proof {
                    assert(t.skip(k + 1) =~= tv.skip(q2 as int));
                    lemma_view_obj_push(es@, (key, j));
                    if let Some((rest, k2)) = decode_entries(tv.skip(q2 as int), (n - i - 1) as nat) {
                        assert(view_obj(es@) + (seq![(key@, j@)] + rest) =~= view_obj(es@.push((key, j))) + rest);
                    }
                }
                es.push((key, j));
                q = q2;
                i = i + 1;
            },
            None => {
                return None;
            },
        }
    }
    assert(view_obj(es@) + seq![] =~= view_obj(es@));
    Some((es, q))
}

/// Reads a JSON document from text, as `serde_json::from_str::<Value>` does.
pub fn parse(text: &str) -> (r: Option<Json>)
    ensures
        match parse_json(text@) {
            Some(v) => r matches Some(j) && j@ == v,
            None => r is None,
        },
{
    match read_tokens(text) {
        Some(ts) => {
            assert(tok_views(ts@).skip(0) =~= tok_views(ts@));
            match decode_at(&ts, 0) {
                Some((j, q)) => {
                    if q == ts.len() {
                        Some(j)
                    } else {
                        None
                    }
                },
                None => None,
            }
        },
        None => None,
    }
}

} // verus!
