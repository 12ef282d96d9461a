//! Shaping a JSON response: filtering object arrays by request parameters,
//! and paginating an array.
use vstd::prelude::*;

use crate::json::{
    lemma_obj_get, lemma_view_arr, lemma_view_obj, obj_get, obj_index, view_arr, view_json,
    view_obj, Json, JV,
};
use crate::text::{chars_eq, chars_of, contains_char, has_char, split_once, split_once_chars, string_of};

verus! {

// ---------------------------------------------------------------------------
// Specifications
// ---------------------------------------------------------------------------

pub open spec fn bool_text(b: bool) -> Seq<char> {
    if b {
        seq!['t', 'r', 'u', 'e']
    } else {
        seq!['f', 'a', 'l', 's', 'e']
    }
}

/// Whether a JSON value equals the expected parameter text: a string by its
/// text, a number by its printed form, a boolean as `true`/`false`, and null
/// as `null`.
pub open spec fn value_eq(v: JV, expected: Seq<char>) -> bool {
    match v {
        JV::Str(s) => s == expected,
        JV::Number(t) => t == expected,
        JV::Bool(b) => bool_text(b) == expected,
        JV::Null => expected == seq!['n', 'u', 'l', 'l'],
        _ => false,
    }
}

/// Whether `key` with a value equal to `expected` occurs anywhere within `j`.
pub open spec fn has_field(j: JV, key: Seq<char>, expected: Seq<char>) -> bool
    decreases j,
{
    match j {
        JV::Object(m) => (obj_get(m, key) matches Some(v) && value_eq(v, expected)) || exists|k: int|
            0 <= k < m.len() && has_field(m[k].1, key, expected),
        JV::Array(a) => exists|k: int| 0 <= k < a.len() && has_field(a[k], key, expected),
        _ => false,
    }
}

/// `has_field` unfolded once.
pub proof fn lemma_has_field(j: JV, key: Seq<char>, expected: Seq<char>)
    ensures
        has_field(j, key, expected) == match j {
            JV::Object(m) => (obj_get(m, key) matches Some(v) && value_eq(v, expected)) || exists|k: int|
                0 <= k < m.len() && has_field(m[k].1, key, expected),
            JV::Array(a) => exists|k: int| 0 <= k < a.len() && has_field(a[k], key, expected),
            _ => false,
        },
{
}

/// Every filter `(key, expected)` is found within `item`.
pub open spec fn matches_filters(item: JV, fs: Seq<(Seq<char>, Seq<char>)>) -> bool {
    forall|i: int| 0 <= i < fs.len() ==> has_field(item, fs[i].0, fs[i].1)
}

/// An array element survives filtering: it is not an object, or it matches.
pub open spec fn kept(x: JV, fs: Seq<(Seq<char>, Seq<char>)>) -> bool {
    !(x is Object) || matches_filters(x, fs)
}

/// The surviving elements, in order.
pub open spec fn keep_items(a: Seq<JV>, fs: Seq<(Seq<char>, Seq<char>)>) -> Seq<JV>
    decreases a.len(),
{
    if a.len() == 0 {
        seq![]
    } else {
        let p = keep_items(a.drop_last(), fs);
        if kept(a.last(), fs) {
            p.push(a.last())
        } else {
            p
        }
    }
}

/// Filtering: an array holding at least one object keeps only its non-object
/// elements and the objects that match every filter (its elements are not
/// searched further); any other array is left as it is; an object has each
/// of its values filtered; scalars are unchanged.
pub open spec fn filter_json(j: JV, fs: Seq<(Seq<char>, Seq<char>)>) -> JV
    decreases j, 1int,
{
    match j {
        JV::Array(a) => if exists|k: int| 0 <= k < a.len() && a[k] is Object {
            JV::Array(keep_items(a, fs))
        } else {
            JV::Array(a)
        },
        JV::Object(m) => JV::Object(filter_entries_spec(m, fs)),
        _ => j,
    }
}

/// Each entry of an object with its value filtered.
pub open spec fn filter_entries_spec(m: Seq<(Seq<char>, JV)>, fs: Seq<(Seq<char>, Seq<char>)>) -> Seq<
    (Seq<char>, JV),
>
    decreases m, 0int,
{
    Seq::new(
        m.len(),
        |i: int|
            if 0 <= i < m.len() {
                (m[i].0, filter_json(m[i].1, fs))
            } else {
                (m[i].0, JV::Null)
            },
    )
}

/// The array a field path names. A dotted path (`body.list`) is followed
/// through object keys; a plain name is the value of that key if it is an
/// array, else is searched for depth-first through object values and array
/// elements, the first hit winning.
pub open spec fn find_array(j: JV, path: Seq<char>) -> Option<Seq<JV>>
    decreases path.len(), j, 0int,
{
    if has_char(path, '.') {
        let head = split_once(path, '.').0;
        let rest = split_once(path, '.').1;
        match j {
            JV::Object(m) => match obj_get(m, head) {
                Some(v) => if rest is Some && rest.unwrap().len() < path.len() {
                    find_array(v, rest.unwrap())
                } else {
                    None
                },
                None => None,
            },
            _ => None,
        }
    } else {
        match j {
            JV::Object(m) => match obj_get(m, path) {
                Some(JV::Array(arr)) => Some(arr),
                _ => find_in_entries(m, path),
            },
            JV::Array(a) => find_in_items(a, path),
            _ => None,
        }
    }
}

/// The first array `path` names within the values of `m`, in order.
pub open spec fn find_in_entries(m: Seq<(Seq<char>, JV)>, path: Seq<char>) -> Option<Seq<JV>>
    decreases path.len(), m, 1int,
{
    if m.len() == 0 {
        None
    } else {
        match find_array(m[0].1, path) {
            Some(x) => Some(x),
            None => find_in_entries(m.subrange(1, m.len() as int), path),
        }
    }
}

/// The first array `path` names within the elements of `a`, in order.
pub open spec fn find_in_items(a: Seq<JV>, path: Seq<char>) -> Option<Seq<JV>>
    decreases path.len(), a, 1int,
{
    if a.len() == 0 {
        None
    } else {
        match find_array(a[0], path) {
            Some(x) => Some(x),
            None => find_in_items(a.subrange(1, a.len() as int), path),
        }
    }
}

/// Replacing the field a path names with `new`, and whether it was found. A
/// dotted path is followed through object keys; a plain name replaces that
/// key of an object, or else the first such key found depth-first through
/// object values (arrays are not entered).
pub open spec fn set_field(j: JV, path: Seq<char>, new: JV) -> (JV, bool)
    decreases path.len(), j, 0int,
{
    match j {
        JV::Object(m) => if has_char(path, '.') {
            let head = split_once(path, '.').0;
            let rest = split_once(path, '.').1;
            match obj_index(m, head) {
                Some(i) => if 0 <= i < m.len() && rest is Some && rest.unwrap().len() < path.len() {
                    let r = set_field(m[i].1, rest.unwrap(), new);
                    (JV::Object(m.update(i, (m[i].0, r.0))), r.1)
                } else {
                    (j, false)
                },
                None => (j, false),
            }
        } else {
            match obj_index(m, path) {
                Some(i) => (JV::Object(m.update(i, (m[i].0, new))), true),
                None => {
                    let r = set_in_entries(m, path, new);
                    (JV::Object(r.0), r.1)
                },
            }
        },
        _ => (j, false),
    }
}

/// `set_field` applied to the values of `m` in order until one reports the
/// field found; later entries are left as they are.
pub open spec fn set_in_entries(m: Seq<(Seq<char>, JV)>, path: Seq<char>, new: JV) -> (Seq<(Seq<char>, JV)>, bool)
    decreases path.len(), m, 1int,
{
    if m.len() == 0 {
        (seq![], false)
    } else {
        let r = set_field(m[0].1, path, new);
        let rest = m.subrange(1, m.len() as int);
        if r.1 {
            (seq![(m[0].0, r.0)] + rest, true)
        } else {
            let t = set_in_entries(rest, path, new);
            (seq![(m[0].0, r.0)] + t.0, t.1)
        }
    }
}


// ---------------------------------------------------------------------------
// Reading documents
// ---------------------------------------------------------------------------

/// Position of the first entry of `m` with key `key`.
pub fn obj_lookup(m: &Vec<(String, Json)>, key: &Vec<char>) -> (r: Option<usize>)
    ensures
        view_obj(m@).len() == m.len(),
        match r {
            Some(i) => i < m.len() && view_obj(m@)[i as int].0 == key@ && (forall|j: int|
                0 <= j < i ==> view_obj(m@)[j].0 != key@) && obj_get(view_obj(m@), key@) == Some(
                view_obj(m@)[i as int].1,
            ) && obj_index(view_obj(m@), key@) == Some(i as int),
            None => (forall|j: int| 0 <= j < m.len() ==> view_obj(m@)[j].0 != key@) && obj_get(
                view_obj(m@),
                key@,
            ) is None && obj_index(view_obj(m@), key@) is None,
        },
{
    proof {
        lemma_view_obj(m@);
    }
    let ghost e = view_obj(m@);
    let mut i: usize = 0;
    while i < m.len()
        invariant
            e == view_obj(m@),
            e.len() == m.len(),
            forall|k: int| 0 <= k < m.len() ==> #[trigger] e[k] == (m@[k].0@, view_json(m@[k].1)),
            i <= m.len(),
            forall|k: int| 0 <= k < i ==> e[k].0 != key@,
        decreases m.len() - i,
    {
        let k = chars_of(m[i].0.as_str());
        if chars_eq(&k, key) {
            proof {
                lemma_obj_get(e, key@, i as int);
            }
            return Some(i);
        }
        i = i + 1;
    }
    proof {
        lemma_obj_get(e, key@, i as int);
    }
    None
}

/// Whether a value equals the expected parameter text (see `value_eq`).
pub fn json_value_eq(v: &Json, expected: &Vec<char>) -> (r: bool)
    ensures
        r == value_eq(v@, expected@),
{
    match v {
        Json::Str(s) => {
            let c = chars_of(s.as_str());
            chars_eq(&c, expected)
        },
        Json::Number(t) => {
            let c = chars_of(t.as_str());
            chars_eq(&c, expected)
        },
        Json::Bool(b) => {
            let c = if *b {
                chars_of("true")
            } else {
                chars_of("false")
            };
            proof {
                reveal_strlit("true");
                reveal_strlit("false");
            }
            assert(c@ == bool_text(*b));
            chars_eq(&c, expected)
        },
        Json::Null => {
            let c = chars_of("null");
            proof {
                reveal_strlit("null");
            }
            assert(c@ == seq!['n', 'u', 'l', 'l']);
            chars_eq(&c, expected)
        },
        _ => false,
    }
}

/// Whether `key` with a value equal to `expected` occurs within `j`.
pub fn json_has_field(j: &Json, key: &Vec<char>, expected: &Vec<char>) -> (r: bool)
    ensures
        r == has_field(j@, key@, expected@),
    decreases *j, 1int,
{
    match j {
        Json::Object(m) => {
            proof {
                lemma_view_obj(m@);
                assert(j@ == JV::Object(view_obj(m@)));
            }
            let ghost e = view_obj(m@);
            let direct = match obj_lookup(m, key) {
                Some(i) => json_value_eq(&m[i].1, expected),
                None => false,
            };
            assert(direct == (obj_get(e, key@) matches Some(v) && value_eq(v, expected@)));
            proof {
                assert(j->Object_0 == *m);
                assert(decreases_to!(*j => j->Object_0));
            }
            let deep = has_field_in_entries(m, key, expected);
            proof {
                lemma_has_field(j@, key@, expected@);
                assert(deep == exists|k: int| 0 <= k < e.len() && has_field(e[k].1, key@, expected@));
                assert(has_field(j@, key@, expected@) == (direct || deep));
            }
            let r = direct || deep;
            assert(r == has_field(j@, key@, expected@));
            return r;
        },
        Json::Array(a) => {
            proof {
                lemma_view_arr(a@);
                assert(j@ == JV::Array(view_arr(a@)));
                lemma_has_field(j@, key@, expected@);
                assert(j->Array_0 == *a);
                assert(decreases_to!(*j => j->Array_0));
            }
            let r = has_field_in_items(a, key, expected);
            proof {
                let w = view_arr(a@);
                lemma_has_field(JV::Array(w), key@, expected@);
                assert(j@ == JV::Array(w));
                assert(has_field(j@, key@, expected@) == exists|q: int|
                    0 <= q < w.len() && has_field(w[q], key@, expected@));
                if r {
                    let q = choose|q: int| 0 <= q < a.len() && has_field(w[q], key@, expected@);
                    assert(0 <= q < w.len() && has_field(w[q], key@, expected@));
                }
                if has_field(j@, key@, expected@) {
                    let q = choose|q: int| 0 <= q < w.len() && has_field(w[q], key@, expected@);
                    assert(0 <= q < a.len() && has_field(w[q], key@, expected@));
                }
            }
            return r;
        },
        _ => {
            proof {
                lemma_has_field(j@, key@, expected@);
            }
            assert(!has_field(j@, key@, expected@));
            return false;
        },
    }
}

fn has_field_in_entries(m: &Vec<(String, Json)>, key: &Vec<char>, expected: &Vec<char>) -> (r: bool)
    ensures
        r == exists|k: int| 0 <= k < m.len() && has_field(view_obj(m@)[k].1, key@, expected@),
    decreases *m, 0int,
{
    let ghost e = view_obj(m@);
    proof {
        lemma_view_obj(m@);
    }
    let mut k: usize = 0;
    while k < m.len()
        invariant
            e == view_obj(m@),
            e.len() == m.len(),
            forall|q: int| 0 <= q < m.len() ==> #[trigger] e[q] == (m@[q].0@, view_json(m@[q].1)),
            k <= m.len(),
            forall|q: int| 0 <= q < k ==> !has_field(e[q].1, key@, expected@),
        decreases m.len() - k,
    {
        proof {
            assert(decreases_to!(*m => m@));
            assert(decreases_to!(m@ => m@[k as int]));
            assert(decreases_to!(m@[k as int] => m@[k as int].1));
            assert(decreases_to!(*m => m@[k as int].1));
        }
        if json_has_field(&m[k].1, key, expected) {
            assert(has_field(e[k as int].1, key@, expected@));
            return true;
        }
        k = k + 1;
    }
    false
}

fn has_field_in_items(a: &Vec<Json>, key: &Vec<char>, expected: &Vec<char>) -> (r: bool)
    ensures
        r == exists|k: int| 0 <= k < a.len() && has_field(view_arr(a@)[k], key@, expected@),
    decreases *a, 0int,
{
    let ghost w = view_arr(a@);
    proof {
        lemma_view_arr(a@);
    }
    let mut k: usize = 0;
    while k < a.len()
        invariant
            w == view_arr(a@),
            w.len() == a.len(),
            forall|q: int| 0 <= q < a.len() ==> #[trigger] w[q] == view_json(a@[q]),
            k <= a.len(),
            forall|q: int| 0 <= q < k ==> !has_field(w[q], key@, expected@),
        decreases a.len() - k,
    {
        proof {
            assert(decreases_to!(*a => a@));
            assert(decreases_to!(a@ => a@[k as int]));
            assert(decreases_to!(*a => a@[k as int]));
        }
        if json_has_field(&a[k], key, expected) {
            assert(has_field(w[k as int], key@, expected@));
            return true;
        }
        k = k + 1;
    }
    false
}

/// The filters as plain texts.
pub open spec fn filter_views(fs: Seq<(Vec<char>, Vec<char>)>) -> Seq<(Seq<char>, Seq<char>)> {
    fs.map_values(|f: (Vec<char>, Vec<char>)| (f.0@, f.1@))
}

/// Whether `item` matches every filter.
pub fn item_matches_filters(item: &Json, fs: &Vec<(Vec<char>, Vec<char>)>) -> (r: bool)
    ensures
        r == matches_filters(item@, filter_views(fs@)),
{
    let ghost fv = filter_views(fs@);
    let mut i: usize = 0;
    while i < fs.len()
        invariant
            fv == filter_views(fs@),
            fv.len() == fs.len(),
            i <= fs.len(),
            forall|k: int| 0 <= k < i ==> has_field(item@, fv[k].0, fv[k].1),
        decreases fs.len() - i,
    {
        assert(fv[i as int] == (fs@[i as int].0@, fs@[i as int].1@));
        if !json_has_field(item, &fs[i].0, &fs[i].1) {
            return false;
        }
        i = i + 1;
    }
    true
}


// ---------------------------------------------------------------------------
// Filtering
// ---------------------------------------------------------------------------

proof fn lemma_filter_array(w: Seq<JV>, fs: Seq<(Seq<char>, Seq<char>)>)
    ensures
        filter_json(JV::Array(w), fs) == (if exists|k: int| 0 <= k < w.len() && w[k] is Object {
            JV::Array(keep_items(w, fs))
        } else {
            JV::Array(w)
        }),
{
}

fn is_object(j: &Json) -> (b: bool)
    ensures
        b == (j@ is Object),
{
    match j {
        Json::Object(_) => true,
        _ => false,
    }
}

/// Filters a document by the request's parameters (see `filter_json`).
pub fn apply_filter_recursive(j: &Json, fs: &Vec<(Vec<char>, Vec<char>)>) -> (r: Json)
    ensures
        r@ == filter_json(j@, filter_views(fs@)),
    decreases *j, 1int,
{
    match j {
        Json::Array(a) => {
            proof {
                assert(j->Array_0 == *a);
                assert(decreases_to!(*j => j->Array_0));
            }
            let out = filter_items(a, fs);
            assert(j@ == JV::Array(view_arr(a@)));
            proof {
                lemma_filter_array(view_arr(a@), filter_views(fs@));
            }
            let ghost w = view_arr(a@);
            let ghost fv = filter_views(fs@);
            assert(view_arr(out@) == (if exists|k: int| 0 <= k < w.len() && w[k] is Object {
                keep_items(w, fv)
            } else {
                w
            }));
            assert(filter_json(j@, fv) == JV::Array(view_arr(out@)));
            let r = Json::Array(out);
            assert(r@ == JV::Array(view_arr(out@)));
            assert(r@ == filter_json(j@, filter_views(fs@)));
            r
        },
        Json::Object(m) => {
            proof {
                assert(j->Object_0 == *m);
                assert(decreases_to!(*j => j->Object_0));
            }
            let out = filter_entries(m, fs);
            assert(j@ == JV::Object(view_obj(m@)));
            let r = Json::Object(out);
            assert(r@ == JV::Object(view_obj(out@)));
            assert(r@ == filter_json(j@, filter_views(fs@)));
            r
        },
        _ => {
            let r = j.deep_copy();
            assert(!(j@ is Array) && !(j@ is Object));
            assert(r@ == filter_json(j@, filter_views(fs@)));
            r
        },
    }
}

fn filter_items(a: &Vec<Json>, fs: &Vec<(Vec<char>, Vec<char>)>) -> (r: Vec<Json>)
    ensures
        view_arr(r@) == (if exists|k: int| 0 <= k < view_arr(a@).len() && view_arr(a@)[k] is Object {
            keep_items(view_arr(a@), filter_views(fs@))
        } else {
            view_arr(a@)
        }),
    decreases *a, 0int,
{
    let ghost w = view_arr(a@);
    let ghost fv = filter_views(fs@);
    proof {
        lemma_view_arr(a@);
    }
    let mut any_object = false;
    let mut i: usize = 0;
    while i < a.len()
        invariant
            w == view_arr(a@),
            w.len() == a.len(),
            forall|q: int| 0 <= q < a.len() ==> #[trigger] w[q] == view_json(a@[q]),
            i <= a.len(),
            !any_object ==> forall|q: int| 0 <= q < i ==> !(w[q] is Object),
            any_object ==> exists|q: int| 0 <= q < w.len() && w[q] is Object,
        decreases a.len() - i,
    {
        if is_object(&a[i]) {
            assert(w[i as int] is Object);
            any_object = true;
        }
        i = i + 1;
    }
    if !any_object {
        let mut out: Vec<Json> = Vec::new();
        let mut k: usize = 0;
        while k < a.len()
            invariant
                w == view_arr(a@),
                w.len() == a.len(),
                forall|q: int| 0 <= q < a.len() ==> #[trigger] w[q] == view_json(a@[q]),
                k <= a.len(),
                view_arr(out@) == w.take(k as int),
            decreases a.len() - k,
        {
            let c = a[k].deep_copy();
            proof {
                crate::json::lemma_view_arr_push(out@, c);
            }
            out.push(c);
            k = k + 1;
            assert(view_arr(out@) =~= w.take(k as int));
        }
        assert(w.take(a.len() as int) =~= w);
        return out;
    }
    let mut out: Vec<Json> = Vec::new();
    let mut k: usize = 0;
    assert(w.take(0) =~= seq![]);
    proof {
        lemma_view_arr(out@);
    }
    assert(view_arr(out@) =~= keep_items(w.take(0), fv));
    while k < a.len()
        invariant
            w == view_arr(a@),
            fv == filter_views(fs@),
            w.len() == a.len(),
            forall|q: int| 0 <= q < a.len() ==> #[trigger] w[q] == view_json(a@[q]),
            k <= a.len(),
            view_arr(out@) == keep_items(w.take(k as int), fv),
        decreases a.len() - k,
    {
        let ghost t = w.take(k as int + 1);
        assert(t.drop_last() =~= w.take(k as int));
        assert(t.last() == w[k as int]);
        let keep = !is_object(&a[k]) || item_matches_filters(&a[k], fs);
        if keep {
            let c = a[k].deep_copy();
            proof {
                crate::json::lemma_view_arr_push(out@, c);
            }
            out.push(c);
        }
        k = k + 1;
    }
    assert(w.take(a.len() as int) =~= w);
    out
}

fn filter_entries(m: &Vec<(String, Json)>, fs: &Vec<(Vec<char>, Vec<char>)>) -> (r: Vec<(String, Json)>)
    ensures
        view_obj(r@) == filter_entries_spec(view_obj(m@), filter_views(fs@)),
    decreases *m, 0int,
{
    let ghost e = view_obj(m@);
    let ghost fv = filter_views(fs@);
    proof {
        lemma_view_obj(m@);
    }
    let mut out: Vec<(String, Json)> = Vec::new();
    let mut k: usize = 0;
    while k < m.len()
        invariant
            e == view_obj(m@),
            fv == filter_views(fs@),
            e.len() == m.len(),
            forall|q: int| 0 <= q < m.len() ==> #[trigger] e[q] == (m@[q].0@, view_json(m@[q].1)),
            k <= m.len(),
            out.len() == k,
            forall|q: int|
                0 <= q < k ==> #[trigger] out@[q].0@ == e[q].0 && view_json(out@[q].1) == filter_json(
                    e[q].1,
                    fv,
                ),
        decreases m.len() - k,
    {
        proof {
            assert(decreases_to!(*m => m@));
            assert(decreases_to!(m@ => m@[k as int]));
            assert(decreases_to!(m@[k as int] => m@[k as int].1));
            assert(decreases_to!(*m => m@[k as int].1));
        }
        let v = apply_filter_recursive(&m[k].1, fs);
        let key = m[k].0.clone();
        out.push((key, v));
        k = k + 1;
    }
    proof {
        lemma_view_obj(out@);
        assert(view_obj(out@) =~= filter_entries_spec(e, fv));
    }
    out
}


// ---------------------------------------------------------------------------
// Locating and replacing fields
// ---------------------------------------------------------------------------

/// A copy of the elements of an array.
fn copy_items(v: &Vec<Json>) -> (r: Vec<Json>)
    ensures
        view_arr(r@) == view_arr(v@),
{
    let mut out: Vec<Json> = Vec::new();
    let mut k: usize = 0;
    proof {
        lemma_view_arr(v@);
        lemma_view_arr(out@);
    }
    while k < v.len()
        invariant
            k <= v.len(),
            view_arr(v@).len() == v.len(),
            forall|q: int| 0 <= q < v.len() ==> #[trigger] view_arr(v@)[q] == view_json(v@[q]),
            view_arr(out@) == view_arr(v@).take(k as int),
        decreases v.len() - k,
    {
        let c = v[k].deep_copy();
        proof {
            crate::json::lemma_view_arr_push(out@, c);
        }
        out.push(c);
        k = k + 1;
        assert(view_arr(out@) =~= view_arr(v@).take(k as int));
    }
    assert(view_arr(v@).take(v.len() as int) =~= view_arr(v@));
    out
}

/// Finds the array a field path names (see `find_array`).
pub fn find_array_by_field(j: &Json, path: &Vec<char>) -> (r: Option<Vec<Json>>)
    ensures
        match find_array(j@, path@) {
            Some(arr) => r matches Some(v) && view_arr(v@) == arr,
            None => r is None,
        },
    decreases path.len(), *j, 0int,
{
    if contains_char(path, '.') {
        let (head, rest) = split_once_chars(path, '.');
        match j {
            Json::Object(m) => {
                assert(j@ == JV::Object(view_obj(m@)));
                match obj_lookup(m, &head) {
                    Some(i) => {
                        match rest {
                            Some(rest) => {
                                proof {
                                    lemma_view_obj(m@);
                                    lemma_split_once_shorter(path@, '.');
                                }
                                find_array_by_field(&m[i].1, &rest)
                            },
                            None => {
                                proof {
                                    lemma_split_once_shorter(path@, '.');
                                }
                                None
                            },
                        }
                    },
                    None => None,
                }
            },
            _ => None,
        }
    } else {
        match j {
            Json::Object(m) => {
                assert(j@ == JV::Object(view_obj(m@)));
                proof {
                    lemma_view_obj(m@);
                }
                if let Some(i) = obj_lookup(m, path) {
                    if let Json::Array(v) = &m[i].1 {
                        return Some(copy_items(v));
                    }
                }
                proof {
                    assert(j->Object_0 == *m);
                    assert(decreases_to!(*j => j->Object_0));
                }
                find_in_entries_at(m, path)
            },
            Json::Array(a) => {
                assert(j@ == JV::Array(view_arr(a@)));
                proof {
                    assert(j->Array_0 == *a);
                    assert(decreases_to!(*j => j->Array_0));
                }
                find_in_items_at(a, path)
            },
            _ => None,
        }
    }
}

proof fn lemma_split_once_shorter(s: Seq<char>, c: char)
    requires
        has_char(s, c),
    ensures
        split_once(s, c).1 is Some,
        split_once(s, c).1.unwrap().len() < s.len(),
{
    let k = choose|k: int| 0 <= k < s.len() && s[k] == c;
    lemma_first_char_exists(s, c, k);
}

proof fn lemma_first_char_exists(s: Seq<char>, c: char, k: int) -> (i: int)
    requires
        0 <= k < s.len(),
        s[k] == c,
    ensures
        crate::text::find_char(s, c) == Some(i),
        0 <= i < s.len(),
    decreases s.len(),
{
    if s[0] == c {
        0
    } else {
        assert(s.drop_first()[k - 1] == c);
        let j = lemma_first_char_exists(s.drop_first(), c, k - 1);
        j + 1
    }
}

fn find_in_entries_at(m: &Vec<(String, Json)>, path: &Vec<char>) -> (r: Option<Vec<Json>>)
    ensures
        match find_in_entries(view_obj(m@), path@) {
            Some(arr) => r matches Some(v) && view_arr(v@) == arr,
            None => r is None,
        },
    decreases path.len(), *m, 1int,
{
    let ghost e = view_obj(m@);
    proof {
        lemma_view_obj(m@);
    }
    let mut k: usize = 0;
    assert(e.subrange(0, e.len() as int) =~= e);
    while k < m.len()
        invariant
            e == view_obj(m@),
            e.len() == m.len(),
            forall|q: int| 0 <= q < m.len() ==> #[trigger] e[q] == (m@[q].0@, view_json(m@[q].1)),
            k <= m.len(),
            find_in_entries(e, path@) == find_in_entries(e.subrange(k as int, e.len() as int), path@),
        decreases m.len() - k,
    {
        proof {
            let t = e.subrange(k as int, e.len() as int);
            assert(t[0] == e[k as int]);
            assert(t.subrange(1, t.len() as int) =~= e.subrange(k + 1, e.len() as int));
            assert(decreases_to!(*m => m@));
            assert(decreases_to!(m@ => m@[k as int]));
            assert(decreases_to!(m@[k as int] => m@[k as int].1));
            assert(decreases_to!(*m => m@[k as int].1));
        }
        let found = find_array_by_field(&m[k].1, path);
        if found.is_some() {
            return found;
        }
        k = k + 1;
    }
    None
}

fn find_in_items_at(a: &Vec<Json>, path: &Vec<char>) -> (r: Option<Vec<Json>>)
    ensures
        match find_in_items(view_arr(a@), path@) {
            Some(arr) => r matches Some(v) && view_arr(v@) == arr,
            None => r is None,
        },
    decreases path.len(), *a, 1int,
{
    let ghost w = view_arr(a@);
    proof {
        lemma_view_arr(a@);
    }
    let mut k: usize = 0;
    assert(w.subrange(0, w.len() as int) =~= w);
    while k < a.len()
        invariant
            w == view_arr(a@),
            w.len() == a.len(),
            forall|q: int| 0 <= q < a.len() ==> #[trigger] w[q] == view_json(a@[q]),
            k <= a.len(),
            find_in_items(w, path@) == find_in_items(w.subrange(k as int, w.len() as int), path@),
        decreases a.len() - k,
    {
        proof {
            let t = w.subrange(k as int, w.len() as int);
            assert(t[0] == w[k as int]);
            assert(t.subrange(1, t.len() as int) =~= w.subrange(k + 1, w.len() as int));
            assert(decreases_to!(*a => a@));
            assert(decreases_to!(a@ => a@[k as int]));
            assert(decreases_to!(*a => a@[k as int]));
        }
        let found = find_array_by_field(&a[k], path);
        if found.is_some() {
            return found;
        }
        k = k + 1;
    }
    None
}


/// A copy of the entries of `m`, with entry `i` replaced by `(m[i].0, v)`.
fn replace_entry(m: &Vec<(String, Json)>, i: usize, v: Json) -> (r: Vec<(String, Json)>)
    requires
        i < m.len(),
    ensures
        view_obj(r@) == view_obj(m@).update(i as int, (view_obj(m@)[i as int].0, v@)),
{
    proof {
        lemma_view_obj(m@);
    }
    let ghost e = view_obj(m@);
    let ghost vv = v@;
    let ghost target = e.update(i as int, (e[i as int].0, vv));
    let mut out: Vec<(String, Json)> = Vec::new();
    let mut k: usize = 0;
    let mut slot: Option<Json> = Some(v);
    while k < m.len()
        invariant
            e == view_obj(m@),
            e.len() == m.len(),
            forall|q: int| 0 <= q < m.len() ==> #[trigger] e[q] == (m@[q].0@, view_json(m@[q].1)),
            i < m.len(),
            target == e.update(i as int, (e[i as int].0, vv)),
            k <= m.len(),
            k <= i ==> (slot matches Some(x) && x@ == target[i as int].1),
            out.len() == k,
            forall|q: int| 0 <= q < k ==> (#[trigger] out@[q].0@, view_json(out@[q].1)) == target[q],
        decreases m.len() - k,
    {
        let key = m[k].0.clone();
        let ghost old_out = out@;
        assert(e[k as int] == (m@[k as int].0@, view_json(m@[k as int].1)));
        if k == i {
            let x = match slot.take() {
                Some(x) => x,
                None => Json::Null,
            };
            out.push((key, x));
            assert((out@[k as int].0@, view_json(out@[k as int].1)) == target[k as int]);
        } else {
            let c = m[k].1.deep_copy();
            out.push((key, c));
            assert((out@[k as int].0@, view_json(out@[k as int].1)) == target[k as int]);
        }
        assert forall|q: int| 0 <= q < k + 1 implies (#[trigger] out@[q].0@, view_json(out@[q].1))
            == target[q] by {
            if q < k {
                assert(out@[q] == old_out[q]);
            }
        }
        k = k + 1;
    }
    proof {
        lemma_view_obj(out@);
        assert(view_obj(out@) =~= target);
    }
    out
}

/// A copy of the entries `m[from..]`.
fn copy_entries_from(m: &Vec<(String, Json)>, from: usize, out: &mut Vec<(String, Json)>)
    requires
        from <= m.len(),
    ensures
        view_obj(final(out)@) == view_obj(old(out)@) + view_obj(m@).subrange(from as int, m.len() as int),
{
    proof {
        lemma_view_obj(m@);
    }
    let ghost start = view_obj(out@);
    let mut k = from;
    while k < m.len()
        invariant
            from <= k <= m.len(),
            view_obj(m@).len() == m.len(),
            forall|q: int| 0 <= q < m.len() ==> #[trigger] view_obj(m@)[q] == (m@[q].0@, view_json(m@[q].1)),
            view_obj(out@) == start + view_obj(m@).subrange(from as int, k as int),
        decreases m.len() - k,
    {
        let key = m[k].0.clone();
        let c = m[k].1.deep_copy();
        proof {
            crate::json::lemma_view_obj_push(out@, (key, c));
        }
        out.push((key, c));
        k = k + 1;
        assert(view_obj(out@) =~= start + view_obj(m@).subrange(from as int, k as int));
    }
}

/// Replaces the field a path names with `new` (see `set_field`), and tells
/// whether it was found.
pub fn set_json_field_inner(j: &Json, path: &Vec<char>, new: &Json) -> (r: (Json, bool))
    ensures
        (r.0@, r.1) == set_field(j@, path@, new@),
    decreases path.len(), *j, 0int,
{
    match j {
        Json::Object(m) => {
            assert(j@ == JV::Object(view_obj(m@)));
            proof {
                lemma_view_obj(m@);
            }
            if contains_char(path, '.') {
                let (head, rest) = split_once_chars(path, '.');
                proof {
                    lemma_split_once_shorter(path@, '.');
                }
                match obj_lookup(m, &head) {
                    Some(i) => {
                        let rest = match rest {
                            Some(x) => x,
                            None => Vec::new(),
                        };
                        let (c, f) = set_json_field_inner(&m[i].1, &rest, new);
                        let out = replace_entry(m, i, c);
                        (Json::Object(out), f)
                    },
                    None => (j.deep_copy(), false),
                }
            } else {
                match obj_lookup(m, path) {
                    Some(i) => {
                        let out = replace_entry(m, i, new.deep_copy());
                        (Json::Object(out), true)
                    },
                    None => {
                        proof {
                            assert(j->Object_0 == *m);
                            assert(decreases_to!(*j => j->Object_0));
                        }
                        let (out, f) = set_in_entries_at(m, path, new);
                        (Json::Object(out), f)
                    },
                }
            }
        },
        _ => (j.deep_copy(), false),
    }
}

fn set_in_entries_at(m: &Vec<(String, Json)>, path: &Vec<char>, new: &Json) -> (r: (Vec<(String, Json)>, bool))
    ensures
        (view_obj(r.0@), r.1) == set_in_entries(view_obj(m@), path@, new@),
    decreases path.len(), *m, 1int,
{
    let ghost e = view_obj(m@);
    proof {
        lemma_view_obj(m@);
    }
    let mut out: Vec<(String, Json)> = Vec::new();
    let mut k: usize = 0;
    assert(e.subrange(0, e.len() as int) =~= e);
    proof {
        lemma_view_obj(out@);
        let t = set_in_entries(e, path@, new@);
        assert(view_obj(out@) + t.0 =~= t.0);
    }
    while k < m.len()
        invariant
            e == view_obj(m@),
            e.len() == m.len(),
            forall|q: int| 0 <= q < m.len() ==> #[trigger] e[q] == (m@[q].0@, view_json(m@[q].1)),
            k <= m.len(),
            ({
                let t = set_in_entries(e.subrange(k as int, e.len() as int), path@, new@);
                set_in_entries(e, path@, new@) == (view_obj(out@) + t.0, t.1)
            }),
        decreases m.len() - k,
    {
        let ghost t = e.subrange(k as int, e.len() as int);
        proof {
            assert(t[0] == e[k as int]);
            assert(t.subrange(1, t.len() as int) =~= e.subrange(k + 1, e.len() as int));
            assert(decreases_to!(*m => m@));
            assert(decreases_to!(m@ => m@[k as int]));
            assert(decreases_to!(m@[k as int] => m@[k as int].1));
            assert(decreases_to!(*m => m@[k as int].1));
        }
        let (v, f) = set_json_field_inner(&m[k].1, path, new);
        let key = m[k].0.clone();
        let ghost before = view_obj(out@);
        proof {
            crate::json::lemma_view_obj_push(out@, (key, v));
        }
        out.push((key, v));
        if f {
            copy_entries_from(m, k + 1, &mut out);
            proof {
                assert(view_obj(out@) =~= before + (seq![(e[k as int].0, v@)] + e.subrange(k + 1, e.len() as int)));
            }
            return (out, true);
        }
        k = k + 1;
        proof {
            let t2 = set_in_entries(e.subrange(k as int, e.len() as int), path@, new@);
            assert(view_obj(out@) + t2.0 =~= before + (seq![(e[k - 1].0, v@)] + t2.0));
        }
    }
    proof {
        assert(e.subrange(k as int, e.len() as int) =~= seq![]);
        assert(view_obj(out@) + seq![] =~= view_obj(out@));
    }
    (out, false)
}

/// Replaces the field a path names with `new` (see `set_field`).
pub fn set_json_field(j: &Json, path: &Vec<char>, new: &Json) -> (r: Json)
    ensures
        r@ == set_field(j@, path@, new@).0,
{
    let (r, _) = set_json_field_inner(j, path, new);
    r
}


// ---------------------------------------------------------------------------
// Laws of filtering
// ---------------------------------------------------------------------------

/// An array holding no object (a list of strings, numbers or booleans) is
/// never filtered, whatever the filters.
pub proof fn lemma_primitive_array_unfiltered(a: Seq<JV>, fs: Seq<(Seq<char>, Seq<char>)>)
    requires
        forall|k: int| 0 <= k < a.len() ==> !(#[trigger] a[k] is Object),
    ensures
        filter_json(JV::Array(a), fs) == JV::Array(a),
{
}

/// The test an array element passes to be kept (see `kept`).
pub open spec fn kept_by(fs: Seq<(Seq<char>, Seq<char>)>) -> spec_fn(JV) -> bool {
    |x: JV| kept(x, fs)
}

/// A filter value matches a JSON scalar by its text: a string by its
/// characters, a number by its printed text, a boolean as `true` or
/// `false`, null as `null`; an array or an object matches no value.
pub proof fn lemma_value_matches_by_text(t: Seq<char>, e: Seq<char>, b: bool, items: Seq<JV>, m: Seq<(Seq<char>, JV)>)
    ensures
        value_eq(JV::Str(t), e) <==> t == e,
        value_eq(JV::Number(t), e) <==> t == e,
        value_eq(JV::Bool(b), e) <==> e == (if b { seq!['t', 'r', 'u', 'e'] } else { seq!['f', 'a', 'l', 's', 'e'] }),
        value_eq(JV::Null, e) <==> e == seq!['n', 'u', 'l', 'l'],
        !value_eq(JV::Array(items), e),
        !value_eq(JV::Object(m), e),
{
}

/// An object whose field `key` holds a number printed as `e` passes the
/// filter `key = e` (so `{"id":2}` is kept by `?id=2`), and so does one
/// whose field holds the string `e`.
pub proof fn lemma_field_value_passes_filter(m: Seq<(Seq<char>, JV)>, key: Seq<char>, e: Seq<char>)
    requires
        obj_get(m, key) == Some(JV::Number(e)) || obj_get(m, key) == Some(JV::Str(e)),
    ensures
        has_field(JV::Object(m), key, e),
        matches_filters(JV::Object(m), seq![(key, e)]),
{
    lemma_has_field(JV::Object(m), key, e);
}

/// Filtering an array keeps exactly the elements that are not objects or
/// that match every filter, in their order (the array filtered by `kept`):
/// each kept element is an element of the array that passes, and there are
/// at most as many kept elements as elements.
pub proof fn lemma_keep_items_subsequence(a: Seq<JV>, fs: Seq<(Seq<char>, Seq<char>)>)
    ensures
        keep_items(a, fs) == a.filter(kept_by(fs)),
        keep_items(a, fs).len() <= a.len(),
        forall|k: int| 0 <= k < keep_items(a, fs).len() ==> kept(#[trigger] keep_items(a, fs)[k], fs),
        forall|k: int| 0 <= k < keep_items(a, fs).len() ==> a.contains(#[trigger] keep_items(a, fs)[k]),
    decreases a.len(),
{
    reveal(Seq::filter);
    if a.len() > 0 {
        let p = keep_items(a.drop_last(), fs);
        lemma_keep_items_subsequence(a.drop_last(), fs);
        assert(a.filter(kept_by(fs)) == if kept_by(fs)(a.last()) {
            a.drop_last().filter(kept_by(fs)).push(a.last())
        } else {
            a.drop_last().filter(kept_by(fs))
        });
        assert forall|k: int| 0 <= k < keep_items(a, fs).len() implies a.contains(
            #[trigger] keep_items(a, fs)[k],
        ) by {
            if k < p.len() {
                assert(keep_items(a, fs)[k] == p[k]);
                let w = choose|w: int| 0 <= w < a.drop_last().len() && a.drop_last()[w] == p[k];
                assert(a[w] == p[k]);
            } else {
                assert(keep_items(a, fs)[k] == a.last());
                assert(a[a.len() - 1] == a.last());
            }
        }
        assert forall|k: int| 0 <= k < keep_items(a, fs).len() implies kept(
            #[trigger] keep_items(a, fs)[k],
            fs,
        ) by {
            if k < p.len() {
                assert(keep_items(a, fs)[k] == p[k]);
            }
        }
    }
}

/// With no filters, every element of an array is kept.
pub proof fn lemma_no_filters_keep_all(a: Seq<JV>)
    ensures
        keep_items(a, seq![]) == a,
    decreases a.len(),
{
    if a.len() > 0 {
        lemma_no_filters_keep_all(a.drop_last());
        assert(kept(a.last(), seq![]));
        assert(a.drop_last().push(a.last()) =~= a);
    }
}

} // verus!
