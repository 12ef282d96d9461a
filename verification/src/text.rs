//! Character-level text utilities shared by the rest of the library.
//!
//! Text is handled as sequences of Unicode scalar values (`Seq<char>`); the
//! executable functions work on `Vec<char>` and convert at the edges.
use vstd::prelude::*;

verus! {

// ---------------------------------------------------------------------------
// Conversions
// ---------------------------------------------------------------------------

/// Builds a `String` from characters (`FromIterator<char>` for `String`).
#[verifier::external_body]
pub(crate) fn string_of(v: &[char]) -> (s: String)
    ensures
        s@ == v@,
{
    v.iter().collect()
}

/// The characters of `s`, in order.
pub fn chars_of(s: &str) -> (v: Vec<char>)
    ensures
        v@ == s@,
{
    let mut v: Vec<char> = Vec::new();
    for c in iter: s.chars()
        invariant
            v@ == iter.seq().take(iter.index() as int),
    {
        v.push(c);
    }
    v
}

/// Appends all of `src` to `dst`.
pub fn push_all(dst: &mut Vec<char>, src: &Vec<char>)
    ensures
        final(dst)@ == old(dst)@ + src@,
{
    let ghost start = dst@;
    let mut i: usize = 0;
    while i < src.len()
        invariant
            i <= src.len(),
            dst@ == start + src@.take(i as int),
        decreases src.len() - i,
    {
        dst.push(src[i]);
        i = i + 1;
        assert(src@.take(i as int) == src@.take((i - 1) as int).push(src@[i - 1]));
    }
    assert(src@.take(src.len() as int) == src@);
}

/// Appends the characters of `src` to `dst`.
pub fn push_str_chars(dst: &mut Vec<char>, src: &str)
    ensures
        final(dst)@ == old(dst)@ + src@,
{
    let v = chars_of(src);
    push_all(dst, &v);
}

/// Whether two character vectors hold the same text.
pub fn chars_eq(a: &Vec<char>, b: &Vec<char>) -> (r: bool)
    ensures
        r == (a@ == b@),
{
    if a.len() != b.len() {
        return false;
    }
    let mut i: usize = 0;
    while i < a.len()
        invariant
            a.len() == b.len(),
            i <= a.len(),
            forall|k: int| 0 <= k < i ==> a@[k] == b@[k],
        decreases a.len() - i,
    {
        if a[i] != b[i] {
            return false;
        }
        i = i + 1;
    }
    assert(a@ =~= b@);
    true
}

/// Whether `a` holds exactly the text `lit`.
pub fn eq_str(a: &Vec<char>, lit: &str) -> (r: bool)
    ensures
        r == (a@ == lit@),
{
    let b = chars_of(lit);
    chars_eq(a, &b)
}

/// Whether two strings are equal.
pub fn str_eq(a: &str, b: &str) -> (r: bool)
    ensures
        r == (a@ == b@),
{
    let x = chars_of(a);
    let y = chars_of(b);
    chars_eq(&x, &y)
}

/// A copy of the characters `v[lo..hi]`.
pub fn slice_chars(v: &Vec<char>, lo: usize, hi: usize) -> (r: Vec<char>)
    requires
        lo <= hi <= v.len(),
    ensures
        r@ == v@.subrange(lo as int, hi as int),
{
    let mut r: Vec<char> = Vec::new();
    let mut i = lo;
    while i < hi
        invariant
            lo <= i <= hi <= v.len(),
            r@ == v@.subrange(lo as int, i as int),
        decreases hi - i,
    {
        r.push(v[i]);
        i = i + 1;
        assert(r@ =~= v@.subrange(lo as int, i as int));
    }
    r
}

// ---------------------------------------------------------------------------
// Whitespace and trimming (`char::is_whitespace`, `str::trim`)
// ---------------------------------------------------------------------------

/// Unicode `White_Space`, as `char::is_whitespace` decides it.
pub open spec fn is_ws(c: char) -> bool {
    let u = c as u32;
    ||| 9 <= u <= 13
    ||| u == 32
    ||| u == 0x85
    ||| u == 0xA0
    ||| u == 0x1680
    ||| 0x2000 <= u <= 0x200A
    ||| u == 0x2028
    ||| u == 0x2029
    ||| u == 0x202F
    ||| u == 0x205F
    ||| u == 0x3000
}

pub fn is_whitespace(c: char) -> (b: bool)
    ensures
        b == is_ws(c),
{
    let u = c as u32;
    (9 <= u && u <= 13) || u == 32 || u == 0x85 || u == 0xA0 || u == 0x1680 || (0x2000 <= u && u
        <= 0x200A) || u == 0x2028 || u == 0x2029 || u == 0x202F || u == 0x205F || u == 0x3000
}

/// `s` without its leading whitespace.
pub open spec fn trim_start(s: Seq<char>) -> Seq<char>
    decreases s.len(),
{
    if s.len() > 0 && is_ws(s[0]) {
        trim_start(s.drop_first())
    } else {
        s
    }
}

/// `s` without its trailing whitespace.
pub open spec fn trim_end(s: Seq<char>) -> Seq<char>
    decreases s.len(),
{
    if s.len() > 0 && is_ws(s.last()) {
        trim_end(s.drop_last())
    } else {
        s
    }
}

/// `s` without leading and trailing whitespace (`str::trim`).
pub open spec fn trim(s: Seq<char>) -> Seq<char> {
    trim_end(trim_start(s))
}

proof fn lemma_trim_start_skip(s: Seq<char>, i: int)
    requires
        0 <= i <= s.len(),
        forall|k: int| 0 <= k < i ==> is_ws(#[trigger] s[k]),
    ensures
        trim_start(s) == trim_start(s.skip(i)),
    decreases i,
{
    if i > 0 {
        assert(is_ws(s[0]));
        assert(s.drop_first().skip(i - 1) =~= s.skip(i));
        assert forall|k: int| 0 <= k < i - 1 implies is_ws(#[trigger] s.drop_first()[k]) by {
            assert(s.drop_first()[k] == s[k + 1]);
        }
        lemma_trim_start_skip(s.drop_first(), i - 1);
    } else {
        assert(s.skip(0) =~= s);
    }
}

proof fn lemma_trim_end_take(s: Seq<char>, j: int)
    requires
        0 <= j <= s.len(),
        forall|k: int| j <= k < s.len() ==> is_ws(#[trigger] s[k]),
    ensures
        trim_end(s) == trim_end(s.take(j)),
    decreases s.len() - j,
{
    if j < s.len() {
        assert(s.drop_last().take(j) =~= s.take(j));
        lemma_trim_end_take(s.drop_last(), j);
    } else {
        assert(s.take(j) =~= s);
    }
}

/// Whitespace-trimmed copy of `v` (`str::trim`).
pub fn trim_chars(v: &Vec<char>) -> (r: Vec<char>)
    ensures
        r@ == trim(v@),
{
    let mut lo: usize = 0;
    while lo < v.len() && is_whitespace(v[lo])
        invariant
            lo <= v.len(),
            forall|k: int| 0 <= k < lo ==> is_ws(#[trigger] v@[k]),
        decreases v.len() - lo,
    {
        lo = lo + 1;
    }
    proof {
        lemma_trim_start_skip(v@, lo as int);
    }
    let ghost t = v@.skip(lo as int);
    assert(trim_start(t) == t);
    let mut hi: usize = v.len();
    while hi > lo && is_whitespace(v[hi - 1])
        invariant
            lo <= hi <= v.len(),
            forall|k: int| hi <= k < v.len() ==> is_ws(#[trigger] v@[k]),
        decreases hi,
    {
        hi = hi - 1;
    }
    proof {
        assert forall|k: int| hi - lo <= k < t.len() implies is_ws(#[trigger] t[k]) by {
            assert(t[k] == v@[k + lo]);
        }
        lemma_trim_end_take(t, hi - lo);
        assert(t.take(hi - lo) =~= v@.subrange(lo as int, hi as int));
        let u = t.take(hi - lo);
        if u.len() > 0 {
            assert(u.last() == v@[hi - 1]);
        }
    }
    slice_chars(v, lo, hi)
}

/// Trimmed characters of a string.
pub fn trim_str(s: &str) -> (r: Vec<char>)
    ensures
        r@ == trim(s@),
{
    let v = chars_of(s);
    trim_chars(&v)
}

// ---------------------------------------------------------------------------
// Searching and splitting
// ---------------------------------------------------------------------------

/// Index of the first `c` in `s`.
pub open spec fn find_char(s: Seq<char>, c: char) -> Option<int>
    decreases s.len(),
{
    if s.len() == 0 {
        None
    } else if s[0] == c {
        Some(0)
    } else {
        match find_char(s.drop_first(), c) {
            Some(i) => Some(i + 1),
            None => None,
        }
    }
}

/// When `c` is not among the first `i` characters, `find_char` finds it at
/// `i` if it is there, and finds nothing when `i` is the end.
pub proof fn lemma_find_char(s: Seq<char>, c: char, i: int)
    requires
        0 <= i <= s.len(),
        forall|k: int| 0 <= k < i ==> #[trigger] s[k] != c,
    ensures
        i < s.len() && s[i] == c ==> find_char(s, c) == Some(i),
        i == s.len() ==> find_char(s, c) == None::<int>,
    decreases i,
{
    if i > 0 {
        assert forall|k: int| 0 <= k < i - 1 implies #[trigger] s.drop_first()[k] != c by {
            assert(s.drop_first()[k] == s[k + 1]);
        }
        lemma_find_char(s.drop_first(), c, i - 1);
    }
}

/// Whether `c` occurs in `s`.
pub open spec fn has_char(s: Seq<char>, c: char) -> bool {
    exists|k: int| 0 <= k < s.len() && s[k] == c
}

pub fn contains_char(v: &Vec<char>, c: char) -> (r: bool)
    ensures
        r == has_char(v@, c),
{
    let mut i: usize = 0;
    while i < v.len()
        invariant
            i <= v.len(),
            forall|k: int| 0 <= k < i ==> v@[k] != c,
        decreases v.len() - i,
    {
        if v[i] == c {
            return true;
        }
        i = i + 1;
    }
    false
}

/// The pieces of `s` between occurrences of `sep` (`str::split` with a char).
pub open spec fn split_on(s: Seq<char>, sep: char) -> Seq<Seq<char>>
    decreases s.len(),
{
    match find_char(s, sep) {
        None => seq![s],
        Some(i) => if 0 <= i < s.len() {
            seq![s.take(i)] + split_on(s.skip(i + 1), sep)
        } else {
            seq![s]
        },
    }
}

/// What `find_char` finds: the first occurrence, or that there is none.
pub proof fn lemma_find_char_result(s: Seq<char>, c: char)
    ensures
        match find_char(s, c) {
            Some(i) => 0 <= i < s.len() && s[i] == c && forall|k: int| 0 <= k < i ==> s[k] != c,
            None => !has_char(s, c),
        },
    decreases s.len(),
{
    if s.len() > 0 && s[0] != c {
        lemma_find_char_result(s.drop_first(), c);
        if find_char(s.drop_first(), c) is None {
            assert forall|k: int| 0 <= k < s.len() implies s[k] != c by {
                if k > 0 {
                    assert(s[k] == s.drop_first()[k - 1]);
                }
            }
        } else {
            let i = find_char(s.drop_first(), c).unwrap();
            assert forall|k: int| 0 <= k < i + 1 implies s[k] != c by {
                if k > 0 {
                    assert(s[k] == s.drop_first()[k - 1]);
                }
            }
        }
    }
}

/// A text without the separator is one piece.
pub proof fn lemma_split_on_single(x: Seq<char>, sep: char)
    requires
        !has_char(x, sep),
    ensures
        split_on(x, sep) == seq![x],
{
    lemma_find_char(x, sep, x.len() as int);
}

/// Splitting at a separator placed between two texts splits each of them.
pub proof fn lemma_split_on_join(x: Seq<char>, y: Seq<char>, sep: char)
    ensures
        split_on(x + seq![sep] + y, sep) == split_on(x, sep) + split_on(y, sep),
    decreases x.len(),
{
    let s = x + seq![sep] + y;
    lemma_find_char_result(x, sep);
    match find_char(x, sep) {
        None => {
            assert forall|k: int| 0 <= k < x.len() implies #[trigger] s[k] != sep by {
                assert(s[k] == x[k]);
            }
            lemma_find_char(s, sep, x.len() as int);
            assert(s.take(x.len() as int) =~= x);
            assert(s.skip(x.len() as int + 1) =~= y);
            lemma_split_on_single(x, sep);
        },
        Some(i) => {
            assert forall|k: int| 0 <= k < i implies #[trigger] s[k] != sep by {
                assert(s[k] == x[k]);
            }
            lemma_find_char(s, sep, i);
            let rest = x.skip(i + 1);
            assert(s.take(i) =~= x.take(i));
            assert(s.skip(i + 1) =~= rest + seq![sep] + y);
            lemma_split_on_join(rest, y, sep);
            assert(seq![x.take(i)] + (split_on(rest, sep) + split_on(y, sep)) =~= (seq![x.take(i)]
                + split_on(rest, sep)) + split_on(y, sep));
        },
    }
}

/// Appending text without the separator extends the last piece.
pub proof fn lemma_split_on_extend(x: Seq<char>, y: Seq<char>, sep: char)
    requires
        !has_char(y, sep),
    ensures
        split_on(x, sep).len() > 0,
        split_on(x + y, sep) == split_on(x, sep).drop_last().push(split_on(x, sep).last() + y),
    decreases x.len(),
{
    let s = x + y;
    lemma_find_char_result(x, sep);
    match find_char(x, sep) {
        None => {
            assert forall|k: int| 0 <= k < s.len() implies #[trigger] s[k] != sep by {
                if k < x.len() {
                    assert(s[k] == x[k]);
                } else {
                    assert(s[k] == y[k - x.len()]);
                }
            }
            lemma_split_on_single(x, sep);
            lemma_split_on_single(s, sep);
            assert(seq![x].drop_last().push(x + y) =~= seq![x + y]);
        },
        Some(i) => {
            assert forall|k: int| 0 <= k < i implies #[trigger] s[k] != sep by {
                assert(s[k] == x[k]);
            }
            lemma_find_char(s, sep, i);
            let rest = x.skip(i + 1);
            assert(s.take(i) =~= x.take(i));
            assert(s.skip(i + 1) =~= rest + y);
            lemma_split_on_extend(rest, y, sep);
            let q = split_on(rest, sep);
            assert((seq![x.take(i)] + q).drop_last().push((seq![x.take(i)] + q).last() + y) =~= seq![
                x.take(i),
            ] + q.drop_last().push(q.last() + y));
        },
    }
}

/// Trimming the start of two joined texts.
pub proof fn lemma_trim_start_concat(a: Seq<char>, b: Seq<char>)
    ensures
        trim_start(a + b) == (if trim_start(a).len() == 0 {
            trim_start(b)
        } else {
            trim_start(a) + b
        }),
    decreases a.len(),
{
    if a.len() == 0 {
        assert(a + b =~= b);
    } else if is_ws(a[0]) {
        assert((a + b).drop_first() =~= a.drop_first() + b);
        lemma_trim_start_concat(a.drop_first(), b);
    } else {
        assert((a + b)[0] == a[0]);
    }
}

/// Trimming the end of two joined texts.
pub proof fn lemma_trim_end_concat(a: Seq<char>, b: Seq<char>)
    ensures
        trim_end(a + b) == (if trim_end(b).len() == 0 {
            trim_end(a)
        } else {
            a + trim_end(b)
        }),
    decreases b.len(),
{
    if b.len() == 0 {
        assert(a + b =~= a);
    } else if is_ws(b.last()) {
        assert((a + b).drop_last() =~= a + b.drop_last());
        lemma_trim_end_concat(a, b.drop_last());
    } else {
        assert((a + b).last() == b.last());
    }
}

/// Whitespace around a text does not survive trimming.
pub proof fn lemma_trim_padded(s: Seq<char>, pre: Seq<char>, post: Seq<char>)
    requires
        forall|k: int| 0 <= k < pre.len() ==> is_ws(#[trigger] pre[k]),
        forall|k: int| 0 <= k < post.len() ==> is_ws(#[trigger] post[k]),
    ensures
        trim(pre + s + post) == trim(s),
    decreases pre.len() + post.len(),
{
    if pre.len() > 0 {
        assert((pre + s + post).drop_first() =~= pre.drop_first() + s + post);
        assert((pre + s + post)[0] == pre[0]);
        lemma_trim_padded(s, pre.drop_first(), post);
    } else if post.len() > 0 {
        assert(pre + s + post =~= (s + post.drop_last()) + seq![post.last()]);
        assert(pre + s + post.drop_last() =~= s + post.drop_last());
        lemma_trim_padded(s, pre, post.drop_last());
        let t = s + post.drop_last();
        lemma_trim_start_concat(t, seq![post.last()]);
        assert(is_ws(post[post.len() - 1]));
        assert(trim_start(seq![post.last()]) =~= seq![]) by {
            assert(seq![post.last()].drop_first() =~= Seq::<char>::empty());
            assert(trim_start(Seq::<char>::empty()) =~= Seq::<char>::empty());
        }
        if trim_start(t).len() > 0 {
            lemma_trim_end_concat(trim_start(t), seq![post.last()]);
            assert(trim_end(seq![post.last()]) =~= seq![]) by {
                assert(seq![post.last()].drop_last() =~= Seq::<char>::empty());
                assert(trim_end(Seq::<char>::empty()) =~= Seq::<char>::empty());
            }
            assert(trim_start(t) + Seq::<char>::empty() =~= trim_start(t));
        }
    } else {
        assert(pre + s + post =~= s);
    }
}

/// First position at or after `from` where `c` occurs, or `v.len()`.
pub fn next_char(v: &Vec<char>, from: usize, c: char) -> (j: usize)
    requires
        from <= v.len(),
    ensures
        from <= j <= v.len(),
        j < v.len() ==> v@[j as int] == c,
        forall|k: int| from <= k < j ==> v@[k] != c,
        j < v.len() ==> find_char(v@.skip(from as int), c) == Some(j - from),
        j == v.len() ==> find_char(v@.skip(from as int), c) == None::<int>,
{
    let mut j = from;
    while j < v.len() && v[j] != c
        invariant
            from <= j <= v.len(),
            forall|k: int| from <= k < j ==> v@[k] != c,
        decreases v.len() - j,
    {
        j = j + 1;
    }
    proof {
        let t = v@.skip(from as int);
        assert forall|k: int| 0 <= k < j - from implies #[trigger] t[k] != c by {
            assert(t[k] == v@[k + from]);
        }
        lemma_find_char(t, c, j - from);
    }
    j
}

/// The texts held by a sequence of character vectors.
pub open spec fn views(s: Seq<Vec<char>>) -> Seq<Seq<char>> {
    s.map_values(|p: Vec<char>| p@)
}

/// Splits `v` on `sep`, like `str::split`.
pub fn split_chars(v: &Vec<char>, sep: char) -> (r: Vec<Vec<char>>)
    ensures
        views(r@) == split_on(v@, sep),
        r.len() >= 1,
{
    let mut r: Vec<Vec<char>> = Vec::new();
    let mut start: usize = 0;
    assert(v@.skip(0) =~= v@);
    assert(r@.map_values(|p: Vec<char>| p@) + split_on(v@, sep) =~= split_on(v@, sep));
    loop
        invariant
            start <= v.len(),
            r@.map_values(|p: Vec<char>| p@) + split_on(v@.skip(start as int), sep) == split_on(
                v@,
                sep,
            ),
        decreases v.len() - start,
    {
        let j = next_char(v, start, sep);
        let piece = slice_chars(v, start, j);
        let ghost t = v@.skip(start as int);
        let ghost old_r = r@;
        r.push(piece);
        if j == v.len() {
            proof {
                assert(t =~= piece@);
                assert(r@.map_values(|p: Vec<char>| p@) =~= old_r.map_values(|p: Vec<char>| p@)
                    + seq![piece@]);
            }
            return r;
        }
        proof {
            let i = j - start;
            assert(t.take(i) =~= piece@);
            assert(t.skip(i + 1) =~= v@.skip(j + 1));
            assert(r@.map_values(|p: Vec<char>| p@) =~= old_r.map_values(|p: Vec<char>| p@)
                + seq![piece@]);
            assert(split_on(t, sep) == seq![t.take(i)] + split_on(t.skip(i + 1), sep));
        }
        start = j + 1;
    }
}

/// The part of `s` before the first `sep`, and the rest after it (`splitn(2, sep)`).
pub open spec fn split_once(s: Seq<char>, sep: char) -> (Seq<char>, Option<Seq<char>>) {
    match find_char(s, sep) {
        Some(i) => (s.take(i), Some(s.skip(i + 1))),
        None => (s, None),
    }
}

pub fn split_once_chars(v: &Vec<char>, sep: char) -> (r: (Vec<char>, Option<Vec<char>>))
    ensures
        r.0@ == split_once(v@, sep).0,
        r.1.is_some() == split_once(v@, sep).1.is_some(),
        r.1 matches Some(rest) ==> rest@ == split_once(v@, sep).1.unwrap(),
{
    let j = next_char(v, 0, sep);
    proof {
        assert(v@.skip(0) =~= v@);
    }
    if j < v.len() {
        let a = slice_chars(v, 0, j);
        let b = slice_chars(v, j + 1, v.len());
        proof {
            assert(a@ =~= v@.take(j as int));
            assert(b@ =~= v@.skip(j + 1));
        }
        (a, Some(b))
    } else {
        let a = slice_chars(v, 0, v.len());
        assert(a@ =~= v@);
        (a, None)
    }
}

/// Whether `pat` occurs in `s` starting at position `i`.
pub open spec fn occurs_at(s: Seq<char>, i: int, pat: Seq<char>) -> bool {
    0 <= i && i + pat.len() <= s.len() && s.subrange(i, i + pat.len()) == pat
}

pub fn matches_at(v: &Vec<char>, i: usize, pat: &Vec<char>) -> (r: bool)
    ensures
        r == occurs_at(v@, i as int, pat@),
{
    if i > v.len() || pat.len() > v.len() - i {
        return false;
    }
    let mut k: usize = 0;
    while k < pat.len()
        invariant
            i + pat.len() <= v.len(),
            k <= pat.len(),
            forall|m: int| 0 <= m < k ==> v@[i + m] == pat@[m],
        decreases pat.len() - k,
    {
        if v[i + k] != pat[k] {
            assert(v@.subrange(i as int, i + pat.len())[k as int] != pat@[k as int]);
            return false;
        }
        k = k + 1;
    }
    assert(v@.subrange(i as int, i + pat.len()) =~= pat@);
    true
}

/// Whether `s` begins with `pat`.
pub open spec fn starts_with(s: Seq<char>, pat: Seq<char>) -> bool {
    pat.len() <= s.len() && s.take(pat.len() as int) == pat
}

pub fn starts_with_chars(v: &Vec<char>, pat: &Vec<char>) -> (r: bool)
    ensures
        r == starts_with(v@, pat@),
{
    let r = matches_at(v, 0, pat);
    assert(v@.subrange(0, pat@.len() as int) =~= v@.take(pat@.len() as int));
    r
}

/// Start of the last occurrence of `pat` in `s`.
pub open spec fn last_occurrence(s: Seq<char>, pat: Seq<char>) -> Option<int> {
    if exists|i: int| occurs_at(s, i, pat) {
        Some(choose|i: int| occurs_at(s, i, pat) && forall|j: int| occurs_at(s, j, pat) ==> j <= i)
    } else {
        None
    }
}

/// Position of the last occurrence of `pat` in `v` (`str::rfind`).
pub fn rfind_chars(v: &Vec<char>, pat: &Vec<char>) -> (r: Option<usize>)
    ensures
        r.is_some() == (exists|i: int| occurs_at(v@, i, pat@)),
        r matches Some(i) ==> occurs_at(v@, i as int, pat@) && forall|j: int|
            occurs_at(v@, j, pat@) ==> j <= i,
        r matches Some(i) ==> last_occurrence(v@, pat@) == Some(i as int),
{
    if pat.len() > v.len() {
        return None;
    }
    let mut i: usize = v.len() - pat.len();
    loop
        invariant
            pat.len() <= v.len(),
            i <= v.len() - pat.len(),
            forall|j: int| i < j ==> !occurs_at(v@, j, pat@),
        decreases i,
    {
        if matches_at(v, i, pat) {
            let k = i;
            proof {
                let w = choose|w: int|
                    occurs_at(v@, w, pat@) && forall|j: int| occurs_at(v@, j, pat@) ==> j <= w;
                assert(occurs_at(v@, w, pat@) && forall|j: int| occurs_at(v@, j, pat@) ==> j
                    <= w) by {
                    assert(occurs_at(v@, k as int, pat@) && forall|j: int|
                        occurs_at(v@, j, pat@) ==> j <= k);
                }
                assert(w <= k);
            }
            return Some(k);
        }
        if i == 0 {
            return None;
        }
        i = i - 1;
    }
}

// ---------------------------------------------------------------------------
// Decimal numbers (`FromStr` and `Display` of the integer types)
// ---------------------------------------------------------------------------

pub open spec fn is_digit(c: char) -> bool {
    48 <= (c as u32) <= 57
}

pub open spec fn digit_val(c: char) -> nat {
    ((c as u32) - 48) as nat
}

pub open spec fn all_digits(s: Seq<char>) -> bool {
    forall|i: int| 0 <= i < s.len() ==> is_digit(#[trigger] s[i])
}

/// Value of a string of decimal digits.
pub open spec fn digits_value(s: Seq<char>) -> nat
    decreases s.len(),
{
    if s.len() == 0 {
        0
    } else {
        digits_value(s.drop_last()) * 10 + digit_val(s.last())
    }
}

/// `s` without one leading `+`.
pub open spec fn strip_plus(s: Seq<char>) -> Seq<char> {
    if s.len() > 0 && s[0] == '+' {
        s.drop_first()
    } else {
        s
    }
}

/// What `str::parse` gives for an unsigned integer type whose largest value is `max`.
pub open spec fn parse_nat(s: Seq<char>, max: int) -> Option<nat> {
    let b = strip_plus(s);
    if b.len() > 0 && all_digits(b) && digits_value(b) <= max {
        Some(digits_value(b))
    } else {
        None
    }
}

/// What `str::parse` gives for a signed integer type with range `[min, max]`.
pub open spec fn parse_int(s: Seq<char>, min: int, max: int) -> Option<int> {
    if s.len() > 0 && s[0] == '-' {
        let b = s.drop_first();
        if b.len() > 0 && all_digits(b) && -digits_value(b) >= min {
            Some(-digits_value(b))
        } else {
            None
        }
    } else {
        match parse_nat(s, max) {
            Some(n) => Some(n as int),
            None => None,
        }
    }
}

proof fn lemma_digits_value_prefix(s: Seq<char>, k: int)
    requires
        0 <= k <= s.len(),
        all_digits(s),
    ensures
        digits_value(s.take(k)) <= digits_value(s),
    decreases s.len(),
{
    if k < s.len() {
        assert(s.drop_last().take(k) =~= s.take(k));
        assert(all_digits(s.drop_last())) by {
            assert forall|i: int| 0 <= i < s.drop_last().len() implies is_digit(
                #[trigger] s.drop_last()[i],
            ) by {
                assert(s.drop_last()[i] == s[i]);
            }
        }
        lemma_digits_value_prefix(s.drop_last(), k);
    } else {
        assert(s.take(k) =~= s);
    }
}

/// Reads the digits of `v[from..]` as a number no larger than `max`.
fn digits_upto(v: &Vec<char>, from: usize, max: u64) -> (r: Option<u64>)
    requires
        from <= v.len(),
    ensures
        ({
            let b = v@.skip(from as int);
            r == if all_digits(b) && digits_value(b) <= max {
                Some(digits_value(b) as u64)
            } else {
                None::<u64>
            }
        }),
{
    let ghost b = v@.skip(from as int);
    let mut acc: u64 = 0;
    let mut i = from;
    while i < v.len()
        invariant
            from <= i <= v.len(),
            b == v@.skip(from as int),
            all_digits(b.take(i - from)),
            acc == digits_value(b.take(i - from)),
            acc <= max,
        decreases v.len() - i,
    {
        let c = v[i];
        let u = c as u32;
        let ghost pre = b.take(i - from);
        let ghost nxt = b.take(i - from + 1);
        assert(nxt.drop_last() =~= pre);
        assert(nxt.last() == c);
        if u < 48 || u > 57 {
            assert(!all_digits(b)) by {
                assert(b[i - from] == c);
            }
            return None;
        }
        let d = (u - 48) as u64;
        let next = (acc as u128) * 10 + (d as u128);
        if next > max as u128 {
            proof {
                if all_digits(b) {
                    lemma_digits_value_prefix(b, i - from + 1);
                }
            }
            return None;
        }
        acc = next as u64;
        i = i + 1;
        assert(all_digits(b.take(i - from))) by {
            assert forall|k: int| 0 <= k < nxt.len() implies is_digit(#[trigger] nxt[k]) by {
                if k < pre.len() {
                    assert(nxt[k] == pre[k]);
                }
            }
        }
    }
    assert(b.take(i - from) =~= b);
    Some(acc)
}

/// `str::parse` for an unsigned integer type whose largest value is `max`.
pub fn parse_unsigned(v: &Vec<char>, max: u64) -> (r: Option<u64>)
    ensures
        r matches Some(n) ==> parse_nat(v@, max as int) == Some(n as nat),
        r is None ==> parse_nat(v@, max as int) is None,
{
    let from: usize = if v.len() > 0 && v[0] == '+' {
        1
    } else {
        0
    };
    proof {
        if from == 1 {
            assert(v@.skip(1) =~= v@.drop_first());
        } else {
            assert(v@.skip(0) =~= v@);
        }
    }
    if from >= v.len() {
        return None;
    }
    digits_upto(v, from, max)
}

/// `str::parse::<i64>`.
pub fn parse_i64(v: &Vec<char>) -> (r: Option<i64>)
    ensures
        r matches Some(n) ==> parse_int(v@, i64::MIN as int, i64::MAX as int) == Some(n as int),
        r is None ==> parse_int(v@, i64::MIN as int, i64::MAX as int) is None,
{
    if v.len() > 0 && v[0] == '-' {
        assert(v@.skip(1) =~= v@.drop_first());
        if v.len() == 1 {
            return None;
        }
        match digits_upto(v, 1, 9223372036854775808u64) {
            Some(n) => {
                let m = (0i128 - (n as i128)) as i64;
                Some(m)
            },
            None => None,
        }
    } else {
        match parse_unsigned(v, i64::MAX as u64) {
            Some(n) => Some(n as i64),
            None => None,
        }
    }
}

/// The decimal digit character for `d < 10`.
pub open spec fn digit_char(d: nat) -> char {
    if d == 0 {
        '0'
    } else if d == 1 {
        '1'
    } else if d == 2 {
        '2'
    } else if d == 3 {
        '3'
    } else if d == 4 {
        '4'
    } else if d == 5 {
        '5'
    } else if d == 6 {
        '6'
    } else if d == 7 {
        '7'
    } else if d == 8 {
        '8'
    } else {
        '9'
    }
}

fn digit_of(d: u64) -> (c: char)
    requires
        d < 10,
    ensures
        c == digit_char(d as nat),
{
    if d == 0 {
        '0'
    } else if d == 1 {
        '1'
    } else if d == 2 {
        '2'
    } else if d == 3 {
        '3'
    } else if d == 4 {
        '4'
    } else if d == 5 {
        '5'
    } else if d == 6 {
        '6'
    } else if d == 7 {
        '7'
    } else if d == 8 {
        '8'
    } else {
        '9'
    }
}

/// Decimal text of `n`, as `Display` writes it.
pub open spec fn decimal(n: nat) -> Seq<char>
    decreases n,
{
    if n < 10 {
        seq![digit_char(n)]
    } else {
        decimal(n / 10).push(digit_char(n % 10))
    }
}

/// The decimal text of a number reads back as that number.
pub proof fn lemma_decimal_parses(n: nat, max: int)
    requires
        n <= max,
    ensures
        parse_nat(decimal(n), max) == Some(n),
{
    lemma_decimal_digits(n);
}

proof fn lemma_decimal_digits(n: nat)
    ensures
        decimal(n).len() > 0,
        all_digits(decimal(n)),
        digits_value(decimal(n)) == n,
    decreases n,
{
    if n < 10 {
        let s = decimal(n);
        assert(s.drop_last() =~= Seq::<char>::empty());
        assert(digits_value(s.drop_last()) == 0);
    } else {
        lemma_decimal_digits(n / 10);
        let s = decimal(n);
        let p = decimal(n / 10);
        assert(s.drop_last() =~= p);
        assert(s.last() == digit_char(n % 10));
        assert forall|i: int| 0 <= i < s.len() implies is_digit(#[trigger] s[i]) by {
            if i < p.len() {
                assert(s[i] == p[i]);
            }
        }
    }
}

/// Decimal text of a signed value, as `Display` writes it.
pub open spec fn decimal_int(n: int) -> Seq<char> {
    if n < 0 {
        seq!['-'] + decimal((-n) as nat)
    } else {
        decimal(n as nat)
    }
}

/// Decimal characters of `n` (`u64::to_string`).
pub fn u64_chars(n: u64) -> (r: Vec<char>)
    ensures
        r@ == decimal(n as nat),
{
    let mut suffix: Vec<char> = Vec::new();
    let mut m = n;
    while m >= 10
        invariant
            decimal(n as nat) == decimal(m as nat) + suffix@,
        decreases m,
    {
        let d = m % 10;
        let c = digit_of(d);
        let ghost old_suffix = suffix@;
        suffix.insert(0, c);
        assert(decimal(m as nat) == decimal((m / 10) as nat).push(digit_char((m % 10) as nat)));
        m = m / 10;
        assert(decimal(n as nat) =~= decimal(m as nat) + suffix@);
    }
    let mut r: Vec<char> = Vec::new();
    r.push(digit_of(m));
    push_all(&mut r, &suffix);
    r
}

/// Decimal characters of `n` (`i64::to_string`).
pub fn i64_chars(n: i64) -> (r: Vec<char>)
    ensures
        r@ == decimal_int(n as int),
{
    if n < 0 {
        let m = (0i128 - (n as i128)) as u64;
        let digits = u64_chars(m);
        let mut r: Vec<char> = Vec::new();
        r.push('-');
        push_all(&mut r, &digits);
        r
    } else {
        u64_chars(n as u64)
    }
}

/// `u64::to_string`.
pub fn u64_string(n: u64) -> (s: String)
    ensures
        s@ == decimal(n as nat),
{
    let v = u64_chars(n);
    string_of(v.as_slice())
}

/// `i64::to_string`.
pub fn i64_string(n: i64) -> (s: String)
    ensures
        s@ == decimal_int(n as int),
{
    let v = i64_chars(n);
    string_of(v.as_slice())
}

// ---------------------------------------------------------------------------
// Unicode case mapping (std's `str::to_uppercase` / `str::to_lowercase`)
// ---------------------------------------------------------------------------

/// What `str::to_uppercase` returns for the given text.
pub uninterp spec fn upper_text(s: Seq<char>) -> Seq<char>;

/// What `str::to_lowercase` returns for the given text.
pub uninterp spec fn lower_text(s: Seq<char>) -> Seq<char>;

pub open spec fn is_ascii_char(c: char) -> bool {
    (c as u32) < 128
}

pub open spec fn all_ascii(s: Seq<char>) -> bool {
    forall|i: int| 0 <= i < s.len() ==> is_ascii_char(#[trigger] s[i])
}

/// ASCII upper-case of one character.
pub open spec fn ascii_upper(c: char) -> char {
    if 97 <= (c as u32) <= 122 {
        (((c as u32) - 32) as u32) as char
    } else {
        c
    }
}

/// ASCII lower-case of one character.
pub open spec fn ascii_lower(c: char) -> char {
    if 65 <= (c as u32) <= 90 {
        (((c as u32) + 32) as u32) as char
    } else {
        c
    }
}

/// `str::to_uppercase`: full Unicode upper-case mapping, named `upper_text`
/// of the input. On ASCII text the Unicode mapping is the ASCII one, which is
/// all that is claimed beyond the name.
#[verifier::external_body]
pub(crate) fn to_upper(s: &str) -> (r: String)
    ensures
        r@ == upper_text(s@),
        all_ascii(s@) ==> r@ == s@.map_values(|c: char| ascii_upper(c)),
{
    s.to_uppercase()
}

/// `str::to_lowercase`: full Unicode lower-case mapping, named `lower_text`
/// of the input. On ASCII text the Unicode mapping is the ASCII one, which is
/// all that is claimed beyond the name.
#[verifier::external_body]
pub(crate) fn to_lower(s: &str) -> (r: String)
    ensures
        r@ == lower_text(s@),
        all_ascii(s@) ==> r@ == s@.map_values(|c: char| ascii_lower(c)),
{
    s.to_lowercase()
}

} // verus!
