//! Response-body templates: `{{fn}}`, `{{fn:arg}}` and `{{fn:arg1:arg2}}`
//! placeholders, evaluated on every request.
use rand::Rng;
use vstd::prelude::*;

use crate::text::{
    chars_of, contains_char, decimal_int, eq_str, has_char, i64_chars, parse_i64, parse_int, parse_nat,
    parse_unsigned, push_all, slice_chars, split_chars, split_on, split_once,
    split_once_chars, starts_with, string_of, trim, trim_chars, views, lemma_find_char_result,
};

verus! {

// ---------------------------------------------------------------------------
// Scanning a body into literal text and placeholder calls
// ---------------------------------------------------------------------------

/// One piece of a template body.
pub enum Piece {
    /// Text copied to the output as it stands.
    Text(Seq<char>),
    /// The expression between `{{` and the next `}}`.
    Call(Seq<char>),
}

/// Whether `}}` starts at position `j` of `s`.
pub open spec fn closes_at(s: Seq<char>, j: int) -> bool {
    0 <= j && j + 1 < s.len() && s[j] == '}' && s[j + 1] == '}'
}

/// The first position at or after `j` where `}}` starts.
pub open spec fn find_close(s: Seq<char>, j: int) -> Option<int>
    decreases s.len() - j,
{
    if j < 0 || j + 1 >= s.len() {
        None
    } else if closes_at(s, j) {
        Some(j)
    } else {
        find_close(s, j + 1)
    }
}

/// The pieces of a template body, scanned from the left: `{{` opens a call
/// that runs to the next `}}`; an opening `{{` with no closing `}}` after it
/// is literal text.
pub open spec fn pieces(s: Seq<char>) -> Seq<Piece>
    decreases s.len(),
{
    if s.len() == 0 {
        seq![]
    } else if s.len() >= 2 && s[0] == '{' && s[1] == '{' {
        match find_close(s, 2) {
            Some(j) => if 2 <= j <= s.len() - 2 {
                seq![Piece::Call(s.subrange(2, j))] + pieces(s.skip(j + 2))
            } else {
                seq![]
            },
            None => seq![Piece::Text(seq!['{', '{'])] + pieces(s.skip(2)),
        }
    } else {
        seq![Piece::Text(seq![s[0]])] + pieces(s.drop_first())
    }
}

/// The output for pieces `ps` when the calls produced `outs` (one entry per
/// piece; entries of text pieces are not read).
pub open spec fn assemble(ps: Seq<Piece>, outs: Seq<Seq<char>>) -> Seq<char>
    decreases ps.len(),
{
    if ps.len() == 0 {
        seq![]
    } else {
        let head = match ps[0] {
            Piece::Text(t) => t,
            Piece::Call(_) => outs[0],
        };
        head + assemble(ps.drop_first(), outs.drop_first())
    }
}

proof fn lemma_find_close(s: Seq<char>, a: int, b: int)
    requires
        0 <= a <= b,
        forall|k: int| a <= k < b ==> !closes_at(s, k),
        b + 1 >= s.len() || closes_at(s, b),
    ensures
        find_close(s, a) == (if b + 1 >= s.len() {
            None::<int>
        } else {
            Some(b)
        }),
    decreases b - a,
{
    if a < b {
        lemma_find_close(s, a + 1, b);
    }
}

proof fn lemma_assemble_push(ps: Seq<Piece>, outs: Seq<Seq<char>>, p: Piece, o: Seq<char>)
    requires
        ps.len() == outs.len(),
    ensures
        assemble(ps.push(p), outs.push(o)) == assemble(ps, outs) + (match p {
            Piece::Text(t) => t,
            Piece::Call(_) => o,
        }),
    decreases ps.len(),
{
    if ps.len() == 0 {
        assert(ps.push(p).drop_first() =~= seq![]);
        assert(outs.push(o).drop_first() =~= seq![]);
        assert(ps.push(p)[0] == p);
        assert(outs.push(o)[0] == o);
        assert(assemble(ps, outs) =~= seq![]);
        assert(assemble(ps.push(p).drop_first(), outs.push(o).drop_first()) =~= seq![]);
        assert(assemble(ps.push(p), outs.push(o)) =~= (match p {
            Piece::Text(t) => t,
            Piece::Call(_) => o,
        }));
    } else {
        assert(ps.push(p).drop_first() =~= ps.drop_first().push(p));
        assert(outs.push(o).drop_first() =~= outs.drop_first().push(o));
        lemma_assemble_push(ps.drop_first(), outs.drop_first(), p, o);
        assert(assemble(ps.push(p), outs.push(o)) =~= assemble(ps, outs) + (match p {
            Piece::Text(t) => t,
            Piece::Call(_) => o,
        }));
    }
}

// ---------------------------------------------------------------------------
// Built-in functions
// ---------------------------------------------------------------------------

/// Characters `{{randomString}}` draws from.
pub const ALNUM: &'static str = "abcdefghijklmnopqrstuvwxyzABCDEFGHIJKLMNOPQRSTUVWXYZ0123456789";

/// About a thousand commonly used simplified Chinese characters (with some
/// repeats); `{{randomChinese}}` draws from the distinct ones.
pub const CHINESE_POOL: &'static str = "的一是在不了有和人这中大为上个国我以要他时来用们生到作地于出就分对成会可主发年动同工也能下过子说产种面而方后多定行学法所民得经十三之进着等部度家电力里如水化高自二理起小物现实加量都两体制机当使点从业本去把性好应开它合还因由其些然前外天政四日那社义事平形相全表间样与关各重新线内数正心力无已当收感次系明信看提问先做件接报带结没每公原你月好意最行单员走何字特总目通保始建式程规完论代活太变世展整据处运研管教较图指将认决则情化向基转单步所调设计组长手记市美特区起命色比期解知名该立示快别百支确级质改强调力达连路真般属立花科技解史标格革命属科技路真般花史格值示权解放院委委书记党军队长首称号级科处级段话求院校场院医馆区站台港桥路街道村镇县市省区级党委政府军队机关团体单位公司企业学校医院工厂农场银行商店餐厅旅馆宾馆机场港口码头父母兄弟姐妹夫妻儿女朋友同志领导群众阶级民族人民公民百姓官员战士教师医生工人农民学生商人今昨明早晚午夜朝暮春夏秋冬前后左右东西南北上下内外远近高低长短快慢早晚新旧大小多少走跑跳飞游泳唱跳笑哭爱恨喜怒哀乐看听说读写画想知道理解记忘学习工作休息睡醒吃喝穿脱拿放开关进出上下来去回送接推拉打击切断折弯拉推摔扔抓握举放送接拖拉揉搓按摩捏挤压折断切割美丑善恶真假虚实强弱软硬冷热明暗轻重厚薄宽窄深浅清浊纯杂整乱干净脏白黑红绿蓝黄紫橙粉灰棕零一二三四五六七八九十百千万亿些许多少很太极非常特别尤其格外相当比较稍微略微大约几乎和或但而且并且虽然但是因为所以如果那么只有才能既然就算即使哪怕除非否则不管无论反正总之水火土木金风雨雪云雷电山河海湖江河树草花果根茎叶种子动物植物细菌病毒空气土地阳光温度家庭社会国家民族世界历史文化教育科学技术经济政治法律军事艺术体育卫生环境资源能源信息网络";

/// The strftime format for a Java-style date pattern, read once from the
/// left: `yyyy`, `MM`, `dd`, `HH`, `mm`, `SS` and `ss` become `%Y`, `%m`,
/// `%d`, `%H`, `%M`, `%S` and `%S`; other characters are copied. What one
/// token becomes is never read again, so `MMmm` is `%m%M`.
pub open spec fn java_strftime(s: Seq<char>) -> Seq<char>
    decreases s.len(),
{
    if s.len() == 0 {
        seq![]
    } else if starts_with(s, seq!['y', 'y', 'y', 'y']) {
        seq!['%', 'Y'] + java_strftime(s.skip(4))
    } else if starts_with(s, seq!['M', 'M']) {
        seq!['%', 'm'] + java_strftime(s.skip(2))
    } else if starts_with(s, seq!['d', 'd']) {
        seq!['%', 'd'] + java_strftime(s.skip(2))
    } else if starts_with(s, seq!['H', 'H']) {
        seq!['%', 'H'] + java_strftime(s.skip(2))
    } else if starts_with(s, seq!['m', 'm']) {
        seq!['%', 'M'] + java_strftime(s.skip(2))
    } else if starts_with(s, seq!['S', 'S']) || starts_with(s, seq!['s', 's']) {
        seq!['%', 'S'] + java_strftime(s.skip(2))
    } else {
        seq![s[0]] + java_strftime(s.drop_first())
    }
}

/// Whether the two characters at `i` are `c`, `c`.
fn doubled_at(v: &Vec<char>, i: usize, c: char) -> (r: bool)
    requires
        i < v.len(),
    ensures
        r == starts_with(v@.skip(i as int), seq![c, c]),
{
    let r = i + 1 < v.len() && v[i] == c && v[i + 1] == c;
    proof {
        let t = v@.skip(i as int);
        if i + 1 < v.len() {
            assert(t.take(2) =~= seq![v@[i as int], v@[i + 1]]);
        }
    }
    r
}

/// Converts a Java-style date pattern to a strftime format (see
/// `java_strftime`).
pub fn java_to_strftime(fmt: &str) -> (r: String)
    ensures
        r@ == java_strftime(fmt@),
{
    let v = chars_of(fmt);
    let mut out: Vec<char> = Vec::new();
    let mut i: usize = 0;
    assert(v@.skip(0) =~= v@);
    while i < v.len()
        invariant
            i <= v.len(),
            java_strftime(v@) == out@ + java_strftime(v@.skip(i as int)),
        decreases v.len() - i,
    {
        let ghost t = v@.skip(i as int);
        let ghost before = out@;
        let year = v.len() - i > 3 && v[i] == 'y' && v[i + 1] == 'y' && v[i + 2] == 'y' && v[i + 3] == 'y';
        proof {
            if i + 3 < v.len() {
                assert(t.take(4) =~= seq![v@[i as int], v@[i + 1], v@[i + 2], v@[i + 3]]);
            }
            assert(year == starts_with(t, seq!['y', 'y', 'y', 'y']));
        }
        let step: usize;
        if year {
            out.push('%');
            out.push('Y');
            step = 4;
        } else if doubled_at(&v, i, 'M') {
            out.push('%');
            out.push('m');
            step = 2;
        } else if doubled_at(&v, i, 'd') {
            out.push('%');
            out.push('d');
            step = 2;
        } else if doubled_at(&v, i, 'H') {
            out.push('%');
            out.push('H');
            step = 2;
        } else if doubled_at(&v, i, 'm') {
            out.push('%');
            out.push('M');
            step = 2;
        } else if doubled_at(&v, i, 'S') || doubled_at(&v, i, 's') {
            out.push('%');
            out.push('S');
            step = 2;
        } else {
            out.push(v[i]);
            step = 1;
        }
        proof {
            assert(t.skip(step as int) =~= v@.skip(i + step));
            assert(t.drop_first() =~= v@.skip(i + 1));
            assert(t[0] == v@[i as int]);
            if step == 1 {
                assert(out@ =~= before + seq![t[0]]);
            }
        }
        assert(java_strftime(v@) == out@ + java_strftime(v@.skip(i + step)));
        i = i + step;
    }
    assert(java_strftime(v@.skip(i as int)) =~= seq![]);
    assert(out@ =~= out@ + Seq::<char>::empty());
    string_of(out.as_slice())
}

/// The pieces of a call expression, split on `:`.
pub open spec fn call_parts(expr: Seq<char>) -> Seq<Seq<char>> {
    split_on(expr, ':')
}

/// The function a call names: its first piece, trimmed.
pub open spec fn call_name(expr: Seq<char>) -> Seq<char> {
    trim(call_parts(expr)[0])
}

/// The strftime format a `date`, `time` or `datetime` call uses: the
/// pattern after the first `:` (which may hold further colons, as in
/// `HH:mm:ss`), or the call's default when there is none.
pub open spec fn time_format_spec(expr: Seq<char>) -> Option<Seq<char>> {
    let name = call_name(expr);
    if name == "date"@ || name == "time"@ || name == "datetime"@ {
        if let Some(pattern) = split_once(expr, ':').1 {
            Some(java_strftime(pattern))
        } else if name == "date"@ {
            Some("%Y%m%d"@)
        } else if name == "time"@ {
            Some("%H%M%S"@)
        } else {
            Some("%Y%m%d%H%M%S"@)
        }
    } else {
        None
    }
}

/// Integer argument `k` of a call, or `default` when it is missing or does
/// not parse as an `i64`.
pub open spec fn int_arg(parts: Seq<Seq<char>>, k: int, default: int) -> int {
    if k < parts.len() {
        match parse_int(parts[k], i64::MIN as int, i64::MAX as int) {
            Some(n) => n,
            None => default,
        }
    } else {
        default
    }
}

/// Length argument `k` of a call, or `default` when it is missing or does
/// not parse as a `usize`.
pub open spec fn len_arg(parts: Seq<Seq<char>>, k: int, default: nat) -> nat {
    if k < parts.len() {
        match parse_nat(parts[k], usize::MAX as int) {
            Some(n) => n,
            None => default,
        }
    } else {
        default
    }
}

/// Argument `k` of a call as handed to the `randomFloat` generator.
pub open spec fn text_arg(parts: Seq<Seq<char>>, k: int) -> Option<Seq<char>> {
    if k < parts.len() {
        Some(parts[k])
    } else {
        None
    }
}

pub open spec fn opt_view(a: Option<String>) -> Option<Seq<char>> {
    match a {
        Some(s) => Some(s@),
        None => None,
    }
}

/// Lower-case hexadecimal digit.
pub open spec fn is_lower_hex(c: char) -> bool {
    (48 <= (c as u32) <= 57) || (97 <= (c as u32) <= 102)
}

/// Text of a random (version 4) UUID in hyphenated lower-case form.
pub open spec fn uuid_v4_text(s: Seq<char>) -> bool {
    &&& s.len() == 36
    &&& forall|i: int|
        0 <= i < 36 ==> if i == 8 || i == 13 || i == 18 || i == 23 {
            s[i] == '-'
        } else {
            is_lower_hex(#[trigger] s[i])
        }
    &&& s[14] == '4'
    &&& (s[19] == '8' || s[19] == '9' || s[19] == 'a' || s[19] == 'b')
}

/// Whether evaluating the call `expr` can go ahead: `randomInt` needs
/// `min <= max`, and a date or time call needs a format that chrono accepts.
pub open spec fn call_defined(expr: Seq<char>) -> bool {
    let parts = call_parts(expr);
    let name = call_name(expr);
    match time_format_spec(expr) {
        Some(fmt) => strftime_valid(fmt),
        None => name == "randomInt"@ ==> int_arg(parts, 1, 0) <= int_arg(parts, 2, 100),
    }
}

/// What a call may produce: `out` is one of the outputs the call can give.
pub open spec fn call_output<F: Fn(Option<String>, Option<String>, Option<String>) -> String>(
    random_float: F,
    expr: Seq<char>,
    out: Seq<char>,
) -> bool {
    let parts = call_parts(expr);
    let name = call_name(expr);
    if let Some(fmt) = time_format_spec(expr) {
        // the local time when the call is made, in the call's format
        exists|t: LocalStamp| #[trigger] local_formatted(t.secs, t.nanos, t.offset, fmt) == out
    } else if name == "randomInt"@ {
        exists|r: int| int_arg(parts, 1, 0) <= r <= int_arg(parts, 2, 100) && out == decimal_int(r)
    } else if name == "randomFloat"@ {
        exists|a: Option<String>, b: Option<String>, c: Option<String>, s: String|
            #![trigger random_float.ensures((a, b, c), s)]
            opt_view(a) == text_arg(parts, 1) && opt_view(b) == text_arg(parts, 2) && opt_view(c)
                == text_arg(parts, 3) && random_float.ensures((a, b, c), s) && s@ == out
    } else if name == "randomString"@ {
        out.len() == len_arg(parts, 1, 10) && forall|k: int|
            0 <= k < out.len() ==> has_char(ALNUM@, #[trigger] out[k])
    } else if name == "randomChinese"@ {
        out.len() == len_arg(parts, 1, 15) && forall|k: int|
            0 <= k < out.len() ==> has_char(CHINESE_POOL@, #[trigger] out[k])
    } else if name == "uuid"@ {
        uuid_v4_text(out)
    } else {
        out == "{{"@ + expr + "}}"@
    }
}

/// Every call in the body can be evaluated.
pub open spec fn render_defined(body: Seq<char>) -> bool {
    forall|k: int|
        0 <= k < pieces(body).len() ==> (#[trigger] pieces(body)[k] matches Piece::Call(e)
            ==> call_defined(e))
}

/// `out` is a rendering of `body`: text pieces copied, each call replaced by
/// one of its possible outputs.
pub open spec fn rendering<F: Fn(Option<String>, Option<String>, Option<String>) -> String>(
    random_float: F,
    body: Seq<char>,
    out: Seq<char>,
) -> bool {
    let ps = pieces(body);
    exists|outs: Seq<Seq<char>>|
        #![trigger assemble(ps, outs)]
        outs.len() == ps.len() && (forall|k: int|
            0 <= k < ps.len() ==> (#[trigger] ps[k] matches Piece::Call(e) ==> call_output(
                random_float,
                e,
                outs[k],
            ))) && out == assemble(ps, outs)
}

// --- outside calls ---------------------------------------------------------

/// Whether chrono accepts `fmt` as a strftime format, as
/// `StrftimeItems::new(fmt).parse()` decides it.
pub uninterp spec fn strftime_valid(fmt: Seq<char>) -> bool;

/// `chrono::format::StrftimeItems::parse`: tells whether the format holds no
/// unrecognised specifier; the answer is named `strftime_valid`.
#[verifier::external_body]
pub(crate) fn strftime_is_valid(fmt: &str) -> (b: bool)
    ensures
        b == strftime_valid(fmt@),
{
    chrono::format::StrftimeItems::new(fmt).parse().is_ok()
}

/// A moment as the local clock gives it: seconds and nanoseconds since the
/// Unix epoch, and the local offset from UTC in seconds.
pub struct LocalStamp {
    pub secs: i64,
    pub nanos: u32,
    pub offset: i32,
}

/// chrono's text, in format `fmt`, of the moment `secs` and `nanos` after
/// the Unix epoch at the offset `offset` from UTC (empty for a moment or
/// offset chrono does not accept).
pub uninterp spec fn local_formatted(secs: i64, nanos: u32, offset: i32, fmt: Seq<char>) -> Seq<char>;

/// `chrono::Local::now()`, read as its timestamp, sub-second nanoseconds and
/// offset from UTC. It is the time: nothing is claimed of it.
#[verifier::external_body]
fn local_now() -> (t: LocalStamp) {
    let n = chrono::Local::now();
    LocalStamp { secs: n.timestamp(), nanos: n.timestamp_subsec_nanos(), offset: n.offset().local_minus_utc() }
}

/// `chrono::DateTime::from_timestamp(secs, nanos)` taken to
/// `FixedOffset::east_opt(offset)` and written with `format(fmt)`; empty
/// when chrono accepts no such moment or offset. Writing with a format
/// chrono rejects panics, so the format must be valid. The text depends on
/// the stamp and the format alone and is named `local_formatted`.
#[verifier::external_body]
fn format_local(t: &LocalStamp, fmt: &str) -> (s: String)
    requires
        strftime_valid(fmt@),
    ensures
        s@ == local_formatted(t.secs, t.nanos, t.offset, fmt@),
{
    match chrono::DateTime::from_timestamp(t.secs, t.nanos).zip(chrono::FixedOffset::east_opt(t.offset)) {
        Some((u, o)) => u.with_timezone(&o).format(fmt).to_string(),
        None => String::new(),
    }
}

/// `rand::thread_rng().gen_range(min..=max)`: some integer in the closed
/// range (the range must not be empty, or rand panics).
#[verifier::external_body]
fn random_between(min: i64, max: i64) -> (r: i64)
    requires
        min <= max,
    ensures
        min <= r <= max,
{
    rand::thread_rng().gen_range(min..=max)
}

/// `rand::thread_rng().gen_range(0..bound)`: some index below `bound`.
#[verifier::external_body]
fn random_below(bound: usize) -> (r: usize)
    requires
        bound > 0,
    ensures
        r < bound,
{
    rand::thread_rng().gen_range(0..bound)
}

/// `uuid::Uuid::new_v4().to_string()`: a random UUID; uuid sets the version
/// nibble to 4 and the variant bits to `10`, and prints the hyphenated
/// lower-case form.
#[verifier::external_body]
fn new_uuid_v4() -> (s: String)
    ensures
        uuid_v4_text(s@),
{
    uuid::Uuid::new_v4().to_string()
}


// --- evaluation --------------------------------------------------------------

/// Text of `s` with, in order, each character that has not occurred before.
pub open spec fn first_occurrences(s: Seq<char>) -> Seq<char>
    decreases s.len(),
{
    if s.len() == 0 {
        seq![]
    } else {
        let p = first_occurrences(s.drop_last());
        if has_char(s.drop_last(), s.last()) {
            p
        } else {
            p.push(s.last())
        }
    }
}

proof fn lemma_first_occurrences(s: Seq<char>)
    ensures
        forall|c: char| has_char(first_occurrences(s), c) <==> has_char(s, c),
        s.len() > 0 ==> first_occurrences(s).len() > 0,
    decreases s.len(),
{
    if s.len() > 0 {
        let d = s.drop_last();
        lemma_first_occurrences(d);
        let p = first_occurrences(d);
        assert forall|c: char| has_char(first_occurrences(s), c) <==> has_char(s, c) by {
            if has_char(s, c) {
                let k = choose|k: int| 0 <= k < s.len() && s[k] == c;
                if k < d.len() {
                    assert(d[k] == c);
                    assert(has_char(d, c));
                    if !has_char(d, s.last()) {
                        let m = choose|m: int| 0 <= m < p.len() && p[m] == c;
                        assert(p.push(s.last())[m] == c);
                    }
                } else {
                    if has_char(d, s.last()) {
                    } else {
                        assert(p.push(s.last())[p.len() as int] == c);
                    }
                }
            }
            if has_char(first_occurrences(s), c) {
                if !has_char(d, s.last()) {
                    let m = choose|m: int| 0 <= m < p.len() + 1 && p.push(s.last())[m] == c;
                    if m < p.len() {
                        assert(p[m] == c);
                        assert(has_char(p, c));
                        assert(has_char(d, c));
                        let k = choose|k: int| 0 <= k < d.len() && d[k] == c;
                        assert(s[k] == c);
                    } else {
                        assert(s[s.len() - 1] == c);
                    }
                } else {
                    assert(has_char(p, c));
                    assert(has_char(d, c));
                    let k = choose|k: int| 0 <= k < d.len() && d[k] == c;
                    assert(s[k] == c);
                }
            }
        }
        if d.len() == 0 {
            assert(!has_char(d, s.last()));
        }
    }
}

/// The distinct characters of `v`, in order of first occurrence.
fn distinct_chars(v: &Vec<char>) -> (r: Vec<char>)
    ensures
        r@ == first_occurrences(v@),
{
    let mut r: Vec<char> = Vec::new();
    let mut i: usize = 0;
    while i < v.len()
        invariant
            i <= v.len(),
            r@ == first_occurrences(v@.take(i as int)),
        decreases v.len() - i,
    {
        let c = v[i];
        let ghost t = v@.take(i as int + 1);
        assert(t.drop_last() =~= v@.take(i as int));
        assert(t.last() == c);
        proof {
            lemma_first_occurrences(v@.take(i as int));
        }
        if !contains_char(&r, c) {
            r.push(c);
        }
        i = i + 1;
    }
    assert(v@.take(v.len() as int) =~= v@);
    r
}

/// `n` characters drawn at random from `pool`.
fn random_chars(pool: &Vec<char>, n: usize) -> (r: Vec<char>)
    requires
        pool.len() > 0,
    ensures
        r.len() == n,
        forall|k: int| 0 <= k < n ==> has_char(pool@, #[trigger] r@[k]),
{
    let mut r: Vec<char> = Vec::new();
    let mut i: usize = 0;
    while i < n
        invariant
            pool.len() > 0,
            i <= n,
            r.len() == i,
            forall|k: int| 0 <= k < i ==> has_char(pool@, #[trigger] r@[k]),
        decreases n - i,
    {
        let k = random_below(pool.len());
        let c = pool[k];
        assert(pool@[k as int] == c);
        r.push(c);
        i = i + 1;
    }
    r
}

fn int_arg_of(parts: &Vec<Vec<char>>, k: usize, default: i64) -> (r: i64)
    ensures
        r == int_arg(views(parts@), k as int, default as int),
{
    if k < parts.len() {
        assert(views(parts@)[k as int] == parts@[k as int]@);
        match parse_i64(&parts[k]) {
            Some(n) => n,
            None => default,
        }
    } else {
        default
    }
}

fn len_arg_of(parts: &Vec<Vec<char>>, k: usize, default: usize) -> (r: usize)
    ensures
        r == len_arg(views(parts@), k as int, default as nat),
{
    if k < parts.len() {
        assert(views(parts@)[k as int] == parts@[k as int]@);
        match parse_unsigned(&parts[k], usize::MAX as u64) {
            Some(n) => n as usize,
            None => default,
        }
    } else {
        default
    }
}

fn text_arg_of(parts: &Vec<Vec<char>>, k: usize) -> (r: Option<String>)
    ensures
        opt_view(r) == text_arg(views(parts@), k as int),
{
    if k < parts.len() {
        assert(views(parts@)[k as int] == parts@[k as int]@);
        Some(string_of(parts[k].as_slice()))
    } else {
        None
    }
}

/// Splits a call expression into its pieces and its trimmed name.
fn parse_call(expr: &Vec<char>) -> (r: (Vec<Vec<char>>, Vec<char>))
    ensures
        views(r.0@) == call_parts(expr@),
        r.0.len() >= 1,
        r.1@ == call_name(expr@),
{
    let parts = split_chars(expr, ':');
    assert(views(parts@)[0] == parts@[0]@);
    let name = trim_chars(&parts[0]);
    (parts, name)
}

fn time_format_of(expr: &Vec<char>, name: &Vec<char>) -> (r: Option<Vec<char>>)
    requires
        name@ == call_name(expr@),
    ensures
        r is Some == time_format_spec(expr@) is Some,
        r matches Some(f) ==> time_format_spec(expr@) == Some(f@),
{
    let is_date = eq_str(name, "date");
    let is_time = eq_str(name, "time");
    let is_datetime = eq_str(name, "datetime");
    if is_date || is_time || is_datetime {
        let (_, pattern) = split_once_chars(expr, ':');
        if let Some(p) = pattern {
            let s = string_of(p.as_slice());
            let f = java_to_strftime(s.as_str());
            Some(chars_of(f.as_str()))
        } else if is_date {
            Some(chars_of("%Y%m%d"))
        } else if is_time {
            Some(chars_of("%H%M%S"))
        } else {
            Some(chars_of("%Y%m%d%H%M%S"))
        }
    } else {
        None
    }
}

/// The strftime format a `date`, `time` or `datetime` call formats the
/// current time with; `None` for other calls.
pub fn time_format(expr: &str) -> (r: Option<String>)
    ensures
        opt_view(r) == time_format_spec(expr@),
{
    let e = chars_of(expr);
    let (_, name) = parse_call(&e);
    match time_format_of(&e, &name) {
        Some(f) => Some(string_of(f.as_slice())),
        None => None,
    }
}

/// Whether the call can be evaluated (see `call_defined`).
fn call_is_defined(expr: &Vec<char>) -> (b: bool)
    ensures
        b == call_defined(expr@),
{
    let (parts, name) = parse_call(expr);
    match time_format_of(expr, &name) {
        Some(f) => {
            let s = string_of(f.as_slice());
            strftime_is_valid(s.as_str())
        },
        None => {
            if eq_str(&name, "randomInt") {
                int_arg_of(&parts, 1, 0) <= int_arg_of(&parts, 2, 100)
            } else {
                true
            }
        },
    }
}

/// Evaluates one call.
fn eval<F: Fn(Option<String>, Option<String>, Option<String>) -> String>(
    expr: &Vec<char>,
    random_float: &F,
) -> (out: Vec<char>)
    requires
        call_defined(expr@),
        forall|a: Option<String>, b: Option<String>, c: Option<String>|
            random_float.requires((a, b, c)),
    ensures
        call_output(*random_float, expr@, out@),
{
    let (parts, name) = parse_call(expr);
    if let Some(f) = time_format_of(expr, &name) {
        let s = string_of(f.as_slice());
        let now = local_now();
        let t = format_local(&now, s.as_str());
        assert(local_formatted(now.secs, now.nanos, now.offset, f@) == t@);
        return chars_of(t.as_str());
    }
    if eq_str(&name, "randomInt") {
        let min = int_arg_of(&parts, 1, 0);
        let max = int_arg_of(&parts, 2, 100);
        let r = random_between(min, max);
        let out = i64_chars(r);
        assert(int_arg(call_parts(expr@), 1, 0) <= r <= int_arg(call_parts(expr@), 2, 100)
            && out@ == decimal_int(r as int));
        out
    } else if eq_str(&name, "randomFloat") {
        let a = text_arg_of(&parts, 1);
        let b = text_arg_of(&parts, 2);
        let c = text_arg_of(&parts, 3);
        let ghost (ga, gb, gc) = (a, b, c);
        let s = random_float(a, b, c);
        let out = chars_of(s.as_str());
        assert(random_float.ensures((ga, gb, gc), s));
        out
    } else if eq_str(&name, "randomString") {
        let n = len_arg_of(&parts, 1, 10);
        proof {
            reveal_strlit("abcdefghijklmnopqrstuvwxyzABCDEFGHIJKLMNOPQRSTUVWXYZ0123456789");
        }
        let pool = chars_of(ALNUM);
        random_chars(&pool, n)
    } else if eq_str(&name, "randomChinese") {
        let n = len_arg_of(&parts, 1, 15);
        let all = chars_of(CHINESE_POOL);
        let pool = distinct_chars(&all);
        proof {
            lemma_first_occurrences(all@);
        }
        if pool.len() == 0 {
            proof {
                assert(CHINESE_POOL@.len() > 0) by {
                    reveal_strlit("的一是在不了有和人这中大为上个国我以要他时来用们生到作地于出就分对成会可主发年动同工也能下过子说产种面而方后多定行学法所民得经十三之进着等部度家电力里如水化高自二理起小物现实加量都两体制机当使点从业本去把性好应开它合还因由其些然前外天政四日那社义事平形相全表间样与关各重新线内数正心力无已当收感次系明信看提问先做件接报带结没每公原你月好意最行单员走何字特总目通保始建式程规完论代活太变世展整据处运研管教较图指将认决则情化向基转单步所调设计组长手记市美特区起命色比期解知名该立示快别百支确级质改强调力达连路真般属立花科技解史标格革命属科技路真般花史格值示权解放院委委书记党军队长首称号级科处级段话求院校场院医馆区站台港桥路街道村镇县市省区级党委政府军队机关团体单位公司企业学校医院工厂农场银行商店餐厅旅馆宾馆机场港口码头父母兄弟姐妹夫妻儿女朋友同志领导群众阶级民族人民公民百姓官员战士教师医生工人农民学生商人今昨明早晚午夜朝暮春夏秋冬前后左右东西南北上下内外远近高低长短快慢早晚新旧大小多少走跑跳飞游泳唱跳笑哭爱恨喜怒哀乐看听说读写画想知道理解记忘学习工作休息睡醒吃喝穿脱拿放开关进出上下来去回送接推拉打击切断折弯拉推摔扔抓握举放送接拖拉揉搓按摩捏挤压折断切割美丑善恶真假虚实强弱软硬冷热明暗轻重厚薄宽窄深浅清浊纯杂整乱干净脏白黑红绿蓝黄紫橙粉灰棕零一二三四五六七八九十百千万亿些许多少很太极非常特别尤其格外相当比较稍微略微大约几乎和或但而且并且虽然但是因为所以如果那么只有才能既然就算即使哪怕除非否则不管无论反正总之水火土木金风雨雪云雷电山河海湖江河树草花果根茎叶种子动物植物细菌病毒空气土地阳光温度家庭社会国家民族世界历史文化教育科学技术经济政治法律军事艺术体育卫生环境资源能源信息网络");
                }
            }
            return Vec::new();
        }
        let out = random_chars(&pool, n);
        assert forall|k: int| 0 <= k < out@.len() implies has_char(
            CHINESE_POOL@,
            #[trigger] out@[k],
        ) by {
            assert(has_char(pool@, out@[k]));
        }
        out
    } else if eq_str(&name, "uuid") {
        let s = new_uuid_v4();
        chars_of(s.as_str())
    } else {
        let mut out: Vec<char> = Vec::new();
        out.push('{');
        out.push('{');
        push_all(&mut out, expr);
        out.push('}');
        out.push('}');
        proof {
            reveal_strlit("{{");
            reveal_strlit("}}");
        }
        assert(out@ =~= "{{"@ + expr@ + "}}"@);
        out
    }
}


// --- rendering ---------------------------------------------------------------

/// Renders `body` when every call in it can be evaluated, and returns `None`
/// when one cannot (a `randomInt` range with `min > max`, or a date/time
/// format chrono rejects). `random_float` produces the text of a
/// `{{randomFloat}}` call from its three optional arguments.
pub fn try_render<F: Fn(Option<String>, Option<String>, Option<String>) -> String>(
    body: &str,
    random_float: &F,
) -> (r: Option<String>)
    requires
        forall|a: Option<String>, b: Option<String>, c: Option<String>|
            random_float.requires((a, b, c)),
    ensures
        r is Some <==> render_defined(body@),
        r matches Some(s) ==> rendering(*random_float, body@, s@),
{
    let v = chars_of(body);
    let len = v.len();
    let mut out: Vec<char> = Vec::new();
    let mut i: usize = 0;
    let ghost mut ps: Seq<Piece> = seq![];
    let ghost mut outs: Seq<Seq<char>> = seq![];
    assert(v@.skip(0) =~= v@);
    assert(ps + pieces(v@) =~= pieces(v@));
    while i < len
        invariant
            len == v.len(),
            v@ == body@,
            i <= len,
            pieces(v@) == ps + pieces(v@.skip(i as int)),
            ps.len() == outs.len(),
            out@ == assemble(ps, outs),
            forall|a: Option<String>, b: Option<String>, c: Option<String>|
                random_float.requires((a, b, c)),
            forall|k: int|
                0 <= k < ps.len() ==> (#[trigger] ps[k] matches Piece::Call(e) ==> call_defined(e)
                    && call_output(*random_float, e, outs[k])),
        decreases len - i,
    {
        let ghost t = v@.skip(i as int);
        let ghost old_ps = ps;
        let ghost old_outs = outs;
        let ghost old_out = out@;
        if i + 1 < len && v[i] == '{' && v[i + 1] == '{' {
            let mut j = i + 2;
            while j < len - 1 && !(v[j] == '}' && v[j + 1] == '}')
                invariant
                    len == v.len(),
                    t == v@.skip(i as int),
                    i + 2 <= j <= len,
                    forall|k: int| 2 <= k < j - i ==> !closes_at(t, k),
                decreases len - j,
            {
                assert(!closes_at(t, j - i)) by {
                    assert(t[j - i] == v@[j as int]);
                    assert(t[j - i + 1] == v@[j + 1]);
                }
                j = j + 1;
            }
            proof {
                if j + 1 < len {
                    assert(t[j - i] == v@[j as int]);
                    assert(t[j - i + 1] == v@[j + 1]);
                }
                lemma_find_close(t, 2, j - i);
                assert(t[0] == v@[i as int] && t[1] == v@[i + 1]);
            }
            if j < len - 1 {
                let expr = slice_chars(&v, i + 2, j);
                proof {
                    assert(t.subrange(2, j - i) =~= expr@);
                    assert(t.skip(j - i + 2) =~= v@.skip(j + 2));
                    assert(pieces(t) == seq![Piece::Call(expr@)] + pieces(v@.skip(j + 2)));
                }
                if !call_is_defined(&expr) {
                    proof {
                        assert(pieces(v@) =~= old_ps + (seq![Piece::Call(expr@)] + pieces(
                            v@.skip(j + 2),
                        )));
                        assert(pieces(v@)[old_ps.len() as int] == Piece::Call(expr@));
                    }
                    return None;
                }
                let o = eval(&expr, random_float);
                push_all(&mut out, &o);
                proof {
                    lemma_assemble_push(old_ps, old_outs, Piece::Call(expr@), o@);
                    ps = old_ps.push(Piece::Call(expr@));
                    outs = old_outs.push(o@);
                    assert(pieces(v@) =~= ps + pieces(v@.skip(j + 2)));
                    assert forall|k: int| 0 <= k < ps.len() implies (#[trigger] ps[k] matches Piece::Call(
                        e,
                    ) ==> call_defined(e) && call_output(*random_float, e, outs[k])) by {
                        if k < old_ps.len() {
                            assert(ps[k] == old_ps[k]);
                            assert(outs[k] == old_outs[k]);
                        }
                    }
                }
                i = j + 2;
            } else {
                out.push('{');
                out.push('{');
                proof {
                    assert(t.skip(2) =~= v@.skip(i + 2));
                    assert(pieces(t) == seq![Piece::Text(seq!['{', '{'])] + pieces(v@.skip(i + 2)));
                    lemma_assemble_push(old_ps, old_outs, Piece::Text(seq!['{', '{']), seq![]);
                    ps = old_ps.push(Piece::Text(seq!['{', '{']));
                    outs = old_outs.push(seq![]);
                    assert(out@ =~= old_out + seq!['{', '{']);
                    assert(pieces(v@) =~= ps + pieces(v@.skip(i + 2)));
                    assert forall|k: int| 0 <= k < ps.len() implies (#[trigger] ps[k] matches Piece::Call(
                        e,
                    ) ==> call_defined(e) && call_output(*random_float, e, outs[k])) by {
                        if k < old_ps.len() {
                            assert(ps[k] == old_ps[k]);
                            assert(outs[k] == old_outs[k]);
                        }
                    }
                }
                i = i + 2;
            }
        } else {
            let c = v[i];
            out.push(c);
            proof {
                assert(t[0] == c);
                if t.len() >= 2 {
                    assert(t[1] == v@[i + 1]);
                }
                assert(t.drop_first() =~= v@.skip(i + 1));
                assert(pieces(t) == seq![Piece::Text(seq![c])] + pieces(v@.skip(i + 1)));
                lemma_assemble_push(old_ps, old_outs, Piece::Text(seq![c]), seq![]);
                ps = old_ps.push(Piece::Text(seq![c]));
                outs = old_outs.push(seq![]);
                assert(out@ =~= old_out + seq![c]);
                assert(pieces(v@) =~= ps + pieces(v@.skip(i + 1)));
                assert forall|k: int| 0 <= k < ps.len() implies (#[trigger] ps[k] matches Piece::Call(
                    e,
                ) ==> call_defined(e) && call_output(*random_float, e, outs[k])) by {
                    if k < old_ps.len() {
                        assert(ps[k] == old_ps[k]);
                        assert(outs[k] == old_outs[k]);
                    }
                }
            }
            i = i + 1;
        }
    }
    proof {
        assert(v@.skip(i as int) =~= seq![]);
        assert(pieces(v@) =~= ps);
        assert(rendering(*random_float, body@, out@)) by {
            assert(outs.len() == ps.len() && out@ == assemble(ps, outs));
        }
    }
    Some(string_of(out.as_slice()))
}

/// Renders all `{{fn}}` / `{{fn:arg}}` / `{{fn:arg1:arg2}}` placeholders in
/// `body`. Text outside placeholders is copied; an opening `{{` without a
/// closing `}}` stays as it is; an unknown function is kept as `{{expr}}`.
pub fn render<F: Fn(Option<String>, Option<String>, Option<String>) -> String>(
    body: &str,
    random_float: &F,
) -> (r: String)
    requires
        render_defined(body@),
        forall|a: Option<String>, b: Option<String>, c: Option<String>|
            random_float.requires((a, b, c)),
    ensures
        rendering(*random_float, body@, r@),
{
    match try_render(body, random_float) {
        Some(s) => s,
        None => {
            assert(false);
            String::new()
        },
    }
}


// ---------------------------------------------------------------------------
// Text without placeholders
// ---------------------------------------------------------------------------

/// Whether `s` holds no `{{`.
pub open spec fn no_placeholder(s: Seq<char>) -> bool {
    forall|i: int| 0 <= i < s.len() - 1 ==> !(s[i] == '{' && #[trigger] s[i + 1] == '{')
}

proof fn lemma_plain_pieces(s: Seq<char>)
    requires
        no_placeholder(s),
    ensures
        pieces(s).len() == s.len(),
        forall|k: int| 0 <= k < s.len() ==> #[trigger] pieces(s)[k] == Piece::Text(seq![s[k]]),
        forall|outs: Seq<Seq<char>>| outs.len() == s.len() ==> #[trigger] assemble(pieces(s), outs) == s,
    decreases s.len(),
{
    if s.len() > 0 {
        let t = s.drop_first();
        assert(no_placeholder(t)) by {
            assert forall|i: int| 0 <= i < t.len() - 1 implies !(t[i] == '{' && #[trigger] t[i + 1] == '{') by {
                assert(t[i] == s[i + 1] && t[i + 1] == s[i + 2]);
            }
        }
        lemma_plain_pieces(t);
        if s.len() >= 2 {
            assert(!(s[0] == '{' && s[1] == '{'));
        }
        assert(pieces(s) == seq![Piece::Text(seq![s[0]])] + pieces(t));
        assert forall|k: int| 0 <= k < s.len() implies #[trigger] pieces(s)[k] == Piece::Text(seq![s[k]]) by {
            if k > 0 {
                assert(pieces(s)[k] == pieces(t)[k - 1]);
                assert(t[k - 1] == s[k]);
            }
        }
        assert forall|outs: Seq<Seq<char>>| outs.len() == s.len() implies #[trigger] assemble(pieces(s), outs) == s by {
            let ps = pieces(s);
            assert(ps.drop_first() =~= pieces(t));
            assert(assemble(pieces(t), outs.drop_first()) == t);
            assert(assemble(ps, outs) == seq![s[0]] + assemble(ps.drop_first(), outs.drop_first()));
            assert(seq![s[0]] + t =~= s);
        }
    } else {
        assert forall|outs: Seq<Seq<char>>| outs.len() == s.len() implies #[trigger] assemble(pieces(s), outs) == s by {
            assert(s =~= seq![]);
        }
    }
}

/// A body `{{e}}`, where `e` holds no `}}` and does not end in `}`, is one
/// call of `e`: its text between the braces is what the call evaluates.
pub proof fn lemma_single_call(e: Seq<char>)
    requires
        forall|j: int| !#[trigger] closes_at(e, j),
        e.len() == 0 || e.last() != '}',
    ensures
        pieces(seq!['{', '{'] + e + seq!['}', '}']) == seq![Piece::Call(e)],
{
    let s = seq!['{', '{'] + e + seq!['}', '}'];
    let b: int = e.len() as int + 2;
    assert forall|k: int| 2 <= k < b implies !closes_at(s, k) by {
        if k < b - 1 {
            assert(s[k] == e[k - 2] && s[k + 1] == e[k - 1]);
            assert(!closes_at(e, k - 2));
        } else {
            if e.len() > 0 {
                assert(s[k] == e[k - 2]);
                assert(s[k + 1] == '}');
                if s[k] == '}' {
                    assert(e[e.len() - 1] == '}');
                }
            }
        }
    }
    assert(closes_at(s, b));
    lemma_find_close(s, 2, b);
    assert(s[0] == '{' && s[1] == '{');
    assert(s.subrange(2, b) =~= e);
    assert(s.skip(b + 2) =~= Seq::<char>::empty());
    assert(pieces(Seq::<char>::empty()) == Seq::<Piece>::empty());
    assert(seq![Piece::Call(e)] + Seq::<Piece>::empty() =~= seq![Piece::Call(e)]);
}

/// The function a call names is the text before its first `:`, with
/// surrounding whitespace ignored (so `{{ uuid }}` calls `uuid`).
pub proof fn lemma_call_name_trimmed(expr: Seq<char>)
    ensures
        call_name(expr) == trim(split_once(expr, ':').0),
{
    lemma_find_char_result(expr, ':');
}

/// A call whose trimmed name is `uuid` gives exactly the texts of random
/// v4 UUIDs, whatever whitespace surrounds the name.
pub proof fn lemma_uuid_call_output<F: Fn(Option<String>, Option<String>, Option<String>) -> String>(
    random_float: F,
    expr: Seq<char>,
    out: Seq<char>,
)
    requires
        trim(split_once(expr, ':').0) == "uuid"@,
    ensures
        call_output(random_float, expr, out) <==> uuid_v4_text(out),
{
    lemma_call_name_trimmed(expr);
    reveal_strlit("uuid");
    reveal_strlit("date");
    reveal_strlit("time");
    reveal_strlit("datetime");
    reveal_strlit("randomInt");
    reveal_strlit("randomFloat");
    reveal_strlit("randomString");
    reveal_strlit("randomChinese");
    let n = call_name(expr);
    assert(n != "date"@ && n != "time"@ && n != "datetime"@) by {
        assert(n.len() == 4);
        assert(n[0] == 'u');
    }
    assert(n != "randomInt"@ && n != "randomFloat"@ && n != "randomString"@ && n != "randomChinese"@) by {
        assert(n.len() == 4);
    }
    assert(time_format_spec(expr) is None);
}

/// A body without `{{` renders to itself: it holds no calls, so rendering
/// is defined, and its only rendering is the body unchanged.
pub proof fn lemma_render_plain_text<F: Fn(Option<String>, Option<String>, Option<String>) -> String>(
    random_float: F,
    body: Seq<char>,
)
    requires
        no_placeholder(body),
    ensures
        render_defined(body),
        rendering(random_float, body, body),
        forall|out: Seq<char>| rendering(random_float, body, out) ==> out == body,
{
    lemma_plain_pieces(body);
    let ps = pieces(body);
    let outs = Seq::new(body.len(), |i: int| Seq::<char>::empty());
    assert(assemble(ps, outs) == body);
    assert forall|k: int| 0 <= k < ps.len() implies !(#[trigger] ps[k] is Call) by {
        assert(ps[k] == Piece::Text(seq![body[k]]));
    }
    assert(rendering(random_float, body, body));
    assert forall|out: Seq<char>| rendering(random_float, body, out) implies out == body by {
        let w = choose|w: Seq<Seq<char>>|
            #![trigger assemble(ps, w)]
            w.len() == ps.len() && (forall|k: int|
                0 <= k < ps.len() ==> (#[trigger] ps[k] matches Piece::Call(e) ==> call_output(
                    random_float,
                    e,
                    w[k],
                ))) && out == assemble(ps, w);
        assert(assemble(ps, w) == body);
    }
}

// ---------------------------------------------------------------------------
// The built-in functions, described for the help screens
// ---------------------------------------------------------------------------

/// The description of one built-in function.
pub struct FnDoc {
    pub name: &'static str,
    pub syntax: &'static str,
    pub default_args: &'static str,
    pub description: &'static str,
    pub example_output: &'static str,
}

/// The texts of a function description.
pub open spec fn doc_texts(d: FnDoc) -> (Seq<char>, Seq<char>, Seq<char>, Seq<char>, Seq<char>) {
    (d.name@, d.syntax@, d.default_args@, d.description@, d.example_output@)
}

/// The built-in functions, in the order the help lists them.
pub open spec fn function_docs() -> Seq<(Seq<char>, Seq<char>, Seq<char>, Seq<char>, Seq<char>)> {
    seq![
        ("date"@, "{{date}} or {{date:format}}"@, "yyyyMMdd"@, "Current local date"@, "20260503"@),
        ("time"@, "{{time}} or {{time:format}}"@, "HHmmss"@, "Current local time"@, "143025"@),
        (
            "datetime"@,
            "{{datetime}} or {{datetime:format}}"@,
            "yyyyMMddHHmmss"@,
            "Current local date + time"@,
            "20260503143025"@,
        ),
        (
            "randomInt"@,
            "{{randomInt}} or {{randomInt:min:max}}"@,
            "0 to 100"@,
            "Random integer in range"@,
            "42"@,
        ),
        (
            "randomFloat"@,
            "{{randomFloat}} or {{randomFloat:min:max:decimals}}"@,
            "0.0 to 1.0, 2 decimals"@,
            "Random float in range"@,
            "0.73"@,
        ),
        (
            "randomString"@,
            "{{randomString}} or {{randomString:length}}"@,
            "10 characters"@,
            "Random alphanumeric string"@,
            "aB3kFz9Qmw"@,
        ),
        (
            "randomChinese"@,
            "{{randomChinese}} or {{randomChinese:length}}"@,
            "15 characters"@,
            "Random simplified Chinese characters"@,
            "的一是在人有我"@,
        ),
        ("uuid"@, "{{uuid}}"@, "—"@, "Random UUID v4"@, "550e8400-e29b-41d4-a716-446655440000"@),
    ]
}

/// The built-in functions, described for the help screens.
pub fn functions() -> (r: Vec<FnDoc>)
    ensures
        r@.map_values(|d: FnDoc| doc_texts(d)) == function_docs(),
{
    let r = vec![
        FnDoc {
            name: "date",
            syntax: "{{date}} or {{date:format}}",
            default_args: "yyyyMMdd",
            description: "Current local date",
            example_output: "20260503",
        },
        FnDoc {
            name: "time",
            syntax: "{{time}} or {{time:format}}",
            default_args: "HHmmss",
            description: "Current local time",
            example_output: "143025",
        },
        FnDoc {
            name: "datetime",
            syntax: "{{datetime}} or {{datetime:format}}",
            default_args: "yyyyMMddHHmmss",
            description: "Current local date + time",
            example_output: "20260503143025",
        },
        FnDoc {
            name: "randomInt",
            syntax: "{{randomInt}} or {{randomInt:min:max}}",
            default_args: "0 to 100",
            description: "Random integer in range",
            example_output: "42",
        },
        FnDoc {
            name: "randomFloat",
            syntax: "{{randomFloat}} or {{randomFloat:min:max:decimals}}",
            default_args: "0.0 to 1.0, 2 decimals",
            description: "Random float in range",
            example_output: "0.73",
        },
        FnDoc {
            name: "randomString",
            syntax: "{{randomString}} or {{randomString:length}}",
            default_args: "10 characters",
            description: "Random alphanumeric string",
            example_output: "aB3kFz9Qmw",
        },
        FnDoc {
            name: "randomChinese",
            syntax: "{{randomChinese}} or {{randomChinese:length}}",
            default_args: "15 characters",
            description: "Random simplified Chinese characters",
            example_output: "的一是在人有我",
        },
        FnDoc {
            name: "uuid",
            syntax: "{{uuid}}",
            default_args: "—",
            description: "Random UUID v4",
            example_output: "550e8400-e29b-41d4-a716-446655440000",
        },
    ];
    assert(r@.map_values(|d: FnDoc| doc_texts(d)) =~= function_docs());
    r
}

} // verus!
