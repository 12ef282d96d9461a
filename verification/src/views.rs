//! What the terminal screens show, apart from how it is drawn: which form
//! fields fit in the dialog and where it scrolls, the texts of fields,
//! titles and hints, and the order request headers are listed in.
use vstd::prelude::*;

use crate::handler::pair_views;
use crate::models::{MockApi, PortConfig};
use crate::template::{strftime_is_valid, strftime_valid};
use crate::text::{
    chars_of, decimal, decimal_int, parse_i64, parse_int, push_all, push_str_chars, slice_chars,
    split_chars, split_on, string_of, trim, trim_chars, u64_chars, views, i64_chars,
};
use crate::tui::{
    suggestion_for, common_headers, field_shown, App, BODY_FIELD_IDX, BODY_SOURCE_FIELD_IDX,
    HEADER_FIELD_IDX, METHOD_FIELD_IDX, MOCK_FORM_FIELDS, PAGINATION_DATA_FIELD_IDX,
    PAGINATION_PAGE_PARAM_FIELD_IDX, PAGINATION_SIZE_PARAM_FIELD_IDX, PAGINATION_TOTAL_FIELD_IDX,
    PATH_FIELD_IDX, PORT_ID_FIELD_IDX, REQUEST_PARAMS_FIELD_IDX,
};

verus! {

// ---------------------------------------------------------------------------
// The part of a long form that fits in the dialog
// ---------------------------------------------------------------------------

/// How many fields, from position `from` on, fit one after another in
/// `room` rows.
pub open spec fn fit_count(h: Seq<u16>, from: int, room: int) -> nat
    decreases h.len() - from,
{
    if from < 0 || from >= h.len() || h[from] > room {
        0
    } else {
        1 + fit_count(h, from + 1, room - h[from])
    }
}

/// The rows those fields take.
pub open spec fn fit_height(h: Seq<u16>, from: int, room: int) -> int
    decreases h.len() - from,
{
    if from < 0 || from >= h.len() || h[from] > room {
        0
    } else {
        h[from] + fit_height(h, from + 1, room - h[from])
    }
}

/// The last position shown when the window starts at `from` (`from` itself
/// when nothing fits).
pub open spec fn last_shown(h: Seq<u16>, from: int, room: int) -> int {
    if fit_count(h, from, room) == 0 {
        from
    } else {
        from + fit_count(h, from, room) - 1
    }
}

/// Scrolling down one field at a time from `s` until the active position
/// is shown or the top is the last field.
pub open spec fn settle(h: Seq<u16>, s: int, active: int, room: int) -> int
    decreases h.len() - s,
{
    if active <= last_shown(h, s, room) || s + 1 >= h.len() {
        s
    } else {
        settle(h, s + 1, active, room)
    }
}

/// Where the dialog scrolls to: never below the active field, then down
/// until the active field is shown.
pub open spec fn window_start(h: Seq<u16>, active: int, scroll: int, room: int) -> int {
    settle(h, if scroll > active { active } else { scroll }, active, room)
}

/// The fields a dialog shows.
pub struct FormWindow {
    /// The position of the first field shown.
    pub scroll: usize,
    /// How many fields are shown.
    pub count: usize,
    /// The rows they take.
    pub height: u16,
    /// Whether fields are hidden above.
    pub has_above: bool,
    /// Whether fields are hidden below.
    pub has_below: bool,
}

proof fn lemma_fit_bounds(h: Seq<u16>, from: int, room: int)
    requires
        0 <= from <= h.len(),
        room >= 0,
    ensures
        from + fit_count(h, from, room) <= h.len(),
        0 <= fit_height(h, from, room) <= room,
    decreases h.len() - from,
{
    if from < h.len() && h[from] <= room {
        lemma_fit_bounds(h, from + 1, room - h[from]);
    }
}

/// Counts the fields that fit from position `from`, and the rows they take.
fn fit_from(h: &Vec<u16>, from: usize, room: u16) -> (r: (usize, u16))
    requires
        from <= h.len(),
    ensures
        r.0 == fit_count(h@, from as int, room as int),
        r.1 == fit_height(h@, from as int, room as int),
        from + r.0 <= h.len(),
{
    let mut pos = from;
    let mut used: u16 = 0;
    proof {
        lemma_fit_bounds(h@, from as int, room as int);
    }
    while pos < h.len() && h[pos] <= room - used
        invariant
            from <= pos <= h.len(),
            used <= room,
            fit_count(h@, from as int, room as int) == (pos - from) + fit_count(h@, pos as int, (room - used) as int),
            fit_height(h@, from as int, room as int) == used + fit_height(h@, pos as int, (room - used) as int),
        decreases h.len() - pos,
    {
        used = used + h[pos];
        pos = pos + 1;
    }
    (pos - from, used)
}

/// The part of a form that fits in a dialog with `room` rows for fields:
/// `fields` are the indices of the visible fields, `heights` their rows,
/// `active` the position of the focused field among them, `scroll` the
/// previous first position. The window starts at `window_start`, shows the
/// fields that fit from there, and tells whether fields are hidden above
/// or below.
pub fn form_window(fields: &Vec<usize>, heights: &Vec<u16>, active: usize, scroll: usize, room: u16) -> (r:
    FormWindow)
    requires
        fields.len() == heights.len(),
        fields.len() > 0,
    ensures
        r.scroll as int == window_start(heights@, active as int, scroll as int, room as int),
        r.count == fit_count(heights@, r.scroll as int, room as int),
        r.height == fit_height(heights@, r.scroll as int, room as int),
        r.has_above == (r.scroll > 0),
        r.has_below == ((if r.count == 0 {
            0
        } else {
            fields@[r.scroll + r.count - 1]
        }) < fields@.last()),
{
    let s0 = if scroll > active {
        active
    } else {
        scroll
    };
    let last_visible = fields[fields.len() - 1];
    if s0 >= heights.len() {
        let last_rendered: usize = 0;
        return FormWindow {
            scroll: s0,
            count: 0,
            height: 0,
            has_above: s0 > 0,
            has_below: last_rendered < last_visible,
        };
    }
    let mut s = s0;
    loop
        invariant
            s < heights.len(),
            settle(heights@, s as int, active as int, room as int) == window_start(
                heights@,
                active as int,
                scroll as int,
                room as int,
            ),
        ensures
            settle(heights@, s as int, active as int, room as int) == s as int,
        decreases heights.len() - s,
    {
        let (n, _) = fit_from(heights, s, room);
        let last = if n == 0 {
            s
        } else {
            s + n - 1
        };
        if active <= last || s + 1 >= heights.len() {
            break;
        }
        s = s + 1;
    }
    let (count, height) = fit_from(heights, s, room);
    let last_rendered: usize = if count == 0 {
        0
    } else {
        fields[s + count - 1]
    };
    FormWindow { scroll: s, count, height, has_above: s > 0, has_below: last_rendered < last_visible }
}


// ---------------------------------------------------------------------------
// Field texts
// ---------------------------------------------------------------------------

/// A focused field's text split at the cursor: the text before it, the
/// character under it (a space at the end), and the text after that.
pub fn cursor_split(text: &str, cursor: usize) -> (r: (String, char, String))
    ensures
        ({
            let t = text@;
            let cur = if cursor < t.len() {
                cursor as int
            } else {
                t.len() as int
            };
            &&& r.0@ == t.take(cur)
            &&& r.1 == (if cur < t.len() {
                t[cur]
            } else {
                ' '
            })
            &&& r.2@ == t.skip(if cur + 1 < t.len() {
                cur + 1
            } else {
                t.len() as int
            })
        }),
{
    let v = chars_of(text);
    let cur = if cursor < v.len() {
        cursor
    } else {
        v.len()
    };
    let before = slice_chars(&v, 0, cur);
    let c = if cur < v.len() {
        v[cur]
    } else {
        ' '
    };
    let from = if cur < v.len() {
        cur + 1
    } else {
        v.len()
    };
    let after = slice_chars(&v, from, v.len());
    assert(before@ =~= v@.take(cur as int));
    assert(after@ =~= v@.skip(from as int));
    (string_of(before.as_slice()), c, string_of(after.as_slice()))
}

/// The non-empty `|`-separated entries of a field, trimmed: the chips an
/// inactive header field shows.
pub open spec fn chip_texts(pieces: Seq<Seq<char>>) -> Seq<Seq<char>>
    decreases pieces.len(),
{
    if pieces.len() == 0 {
        seq![]
    } else {
        let p = chip_texts(pieces.drop_last());
        if trim(pieces.last()).len() > 0 {
            p.push(trim(pieces.last()))
        } else {
            p
        }
    }
}

/// The chips of a `|`-separated field (see `chip_texts`).
pub fn chips(raw: &str) -> (r: Vec<String>)
    ensures
        r@.map_values(|s: String| s@) == chip_texts(split_on(raw@, '|')),
{
    let v = chars_of(raw);
    let pieces = split_chars(&v, '|');
    let ghost pv = views(pieces@);
    let mut out: Vec<String> = Vec::new();
    let mut i: usize = 0;
    assert(pv.take(0) =~= seq![]);
    assert(out@.map_values(|s: String| s@) =~= seq![]);
    while i < pieces.len()
        invariant
            pv == views(pieces@),
            pv == split_on(v@, '|'),
            v@ == raw@,
            i <= pieces.len(),
            out@.map_values(|s: String| s@) == chip_texts(pv.take(i as int)),
        decreases pieces.len() - i,
    {
        let ghost t = pv.take(i as int + 1);
        assert(t.drop_last() =~= pv.take(i as int));
        assert(t.last() == pieces@[i as int]@);
        let c = trim_chars(&pieces[i]);
        if c.len() > 0 {
            let ghost before = out@.map_values(|s: String| s@);
            out.push(string_of(c.as_slice()));
            assert(out@.map_values(|s: String| s@) =~= before.push(c@));
        }
        i = i + 1;
    }
    assert(pv.take(pieces.len() as int) =~= pv);
    out
}

/// The number of lines of a text: one more than its line breaks.
pub open spec fn line_count(t: Seq<char>) -> int
    decreases t.len(),
{
    if t.len() == 0 {
        1
    } else {
        line_count(t.drop_last()) + if t.last() == '\n' {
            1int
        } else {
            0int
        }
    }
}

/// The title of the body field: for an inline body, its line count and the
/// keys that work on it; for a file, what to enter.
pub fn body_field_label(raw: &str, inline: bool) -> (r: String)
    requires
        raw@.len() < u64::MAX,
    ensures
        !inline ==> r@ == "File Path (json/txt) *"@,
        inline ==> r@ == "Response Body  ["@ + decimal(line_count(raw@) as nat)
            + " lines]  ↑/↓:scroll  Ctrl+U:clear"@,
{
    if !inline {
        return "File Path (json/txt) *".to_owned();
    }
    let v = chars_of(raw);
    let mut n: u64 = 1;
    let mut i: usize = 0;
    assert(v@.take(0) =~= seq![]);
    while i < v.len()
        invariant
            i <= v.len(),
            n as int == line_count(v@.take(i as int)),
            n <= i + 1,
            v@.len() < u64::MAX,
            v@ == raw@,
        decreases v.len() - i,
    {
        assert(v@.take(i as int + 1).drop_last() =~= v@.take(i as int));
        if v[i] == '\n' {
            n = n + 1;
        }
        i = i + 1;
    }
    assert(v@.take(v.len() as int) =~= v@);
    let mut out = chars_of("Response Body  [");
    let d = u64_chars(n);
    push_all(&mut out, &d);
    push_str_chars(&mut out, " lines]  ↑/↓:scroll  Ctrl+U:clear");
    string_of(out.as_slice())
}

/// What the port choice shows: the chosen port's number and label when the
/// field names a known port, else the field's text, between arrows.
pub open spec fn port_choice(raw: Seq<char>, ports: Seq<PortConfig>) -> Seq<char> {
    let id = match parse_int(raw, i64::MIN as int, i64::MAX as int) {
        Some(n) => n,
        None => 0,
    };
    if exists|i: int| 0 <= i < ports.len() && ports[i].id == id {
        let p = ports[choose|i: int|
            0 <= i < ports.len() && ports[i].id == id && forall|j: int| 0 <= j < i ==> ports[j].id != id];
        "◀ :"@ + decimal(p.port as nat) + " "@ + p.label@ + " ▶"@
    } else {
        "◀ "@ + raw + " ▶"@
    }
}

fn first_port_with_id(ports: &Vec<PortConfig>, id: i64) -> (r: Option<usize>)
    ensures
        match r {
            Some(i) => i < ports.len() && ports@[i as int].id == id && forall|j: int|
                0 <= j < i ==> ports@[j].id != id,
            None => forall|j: int| 0 <= j < ports.len() ==> ports@[j].id != id,
        },
{
    let mut i: usize = 0;
    while i < ports.len()
        invariant
            i <= ports.len(),
            forall|j: int| 0 <= j < i ==> ports@[j].id != id,
        decreases ports.len() - i,
    {
        if ports[i].id == id {
            return Some(i);
        }
        i = i + 1;
    }
    None
}

/// The text of the port choice field (see `port_choice`).
pub fn port_choice_text(raw: &str, ports: &Vec<PortConfig>) -> (r: String)
    ensures
        r@ == port_choice(raw@, ports@),
{
    let v = chars_of(raw);
    let id: i64 = match parse_i64(&v) {
        Some(n) => n,
        None => 0,
    };
    match first_port_with_id(ports, id) {
        Some(i) => {
            proof {
                let w = choose|w: int|
                    0 <= w < ports@.len() && ports@[w].id == id && forall|j: int| 0 <= j < w ==> ports@[j].id != id;
                assert(0 <= w < ports@.len() && ports@[w].id == id && forall|j: int|
                    0 <= j < w ==> ports@[j].id != id) by {
                    assert(ports@[i as int].id == id);
                }
                if w < i {
                } else if w > i {
                    assert(ports@[i as int].id == id);
                }
            }
            let mut out = chars_of("◀ :");
            let d = u64_chars(ports[i].port as u64);
            push_all(&mut out, &d);
            push_str_chars(&mut out, " ");
            push_str_chars(&mut out, ports[i].label.as_str());
            push_str_chars(&mut out, " ▶");
            string_of(out.as_slice())
        },
        None => {
            let mut out = chars_of("◀ ");
            push_str_chars(&mut out, raw);
            push_str_chars(&mut out, " ▶");
            string_of(out.as_slice())
        },
    }
}

/// Where a mock answers: the machine's address and the port's number when
/// its port is known, else the port id.
pub open spec fn mock_address_text(ports: Seq<PortConfig>, port_id: i64, ip: Seq<char>) -> Seq<char> {
    if exists|i: int| 0 <= i < ports.len() && ports[i].id == port_id {
        let p = ports[choose|i: int|
            0 <= i < ports.len() && ports[i].id == port_id && forall|j: int| 0 <= j < i ==> ports[j].id != port_id];
        ip + ":"@ + decimal(p.port as nat)
    } else {
        decimal_int(port_id as int)
    }
}

/// The address column of the mock list (see `mock_address_text`).
pub fn mock_address(ports: &Vec<PortConfig>, port_id: i64, ip: &str) -> (r: String)
    ensures
        r@ == mock_address_text(ports@, port_id, ip@),
{
    match first_port_with_id(ports, port_id) {
        Some(i) => {
            proof {
                let w = choose|w: int|
                    0 <= w < ports@.len() && ports@[w].id == port_id && forall|j: int|
                        0 <= j < w ==> ports@[j].id != port_id;
                assert(0 <= w < ports@.len() && ports@[w].id == port_id && forall|j: int|
                    0 <= j < w ==> ports@[j].id != port_id) by {
                    assert(ports@[i as int].id == port_id);
                }
                if w < i {
                } else if w > i {
                    assert(ports@[i as int].id == port_id);
                }
            }
            let mut out = chars_of(ip);
            push_str_chars(&mut out, ":");
            let d = u64_chars(ports[i].port as u64);
            push_all(&mut out, &d);
            string_of(out.as_slice())
        },
        None => {
            let d = i64_chars(port_id);
            string_of(d.as_slice())
        },
    }
}

/// The detail pane of the selected mock: status, delay, headers as JSON,
/// and the first 200 characters of the body.
pub fn mock_detail_text(m: &MockApi) -> (r: String)
    ensures
        r@ == "Status: "@ + decimal(m.response_status as nat) + "  Delay: "@ + decimal(
            m.response_delay_ms as nat,
        ) + "ms\nHeaders: "@ + crate::json::text_of(crate::store::pairs_value(pair_views(m.response_headers@)))
            + "\nBody: "@ + m.response_body@.take(if m.response_body@.len() < 200 {
            m.response_body@.len() as int
        } else {
            200
        }),
{
    let mut out = chars_of("Status: ");
    let s = u64_chars(m.response_status as u64);
    push_all(&mut out, &s);
    push_str_chars(&mut out, "  Delay: ");
    let d = u64_chars(m.response_delay_ms);
    push_all(&mut out, &d);
    push_str_chars(&mut out, "ms\nHeaders: ");
    let h = crate::store::pairs_json(&m.response_headers);
    push_str_chars(&mut out, h.as_str());
    push_str_chars(&mut out, "\nBody: ");
    let b = chars_of(m.response_body.as_str());
    let n = if b.len() < 200 {
        b.len()
    } else {
        200
    };
    let head = slice_chars(&b, 0, n);
    push_all(&mut out, &head);
    assert(head@ =~= b@.take(n as int));
    string_of(out.as_slice())
}

/// chrono's text, in format `fmt`, of the UTC time of an RFC 3339 `text`;
/// `None` when chrono does not read the text.
pub uninterp spec fn formatted_utc(text: Seq<char>, fmt: Seq<char>) -> Option<Seq<char>>;

/// `chrono::DateTime::parse_from_rfc3339(text)`, taken to UTC and written
/// with `format(fmt)`; `None` when chrono does not read the text. Writing
/// with a format chrono rejects panics, so the format must be valid. The
/// result depends on the two texts alone and is named `formatted_utc`.
#[verifier::external_body]
fn format_utc(text: &str, fmt: &str) -> (r: Option<String>)
    requires
        strftime_valid(fmt@),
    ensures
        match r {
            Some(t) => formatted_utc(text@, fmt@) == Some(t@),
            None => formatted_utc(text@, fmt@) is None,
        },
{
    chrono::DateTime::parse_from_rfc3339(text).ok().map(|t| t.with_timezone(&chrono::Utc).format(fmt).to_string())
}

/// A log time as the log tables show it: the stored RFC 3339 time written
/// in `fmt` (in UTC), or the stored text itself when the format is not one
/// chrono accepts or the text is not a time.
pub fn shown_time(text: &str, fmt: &str) -> (r: String)
    ensures
        (strftime_valid(fmt@) && formatted_utc(text@, fmt@) is Some) ==> r@ == formatted_utc(
            text@,
            fmt@,
        ).unwrap(),
        !(strftime_valid(fmt@) && formatted_utc(text@, fmt@) is Some) ==> r@ == text@,
{
    if strftime_is_valid(fmt) {
        match format_utc(text, fmt) {
            Some(t) => t,
            None => text.to_owned(),
        }
    } else {
        text.to_owned()
    }
}

/// A body shown in the request detail: the text, or `None` for "(empty)".
pub fn shown_body(body: &Option<String>) -> (r: Option<String>)
    ensures
        match body {
            Some(b) => if b@.len() > 0 {
                r matches Some(s) && s@ == b@
            } else {
                r is None
            },
            None => r is None,
        },
{
    match body {
        Some(b) => {
            if chars_of(b.as_str()).len() > 0 {
                Some(b.clone())
            } else {
                None
            }
        },
        None => None,
    }
}

// ---------------------------------------------------------------------------
// Hints under the forms
// ---------------------------------------------------------------------------

/// How a hint is shown.
#[derive(Debug, Clone, Copy, PartialEq, Eq, Structural)]
pub enum HintKind {
    Error,
    Warning,
    Help,
}

/// The fields among the first `n` of the open form that are shown (see
/// `field_shown`), in order.
pub open spec fn shown_upto(app: App, n: nat) -> Seq<usize>
    decreases n,
{
    if n == 0 {
        seq![]
    } else {
        let before = shown_upto(app, (n - 1) as nat);
        if field_shown(app, n - 1) {
            before.push((n - 1) as usize)
        } else {
            before
        }
    }
}

/// The mock form's fields that are shown, in order: the request params
/// only for methods that filter by them, the pagination settings only
/// while pagination is on.
pub fn visible_fields(app: &App) -> (r: Vec<usize>)
    ensures
        r@ == shown_upto(*app, MOCK_FORM_FIELDS as nat),
{
    let mut out: Vec<usize> = Vec::new();
    let mut k: usize = 0;
    while k < MOCK_FORM_FIELDS
        invariant
            k <= MOCK_FORM_FIELDS,
            out@ == shown_upto(*app, k as nat),
        decreases MOCK_FORM_FIELDS - k,
    {
        if app.is_field_shown(k) {
            out.push(k);
        }
        k = k + 1;
    }
    out
}

/// The hint under the port form: the error, the discard question, or the keys.
pub fn port_form_hint(app: &App) -> (r: (String, HintKind))
    ensures
        match app.modal_error {
            Some(e) => r.0@ == e@ && r.1 == HintKind::Error,
            None => if app.cancel_confirm_pending {
                r.0@ == "Discard changes?  Enter: yes  Esc: no"@ && r.1 == HintKind::Warning
            } else {
                r.0@ == "Tab: next field  Enter: save  Esc: cancel"@ && r.1 == HintKind::Help
            },
        },
{
    match &app.modal_error {
        Some(e) => (e.clone(), HintKind::Error),
        None => if app.cancel_confirm_pending {
            ("Discard changes?  Enter: yes  Esc: no".to_owned(), HintKind::Warning)
        } else {
            ("Tab: next field  Enter: save  Esc: cancel".to_owned(), HintKind::Help)
        },
    }
}

/// The hint under the mock form for the focused field.
pub open spec fn mock_hint_text(app: App, inline: bool) -> (Seq<char>, HintKind) {
    let idx = app.modal_field_idx;
    match app.modal_error {
        Some(e) => (e@, HintKind::Error),
        None => if app.cancel_confirm_pending {
            ("Discard changes?  Enter: yes  Esc: no"@, HintKind::Warning)
        } else if idx == BODY_SOURCE_FIELD_IDX {
            ("←/→: select  Tab: next  Shift+Tab: back"@, HintKind::Help)
        } else if idx == PORT_ID_FIELD_IDX || idx == METHOD_FIELD_IDX {
            ("←/→: select  Tab: next  Shift+Tab: back  Enter: save  Esc: cancel"@, HintKind::Help)
        } else if idx == BODY_FIELD_IDX && inline {
            ("↑/↓: scroll body  Ctrl+U: clear  Tab: next  Shift+Tab: back  Enter: save  Esc: cancel"@, HintKind::Help)
        } else if idx == BODY_FIELD_IDX {
            (
                "Enter full file path (e.g. /home/user/data.json)  Tab: next  Shift+Tab: back  Enter: save  Esc: cancel"@,
                HintKind::Help,
            )
        } else if idx == PATH_FIELD_IDX {
            ("Use {param} for path params (e.g. /users/{id})  Tab: next  Shift+Tab: back  Esc: cancel"@, HintKind::Help)
        } else if idx == REQUEST_PARAMS_FIELD_IDX {
            (
                "+: 新增参数  Tab: 下一项  Shift+Tab: 上一项  Enter: 保存 — 添加后，JSON 响应将按参数值过滤（如 ?name=john），非 JSON 不受影响"@,
                HintKind::Help,
            )
        } else if idx == PAGINATION_PAGE_PARAM_FIELD_IDX {
            ("页码参数名，留空默认 page  Tab: 下一项  Shift+Tab: 上一项  Enter: 保存"@, HintKind::Help)
        } else if idx == PAGINATION_SIZE_PARAM_FIELD_IDX {
            ("页大小参数名，留空默认 pageSize（未传时每页 10 条）  Tab: 下一项  Enter: 保存"@, HintKind::Help)
        } else if idx == PAGINATION_DATA_FIELD_IDX {
            ("数组字段路径，支持点号路径（如 body.list），留空表示顶层数组  Tab: 下一项  Enter: 保存"@, HintKind::Help)
        } else if idx == PAGINATION_TOTAL_FIELD_IDX {
            ("回写总条数字段路径，支持点号路径（如 body.total），留空则跳过  Tab: 下一项  Enter: 保存"@, HintKind::Help)
        } else if idx == HEADER_FIELD_IDX {
            let offer = if app.modal_fields@.len() > HEADER_FIELD_IDX {
                suggestion_for(app.modal_fields@[HEADER_FIELD_IDX as int]@)
            } else {
                None
            };
            match offer {
                Some(i) => (
                    "+: 新增  →: \""@ + common_headers()[i] + "\"  格式 Key: Value，多个用 |  Tab: 下一项  Shift+Tab: 上一项  Enter: 保存"@,
                    HintKind::Help,
                ),
                None => ("+: 新增响应头  格式 Key: Value，多个用 |  Tab: 下一项  Shift+Tab: 上一项  Enter: 保存"@, HintKind::Help),
            }
        } else {
            ("Tab: next  Shift+Tab: back  Enter: save  Esc: cancel"@, HintKind::Help)
        },
    }
}

/// The hint under the mock form (see `mock_hint_text`); `inline` tells
/// whether the body source is inline text.
pub fn mock_form_hint(app: &App, inline: bool) -> (r: (String, HintKind))
    ensures
        r.0@ == mock_hint_text(*app, inline).0,
        r.1 == mock_hint_text(*app, inline).1,
{
    let idx = app.modal_field_idx;
    match &app.modal_error {
        Some(e) => (e.clone(), HintKind::Error),
        None => if app.cancel_confirm_pending {
            ("Discard changes?  Enter: yes  Esc: no".to_owned(), HintKind::Warning)
        } else if idx == BODY_SOURCE_FIELD_IDX {
            ("←/→: select  Tab: next  Shift+Tab: back".to_owned(), HintKind::Help)
        } else if idx == PORT_ID_FIELD_IDX || idx == METHOD_FIELD_IDX {
            ("←/→: select  Tab: next  Shift+Tab: back  Enter: save  Esc: cancel".to_owned(), HintKind::Help)
        } else if idx == BODY_FIELD_IDX && inline {
            ("↑/↓: scroll body  Ctrl+U: clear  Tab: next  Shift+Tab: back  Enter: save  Esc: cancel".to_owned(), HintKind::Help)
        } else if idx == BODY_FIELD_IDX {
            (
                "Enter full file path (e.g. /home/user/data.json)  Tab: next  Shift+Tab: back  Enter: save  Esc: cancel".to_owned(),
                HintKind::Help,
            )
        } else if idx == PATH_FIELD_IDX {
            ("Use {param} for path params (e.g. /users/{id})  Tab: next  Shift+Tab: back  Esc: cancel".to_owned(), HintKind::Help)
        } else if idx == REQUEST_PARAMS_FIELD_IDX {
            (
                "+: 新增参数  Tab: 下一项  Shift+Tab: 上一项  Enter: 保存 — 添加后，JSON 响应将按参数值过滤（如 ?name=john），非 JSON 不受影响".to_owned(),
                HintKind::Help,
            )
        } else if idx == PAGINATION_PAGE_PARAM_FIELD_IDX {
            ("页码参数名，留空默认 page  Tab: 下一项  Shift+Tab: 上一项  Enter: 保存".to_owned(), HintKind::Help)
        } else if idx == PAGINATION_SIZE_PARAM_FIELD_IDX {
            ("页大小参数名，留空默认 pageSize（未传时每页 10 条）  Tab: 下一项  Enter: 保存".to_owned(), HintKind::Help)
        } else if idx == PAGINATION_DATA_FIELD_IDX {
            ("数组字段路径，支持点号路径（如 body.list），留空表示顶层数组  Tab: 下一项  Enter: 保存".to_owned(), HintKind::Help)
        } else if idx == PAGINATION_TOTAL_FIELD_IDX {
            ("回写总条数字段路径，支持点号路径（如 body.total），留空则跳过  Tab: 下一项  Enter: 保存".to_owned(), HintKind::Help)
        } else if idx == HEADER_FIELD_IDX {
            match app.header_autocomplete_suggestion() {
                Some(sug) => {
                    let mut out = chars_of("+: 新增  →: \"");
                    push_str_chars(&mut out, sug);
                    push_str_chars(&mut out, "\"  格式 Key: Value，多个用 |  Tab: 下一项  Shift+Tab: 上一项  Enter: 保存");
                    (string_of(out.as_slice()), HintKind::Help)
                },
                None => ("+: 新增响应头  格式 Key: Value，多个用 |  Tab: 下一项  Shift+Tab: 上一项  Enter: 保存".to_owned(), HintKind::Help),
            }
        } else {
            ("Tab: next  Shift+Tab: back  Enter: save  Esc: cancel".to_owned(), HintKind::Help)
        },
    }
}


// ---------------------------------------------------------------------------
// The order headers are listed in
// ---------------------------------------------------------------------------

/// Whether text `a` comes no later than `b` in code-point order, a prefix
/// before the texts it starts.
pub open spec fn text_le(a: Seq<char>, b: Seq<char>) -> bool
    decreases a.len(),
{
    if a.len() == 0 {
        true
    } else if b.len() == 0 {
        false
    } else if a[0] != b[0] {
        a[0] < b[0]
    } else {
        text_le(a.drop_first(), b.drop_first())
    }
}

/// Any two texts are ordered one way or the other.
pub proof fn lemma_text_le_total(a: Seq<char>, b: Seq<char>)
    ensures
        text_le(a, b) || text_le(b, a),
    decreases a.len(),
{
    if a.len() > 0 && b.len() > 0 && a[0] == b[0] {
        lemma_text_le_total(a.drop_first(), b.drop_first());
    }
}

/// The order of texts is transitive.
pub proof fn lemma_text_le_transitive(a: Seq<char>, b: Seq<char>, c: Seq<char>)
    requires
        text_le(a, b),
        text_le(b, c),
    ensures
        text_le(a, c),
    decreases a.len(),
{
    if a.len() > 0 && b.len() > 0 && c.len() > 0 && a[0] == b[0] && b[0] == c[0] {
        lemma_text_le_transitive(a.drop_first(), b.drop_first(), c.drop_first());
    }
}

/// Whether a list of pairs is in the order of its keys.
pub open spec fn keys_sorted(s: Seq<(String, String)>) -> bool {
    forall|i: int, j: int| 0 <= i < j < s.len() ==> text_le(#[trigger] s[i].0@, #[trigger] s[j].0@)
}

/// Compares two texts (see `text_le`).
fn text_le_chars(a: &Vec<char>, b: &Vec<char>) -> (r: bool)
    ensures
        r == text_le(a@, b@),
{
    let mut i: usize = 0;
    assert(a@.skip(0) =~= a@);
    assert(b@.skip(0) =~= b@);
    while i < a.len() && i < b.len() && a[i] == b[i]
        invariant
            i <= a.len(),
            i <= b.len(),
            text_le(a@, b@) == text_le(a@.skip(i as int), b@.skip(i as int)),
        decreases a.len() - i,
    {
        assert(a@.skip(i as int).drop_first() =~= a@.skip(i as int + 1));
        assert(b@.skip(i as int).drop_first() =~= b@.skip(i as int + 1));
        i = i + 1;
    }
    if i == a.len() {
        assert(a@.skip(i as int).len() == 0);
        true
    } else if i == b.len() {
        assert(b@.skip(i as int).len() == 0);
        false
    } else {
        a[i] < b[i]
    }
}

/// A request's or response's headers as the request detail lists them:
/// the same pairs, in the order of their keys.
pub fn sorted_headers(h: &Vec<(String, String)>) -> (r: Vec<(String, String)>)
    ensures
        keys_sorted(r@),
        r@.to_multiset() == h@.to_multiset(),
{
    let mut out: Vec<(String, String)> = Vec::new();
    let mut keys: Vec<Vec<char>> = Vec::new();
    let mut i: usize = 0;
    assert(h@.take(0) =~= Seq::<(String, String)>::empty());
    while i < h.len()
        invariant
            i <= h.len(),
            out@.len() == keys@.len(),
            forall|k: int| 0 <= k < out@.len() ==> (#[trigger] keys@[k])@ == out@[k].0@,
            keys_sorted(out@),
            out@.to_multiset() == h@.take(i as int).to_multiset(),
        decreases h.len() - i,
    {
        let key = chars_of(h[i].0.as_str());
        let mut j: usize = 0;
        while j < keys.len() && text_le_chars(&keys[j], &key)
            invariant
                j <= keys.len(),
                out@.len() == keys@.len(),
                forall|k: int| 0 <= k < out@.len() ==> (#[trigger] keys@[k])@ == out@[k].0@,
                forall|k: int| 0 <= k < j ==> text_le(#[trigger] out@[k].0@, key@),
            decreases keys.len() - j,
        {
            j = j + 1;
        }
        let ghost before = out@;
        let pair = (h[i].0.clone(), h[i].1.clone());
        assert(pair == h@[i as int]);
        proof {
            if j < before.len() {
                assert(keys@[j as int]@ == before[j as int].0@);
                lemma_text_le_total(before[j as int].0@, key@);
            }
        }
        out.insert(j, pair);
        keys.insert(j, key);
        assert forall|p: int, q: int| 0 <= p < q < out@.len() implies text_le(
            #[trigger] out@[p].0@,
            #[trigger] out@[q].0@,
        ) by {
            if q < j {
                assert(out@[p] == before[p] && out@[q] == before[q]);
            } else if q == j {
                assert(out@[p] == before[p]);
            } else if p < j {
                assert(out@[p] == before[p] && out@[q] == before[q - 1]);
                if p < q - 1 {
                    assert(text_le(before[p].0@, before[q - 1].0@));
                }
            } else if p == j {
                assert(out@[q] == before[q - 1]);
                if j < q - 1 {
                    assert(text_le(before[j as int].0@, before[q - 1].0@));
                    lemma_text_le_transitive(key@, before[j as int].0@, before[q - 1].0@);
                }
            } else {
                assert(out@[p] == before[p - 1] && out@[q] == before[q - 1]);
            }
        }
        assert(h@.take(i as int + 1) =~= h@.take(i as int).push(h@[i as int]));
        proof {
            vstd::seq_lib::to_multiset_insert(before, j as int, h@[i as int]);
            vstd::seq_lib::to_multiset_build(h@.take(i as int), h@[i as int]);
        }
        i = i + 1;
    }
    assert(h@.take(h.len() as int) =~= h@);
    out
}

} // verus!
