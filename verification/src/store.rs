//! What the stores are asked to do: the requests that create and update
//! mocks, log queries, and the SQL statements and parameters they become.
use vstd::prelude::*;

use crate::handler::pair_views;
use crate::json::{
    lemma_view_obj, lemma_view_obj_push, parse, parse_json, text_of, to_text, view_json, view_obj, Json,
    JV,
};
use crate::models::{
    method_name, parse_method_spec, HttpMethod, MockApi, PortConfig, RequestLog, SystemLog,
};
use crate::text::{chars_of, decimal, push_all, push_str_chars, slice_chars, string_of, u64_chars};
use crate::tui::{distinct_keys, keep_last_per_key, last_per_key};

verus! {

/// A new mock to store.
pub struct CreateMockRequest {
    pub port_id: i64,
    pub name: String,
    pub description: String,
    pub method: HttpMethod,
    pub path: String,
    pub request_schema: Option<Json>,
    pub response_status: u16,
    pub response_headers: Vec<(String, String)>,
    pub response_body: String,
    pub response_delay_ms: u64,
    pub pagination_enabled: bool,
    pub pagination_page_size: u32,
    pub request_params: Vec<(String, String)>,
    pub pagination_page_param: String,
    pub pagination_size_param: String,
    pub pagination_data_field: String,
    pub pagination_total_field: String,
}

/// Changes to a stored mock; `None` leaves a column as it is.
pub struct UpdateMockRequest {
    pub name: Option<String>,
    pub description: Option<String>,
    pub method: Option<HttpMethod>,
    pub path: Option<String>,
    /// `Some(None)` clears the schema.
    pub request_schema: Option<Option<Json>>,
    pub response_status: Option<u16>,
    pub response_headers: Option<Vec<(String, String)>>,
    pub response_body: Option<String>,
    pub response_delay_ms: Option<u64>,
    pub enabled: Option<bool>,
    pub pagination_enabled: Option<bool>,
    pub request_params: Option<Vec<(String, String)>>,
    pub pagination_page_size: Option<u32>,
    pub pagination_page_param: Option<String>,
    pub pagination_size_param: Option<String>,
    pub pagination_data_field: Option<String>,
    pub pagination_total_field: Option<String>,
}

/// An update that changes nothing.
pub open spec fn no_changes(r: UpdateMockRequest) -> bool {
    &&& r.name is None
    &&& r.description is None
    &&& r.method is None
    &&& r.path is None
    &&& r.request_schema is None
    &&& r.response_status is None
    &&& r.response_headers is None
    &&& r.response_body is None
    &&& r.response_delay_ms is None
    &&& r.enabled is None
    &&& r.pagination_enabled is None
    &&& r.request_params is None
    &&& r.pagination_page_size is None
    &&& r.pagination_page_param is None
    &&& r.pagination_size_param is None
    &&& r.pagination_data_field is None
    &&& r.pagination_total_field is None
}

impl Default for UpdateMockRequest {
    fn default() -> (r: UpdateMockRequest)
        ensures
            no_changes(r),
    {
        UpdateMockRequest {
            name: None,
            description: None,
            method: None,
            path: None,
            request_schema: None,
            response_status: None,
            response_headers: None,
            response_body: None,
            response_delay_ms: None,
            enabled: None,
            pagination_enabled: None,
            request_params: None,
            pagination_page_size: None,
            pagination_page_param: None,
            pagination_size_param: None,
            pagination_data_field: None,
            pagination_total_field: None,
        }
    }
}


// ---------------------------------------------------------------------------
// SQL parameters
// ---------------------------------------------------------------------------

/// A value bound to a `?n` placeholder of a statement.
pub enum SqlValue {
    Null,
    Int(i64),
    Text(String),
}

/// A bound value as plain data.
pub enum SqlV {
    Null,
    Int(int),
    Text(Seq<char>),
}

impl View for SqlValue {
    type V = SqlV;

    open spec fn view(&self) -> SqlV {
        match self {
            SqlValue::Null => SqlV::Null,
            SqlValue::Int(n) => SqlV::Int(*n as int),
            SqlValue::Text(t) => SqlV::Text(t@),
        }
    }
}

pub open spec fn sql_views(v: Seq<SqlValue>) -> Seq<SqlV> {
    v.map_values(|x: SqlValue| x@)
}

/// Texts joined with `sep` between neighbours.
pub open spec fn joined(parts: Seq<Seq<char>>, sep: Seq<char>) -> Seq<char>
    decreases parts.len(),
{
    if parts.len() == 0 {
        seq![]
    } else if parts.len() == 1 {
        parts[0]
    } else {
        joined(parts.drop_last(), sep) + sep + parts.last()
    }
}

/// `col_op ?n` for each condition, numbering the placeholders from 1.
pub open spec fn numbered(conds: Seq<Seq<char>>) -> Seq<Seq<char>> {
    Seq::new(conds.len(), |i: int| conds[i] + "?"@ + decimal((i + 1) as nat))
}

/// A `WHERE` clause joining the conditions with `AND`; empty without any.
pub open spec fn where_clause(conds: Seq<Seq<char>>) -> Seq<char> {
    if conds.len() == 0 {
        seq![]
    } else {
        "WHERE "@ + joined(numbered(conds), " AND "@)
    }
}

// ---------------------------------------------------------------------------
// Log queries
// ---------------------------------------------------------------------------

/// A page of a log, with its filters. Times are RFC 3339 text.
pub struct LogQuery {
    pub port: Option<u16>,
    pub mock_api_id: Option<i64>,
    pub path: Option<String>,
    pub since: Option<String>,
    pub until: Option<String>,
    pub page: u32,
    pub page_size: u32,
    pub level: Option<String>,
}

impl Default for LogQuery {
    fn default() -> (r: LogQuery)
        ensures
            r.port is None && r.mock_api_id is None && r.path is None && r.since is None && r.until is None
                && r.page == 0 && r.page_size == 0 && r.level is None,
    {
        LogQuery {
            port: None,
            mock_api_id: None,
            path: None,
            since: None,
            until: None,
            page: 0,
            page_size: 0,
            level: None,
        }
    }
}

/// One page of log entries and the number of entries that match.
pub struct LogPage<T> {
    pub items: Vec<T>,
    pub total: u64,
    pub page: u32,
    pub page_size: u32,
}

/// The statements and parameters that read one page of a log.
pub struct LogSql {
    pub count_sql: String,
    pub count_params: Vec<SqlValue>,
    pub data_sql: String,
    pub data_params: Vec<SqlValue>,
    /// The page size used (50 when the query asks for 0).
    pub page_size: u32,
}

/// The page size a query is answered with: 50 when it asks for 0.
pub open spec fn effective_page_size(q: LogQuery) -> u32 {
    if q.page_size == 0 {
        50
    } else {
        q.page_size
    }
}

pub open spec fn opt_cond(
    conds: Seq<(Seq<char>, SqlV)>,
    present: bool,
    col_op: Seq<char>,
    v: SqlV,
) -> Seq<(Seq<char>, SqlV)> {
    if present {
        conds.push((col_op, v))
    } else {
        conds
    }
}

/// A character as a `GLOB` pattern that matches only itself: the
/// wildcards `*`, `?` and `[` go in brackets.
pub open spec fn glob_char(c: char) -> Seq<char> {
    if c == '*' || c == '?' || c == '[' {
        seq!['[', c, ']']
    } else {
        seq![c]
    }
}

/// A text as a `GLOB` pattern that matches only itself.
pub open spec fn glob_literal(t: Seq<char>) -> Seq<char>
    decreases t.len(),
{
    if t.len() == 0 {
        seq![]
    } else {
        glob_literal(t.drop_last()) + glob_char(t.last())
    }
}

/// The `GLOB` pattern of the texts that contain `t`: `*`, `t` taken
/// literally, `*` (case-sensitive).
pub open spec fn contains_pattern(t: Seq<char>) -> Seq<char> {
    seq!['*'] + glob_literal(t) + seq!['*']
}

/// The filters of a request-log query, in order: port, mock, path (the
/// logged path contains the text), since, until.
pub open spec fn request_conditions(q: LogQuery) -> Seq<(Seq<char>, SqlV)> {
    let c0 = opt_cond(seq![], q.port is Some, "port = "@, SqlV::Int(q.port.unwrap() as int));
    let c1 = opt_cond(c0, q.mock_api_id is Some, "mock_api_id = "@, SqlV::Int(q.mock_api_id.unwrap() as int));
    let c2 = opt_cond(c1, q.path is Some, "path GLOB "@, SqlV::Text(contains_pattern(q.path.unwrap()@)));
    let c3 = opt_cond(c2, q.since is Some, "created_at >= "@, SqlV::Text(q.since.unwrap()@));
    opt_cond(c3, q.until is Some, "created_at <= "@, SqlV::Text(q.until.unwrap()@))
}

/// The `GLOB` pattern that matches the texts containing `t` (see
/// `contains_pattern`).
fn glob_contains(t: &str) -> (r: String)
    ensures
        r@ == contains_pattern(t@),
{
    let v = chars_of(t);
    let mut out: Vec<char> = vec!['*'];
    let mut i: usize = 0;
    while i < v.len()
        invariant
            i <= v.len(),
            out@ == seq!['*'] + glob_literal(v@.take(i as int)),
        decreases v.len() - i,
    {
        let c = v[i];
        proof {
            assert(v@.take(i as int + 1).drop_last() =~= v@.take(i as int));
        }
        if c == '*' || c == '?' || c == '[' {
            out.push('[');
            out.push(c);
            out.push(']');
        } else {
            out.push(c);
        }
        assert(out@ =~= seq!['*'] + glob_literal(v@.take(i as int + 1)));
        i = i + 1;
    }
    out.push('*');
    assert(v@.take(v@.len() as int) =~= v@);
    assert(out@ =~= contains_pattern(t@));
    string_of(out.as_slice())
}

/// The filters of a system-log query, in order: level, since, until.
pub open spec fn system_conditions(q: LogQuery) -> Seq<(Seq<char>, SqlV)> {
    let c0 = opt_cond(seq![], q.level is Some, "level = "@, SqlV::Text(q.level.unwrap()@));
    let c1 = opt_cond(c0, q.since is Some, "created_at >= "@, SqlV::Text(q.since.unwrap()@));
    opt_cond(c1, q.until is Some, "created_at <= "@, SqlV::Text(q.until.unwrap()@))
}

/// Adding an optional condition keeps the earlier ones, and adds the new
/// one exactly when it is present.
proof fn lemma_opt_cond(conds: Seq<(Seq<char>, SqlV)>, present: bool, col_op: Seq<char>, v: SqlV)
    ensures
        forall|x: (Seq<char>, SqlV)| conds.contains(x) ==> opt_cond(conds, present, col_op, v).contains(x),
        present ==> opt_cond(conds, present, col_op, v).contains((col_op, v)),
        opt_cond(conds, present, col_op, v).len() == conds.len() + (if present { 1int } else { 0int }),
{
    if present {
        let c2 = conds.push((col_op, v));
        assert(c2[conds.len() as int] == (col_op, v));
        assert forall|x: (Seq<char>, SqlV)| conds.contains(x) implies c2.contains(x) by {
            let k = choose|k: int| 0 <= k < conds.len() && conds[k] == x;
            assert(c2[k] == x);
        }
    }
}

/// Every filter a request-log query sets is one of its conditions (the
/// port, the mock, the path as a contains-pattern, the time bounds), and
/// there is no other condition.
pub proof fn lemma_request_filters_applied(q: LogQuery)
    ensures
        q.port matches Some(p) ==> request_conditions(q).contains(("port = "@, SqlV::Int(p as int))),
        q.mock_api_id matches Some(id) ==> request_conditions(q).contains(
            ("mock_api_id = "@, SqlV::Int(id as int)),
        ),
        q.path matches Some(t) ==> request_conditions(q).contains(
            ("path GLOB "@, SqlV::Text(contains_pattern(t@))),
        ),
        q.since matches Some(t) ==> request_conditions(q).contains(("created_at >= "@, SqlV::Text(t@))),
        q.until matches Some(t) ==> request_conditions(q).contains(("created_at <= "@, SqlV::Text(t@))),
        request_conditions(q).len() == (if q.port is Some { 1int } else { 0int }) + (if q.mock_api_id is Some {
            1int
        } else {
            0int
        }) + (if q.path is Some { 1int } else { 0int }) + (if q.since is Some { 1int } else { 0int }) + (
        if q.until is Some {
            1int
        } else {
            0int
        }),
{
    let c0 = opt_cond(seq![], q.port is Some, "port = "@, SqlV::Int(q.port.unwrap() as int));
    let c1 = opt_cond(c0, q.mock_api_id is Some, "mock_api_id = "@, SqlV::Int(q.mock_api_id.unwrap() as int));
    let c2 = opt_cond(c1, q.path is Some, "path GLOB "@, SqlV::Text(contains_pattern(q.path.unwrap()@)));
    let c3 = opt_cond(c2, q.since is Some, "created_at >= "@, SqlV::Text(q.since.unwrap()@));
    lemma_opt_cond(seq![], q.port is Some, "port = "@, SqlV::Int(q.port.unwrap() as int));
    lemma_opt_cond(c0, q.mock_api_id is Some, "mock_api_id = "@, SqlV::Int(q.mock_api_id.unwrap() as int));
    lemma_opt_cond(c1, q.path is Some, "path GLOB "@, SqlV::Text(contains_pattern(q.path.unwrap()@)));
    lemma_opt_cond(c2, q.since is Some, "created_at >= "@, SqlV::Text(q.since.unwrap()@));
    lemma_opt_cond(c3, q.until is Some, "created_at <= "@, SqlV::Text(q.until.unwrap()@));
}

/// Every filter a system-log query sets is one of its conditions (the
/// level, the time bounds), and there is no other condition.
pub proof fn lemma_system_filters_applied(q: LogQuery)
    ensures
        q.level matches Some(l) ==> system_conditions(q).contains(("level = "@, SqlV::Text(l@))),
        q.since matches Some(t) ==> system_conditions(q).contains(("created_at >= "@, SqlV::Text(t@))),
        q.until matches Some(t) ==> system_conditions(q).contains(("created_at <= "@, SqlV::Text(t@))),
        system_conditions(q).len() == (if q.level is Some { 1int } else { 0int }) + (if q.since is Some {
            1int
        } else {
            0int
        }) + (if q.until is Some { 1int } else { 0int }),
{
    let c0 = opt_cond(seq![], q.level is Some, "level = "@, SqlV::Text(q.level.unwrap()@));
    let c1 = opt_cond(c0, q.since is Some, "created_at >= "@, SqlV::Text(q.since.unwrap()@));
    lemma_opt_cond(seq![], q.level is Some, "level = "@, SqlV::Text(q.level.unwrap()@));
    lemma_opt_cond(c0, q.since is Some, "created_at >= "@, SqlV::Text(q.since.unwrap()@));
    lemma_opt_cond(c1, q.until is Some, "created_at <= "@, SqlV::Text(q.until.unwrap()@));
}


pub open spec fn cond_texts(c: Seq<(Seq<char>, SqlV)>) -> Seq<Seq<char>> {
    c.map_values(|p: (Seq<char>, SqlV)| p.0)
}

pub open spec fn cond_values(c: Seq<(Seq<char>, SqlV)>) -> Seq<SqlV> {
    c.map_values(|p: (Seq<char>, SqlV)| p.1)
}

/// The statements of a log page over `table` with the given columns and
/// filters: a count over the filtered rows, and the page of rows, newest
/// first, with the page size and offset as the two last parameters.
pub open spec fn log_sql_matches(
    r: LogSql,
    table: Seq<char>,
    columns: Seq<char>,
    conds: Seq<(Seq<char>, SqlV)>,
    q: LogQuery,
) -> bool {
    let w = where_clause(cond_texts(conds));
    let n = conds.len();
    let size = effective_page_size(q);
    &&& r.page_size == size
    &&& r.count_sql@ == "SELECT COUNT(*) FROM "@ + table + " "@ + w
    &&& sql_views(r.count_params@) == cond_values(conds)
    &&& r.data_sql@ == "SELECT "@ + columns + " FROM "@ + table + " "@ + w + " ORDER BY created_at DESC LIMIT ?"@
        + decimal((n + 1) as nat) + " OFFSET ?"@ + decimal((n + 2) as nat)
    &&& sql_views(r.data_params@) == cond_values(conds) + seq![
        SqlV::Int(size as int),
        SqlV::Int(q.page as int * size as int),
    ]
}

pub open spec fn request_log_columns() -> Seq<char> {
    "id, mock_api_id, port, method, path, query_string, request_body, request_headers, response_status, response_body, duration_ms, created_at, client_ip, response_headers"@
}

pub open spec fn system_log_columns() -> Seq<char> {
    "id, level, target, message, fields, created_at"@
}

/// Adds one condition: its text with the next placeholder number, and its value.
fn push_cond(
    texts: &mut Vec<String>,
    params: &mut Vec<SqlValue>,
    col_op: &str,
    v: SqlValue,
)
    requires
        old(texts).len() == old(params).len(),
        old(texts).len() < u64::MAX,
    ensures
        final(texts)@.len() == old(texts)@.len() + 1,
        final(params)@ == old(params)@.push(v),
        forall|i: int| 0 <= i < old(texts)@.len() ==> final(texts)@[i] == old(texts)@[i],
        final(texts)@[old(texts)@.len() as int]@ == col_op@ + "?"@ + decimal((old(texts)@.len() + 1) as nat),
{
    let mut t = chars_of(col_op);
    push_str_chars(&mut t, "?");
    let digits = u64_chars(texts.len() as u64 + 1);
    push_all(&mut t, &digits);
    texts.push(string_of(t.as_slice()));
    params.push(v);
}

/// Joins the numbered conditions into a `WHERE` clause.
fn where_text(texts: &Vec<String>) -> (r: Vec<char>)
    ensures
        r@ == (if texts@.len() == 0 {
            seq![]
        } else {
            "WHERE "@ + joined(texts@.map_values(|t: String| t@), " AND "@)
        }),
{
    let ghost tv = texts@.map_values(|t: String| t@);
    let mut out: Vec<char> = Vec::new();
    if texts.len() == 0 {
        return out;
    }
    push_str_chars(&mut out, "WHERE ");
    let ghost head = out@;
    let mut i: usize = 0;
    assert(tv.take(0) =~= seq![]);
    while i < texts.len()
        invariant
            tv == texts@.map_values(|t: String| t@),
            i <= texts.len(),
            head == "WHERE "@,
            out@ == head + joined(tv.take(i as int), " AND "@),
        decreases texts.len() - i,
    {
        let ghost t = tv.take(i as int + 1);
        assert(t.drop_last() =~= tv.take(i as int));
        assert(t.last() == texts@[i as int]@);
        let ghost before = out@;
        if i > 0 {
            push_str_chars(&mut out, " AND ");
        }
        push_str_chars(&mut out, texts[i].as_str());
        proof {
            if i == 0 {
                assert(joined(t, " AND "@) == t[0]);
                assert(out@ =~= head + joined(t, " AND "@));
            } else {
                assert(out@ =~= head + joined(t, " AND "@));
            }
        }
        i = i + 1;
    }
    assert(tv.take(texts.len() as int) =~= tv);
    out
}


proof fn lemma_numbered_push(c: Seq<Seq<char>>, x: Seq<char>)
    ensures
        numbered(c.push(x)) == numbered(c).push(x + "?"@ + decimal((c.len() + 1) as nat)),
{
    assert(numbered(c.push(x)) =~= numbered(c).push(x + "?"@ + decimal((c.len() + 1) as nat)));
}

/// The conditions collected so far: their numbered texts and their values
/// (once for the count, once for the page).
pub open spec fn conds_built(
    conds: Seq<(Seq<char>, SqlV)>,
    texts: Seq<String>,
    count_params: Seq<SqlValue>,
    data_params: Seq<SqlValue>,
) -> bool {
    &&& texts.map_values(|t: String| t@) == numbered(cond_texts(conds))
    &&& sql_views(count_params) == cond_values(conds)
    &&& sql_views(data_params) == cond_values(conds)
    &&& texts.len() == conds.len()
    &&& count_params.len() == conds.len()
    &&& conds.len() <= 32
}

fn add_cond(
    texts: &mut Vec<String>,
    count_params: &mut Vec<SqlValue>,
    data_params: &mut Vec<SqlValue>,
    conds: Ghost<Seq<(Seq<char>, SqlV)>>,
    col_op: &str,
    v: SqlValue,
    w: SqlValue,
)
    requires
        conds_built(conds@, old(texts)@, old(count_params)@, old(data_params)@),
        conds@.len() < 32,
        v@ == w@,
    ensures
        conds_built(conds@.push((col_op@, v@)), final(texts)@, final(count_params)@, final(data_params)@),
{
    let ghost cv = v@;
    push_cond(texts, count_params, col_op, v);
    data_params.push(w);
    proof {
        let c2 = conds@.push((col_op@, cv));
        assert(cond_texts(c2) =~= cond_texts(conds@).push(col_op@));
        lemma_numbered_push(cond_texts(conds@), col_op@);
        assert(texts@.map_values(|t: String| t@) =~= numbered(cond_texts(c2)));
        assert(cond_values(c2) =~= cond_values(conds@).push(cv));
        assert(sql_views(count_params@) =~= sql_views(old(count_params)@).push(cv));
        assert(sql_views(data_params@) =~= sql_views(old(data_params)@).push(cv));
    }
}

/// Assembles the count and page statements over `table` from the numbered
/// condition texts and their values.
fn assemble_log_sql(
    table: &str,
    columns: &str,
    texts: Vec<String>,
    count_params: Vec<SqlValue>,
    data_params: Vec<SqlValue>,
    conds: Ghost<Seq<(Seq<char>, SqlV)>>,
    q: &LogQuery,
) -> (r: LogSql)
    requires
        conds_built(conds@, texts@, count_params@, data_params@),
        q.page as int * effective_page_size(*q) as int <= u32::MAX,
    ensures
        log_sql_matches(r, table@, columns@, conds@, *q),
{
    let size: u32 = if q.page_size == 0 {
        50
    } else {
        q.page_size
    };
    let offset: u32 = q.page * size;
    let w = where_text(&texts);
    let n = texts.len() as u64;
    let mut count_sql = chars_of("SELECT COUNT(*) FROM ");
    push_str_chars(&mut count_sql, table);
    push_str_chars(&mut count_sql, " ");
    push_all(&mut count_sql, &w);
    let mut data_sql = chars_of("SELECT ");
    push_str_chars(&mut data_sql, columns);
    push_str_chars(&mut data_sql, " FROM ");
    push_str_chars(&mut data_sql, table);
    push_str_chars(&mut data_sql, " ");
    push_all(&mut data_sql, &w);
    push_str_chars(&mut data_sql, " ORDER BY created_at DESC LIMIT ?");
    let d1 = u64_chars(n + 1);
    push_all(&mut data_sql, &d1);
    push_str_chars(&mut data_sql, " OFFSET ?");
    let d2 = u64_chars(n + 2);
    push_all(&mut data_sql, &d2);
    let mut dp = data_params;
    let ghost before = sql_views(dp@);
    dp.push(SqlValue::Int(size as i64));
    dp.push(SqlValue::Int(offset as i64));
    proof {
        assert(where_clause(cond_texts(conds@)) == w@);
        assert(sql_views(dp@) =~= before + seq![SqlV::Int(size as int), SqlV::Int(offset as int)]);
    }
    LogSql {
        count_sql: string_of(count_sql.as_slice()),
        count_params,
        data_sql: string_of(data_sql.as_slice()),
        data_params: dp,
        page_size: size,
    }
}

/// The statements that read one page of request logs (see
/// `log_sql_matches`), filtered by port, mock, path and time range.
pub fn request_log_sql(q: &LogQuery) -> (r: LogSql)
    requires
        q.page as int * effective_page_size(*q) as int <= u32::MAX,
    ensures
        log_sql_matches(r, "request_logs"@, request_log_columns(), request_conditions(*q), *q),
{
    let mut texts: Vec<String> = Vec::new();
    let mut cp: Vec<SqlValue> = Vec::new();
    let mut dp: Vec<SqlValue> = Vec::new();
    let ghost c: Seq<(Seq<char>, SqlV)> = seq![];
    assert(numbered(cond_texts(c)) =~= texts@.map_values(|t: String| t@));
    assert(sql_views(cp@) =~= cond_values(c));
    assert(sql_views(dp@) =~= cond_values(c));
    match q.port {
        Some(port) => {
            add_cond(&mut texts, &mut cp, &mut dp, Ghost(c), "port = ", SqlValue::Int(port as i64), SqlValue::Int(port as i64));
            proof { c = c.push(("port = "@, SqlV::Int(port as int))); }
        },
        None => {},
    }
    match q.mock_api_id {
        Some(id) => {
            add_cond(&mut texts, &mut cp, &mut dp, Ghost(c), "mock_api_id = ", SqlValue::Int(id), SqlValue::Int(id));
            proof { c = c.push(("mock_api_id = "@, SqlV::Int(id as int))); }
        },
        None => {},
    }
    match &q.path {
        Some(p) => {
            let pat = glob_contains(p.as_str());
            add_cond(&mut texts, &mut cp, &mut dp, Ghost(c), "path GLOB ", SqlValue::Text(pat.clone()), SqlValue::Text(pat));
            proof { c = c.push(("path GLOB "@, SqlV::Text(contains_pattern(p@)))); }
        },
        None => {},
    }
    match &q.since {
        Some(t) => {
            add_cond(&mut texts, &mut cp, &mut dp, Ghost(c), "created_at >= ", SqlValue::Text(t.clone()), SqlValue::Text(t.clone()));
            proof { c = c.push(("created_at >= "@, SqlV::Text(t@))); }
        },
        None => {},
    }
    match &q.until {
        Some(t) => {
            add_cond(&mut texts, &mut cp, &mut dp, Ghost(c), "created_at <= ", SqlValue::Text(t.clone()), SqlValue::Text(t.clone()));
            proof { c = c.push(("created_at <= "@, SqlV::Text(t@))); }
        },
        None => {},
    }
    assert(c == request_conditions(*q));
    let columns = "id, mock_api_id, port, method, path, query_string, request_body, request_headers, response_status, response_body, duration_ms, created_at, client_ip, response_headers";
    assemble_log_sql("request_logs", columns, texts, cp, dp, Ghost(c), q)
}

/// The statements that read one page of system logs (see
/// `log_sql_matches`), filtered by level and time range.
pub fn system_log_sql(q: &LogQuery) -> (r: LogSql)
    requires
        q.page as int * effective_page_size(*q) as int <= u32::MAX,
    ensures
        log_sql_matches(r, "system_logs"@, system_log_columns(), system_conditions(*q), *q),
{
    let mut texts: Vec<String> = Vec::new();
    let mut cp: Vec<SqlValue> = Vec::new();
    let mut dp: Vec<SqlValue> = Vec::new();
    let ghost c: Seq<(Seq<char>, SqlV)> = seq![];
    assert(numbered(cond_texts(c)) =~= texts@.map_values(|t: String| t@));
    assert(sql_views(cp@) =~= cond_values(c));
    assert(sql_views(dp@) =~= cond_values(c));
    match &q.level {
        Some(l) => {
            add_cond(&mut texts, &mut cp, &mut dp, Ghost(c), "level = ", SqlValue::Text(l.clone()), SqlValue::Text(l.clone()));
            proof { c = c.push(("level = "@, SqlV::Text(l@))); }
        },
        None => {},
    }
    match &q.since {
        Some(t) => {
            add_cond(&mut texts, &mut cp, &mut dp, Ghost(c), "created_at >= ", SqlValue::Text(t.clone()), SqlValue::Text(t.clone()));
            proof { c = c.push(("created_at >= "@, SqlV::Text(t@))); }
        },
        None => {},
    }
    match &q.until {
        Some(t) => {
            add_cond(&mut texts, &mut cp, &mut dp, Ghost(c), "created_at <= ", SqlValue::Text(t.clone()), SqlValue::Text(t.clone()));
            proof { c = c.push(("created_at <= "@, SqlV::Text(t@))); }
        },
        None => {},
    }
    assert(c == system_conditions(*q));
    assemble_log_sql("system_logs", "id, level, target, message, fields, created_at", texts, cp, dp, Ghost(c), q)
}


// ---------------------------------------------------------------------------
// Mock rows written
// ---------------------------------------------------------------------------

/// String pairs as a JSON object of strings.
pub open spec fn pairs_value(ps: Seq<(Seq<char>, Seq<char>)>) -> JV {
    JV::Object(ps.map_values(|p: (Seq<char>, Seq<char>)| (p.0, JV::Str(p.1))))
}

/// The JSON text stored for string pairs (a header or param map).
pub fn pairs_json(ps: &Vec<(String, String)>) -> (r: String)
    ensures
        r@ == text_of(pairs_value(pair_views(ps@))),
{
    let mut m: Vec<(String, Json)> = Vec::new();
    let mut i: usize = 0;
    let ghost pv = pair_views(ps@);
    proof {
        lemma_view_obj(m@);
    }
    assert(view_obj(m@) =~= pairs_value(pv.take(0))->Object_0);
    while i < ps.len()
        invariant
            pv == pair_views(ps@),
            i <= ps.len(),
            view_obj(m@) == pairs_value(pv.take(i as int))->Object_0,
        decreases ps.len() - i,
    {
        let k = ps[i].0.clone();
        let v = ps[i].1.clone();
        proof {
            lemma_view_obj_push(m@, (k, Json::Str(v)));
        }
        m.push((k, Json::Str(v)));
        i = i + 1;
        assert(view_obj(m@) =~= pairs_value(pv.take(i as int))->Object_0);
    }
    assert(pv.take(ps.len() as int) =~= pv);
    let j = Json::Object(m);
    to_text(&j)
}

/// The first assignments of an update: name, description, method, path,
/// status and body.
pub open spec fn assignments_head(req: UpdateMockRequest) -> Seq<(Seq<char>, SqlV)> {
    let c0 = opt_cond(seq![], req.name is Some, "name = "@, SqlV::Text(req.name.unwrap()@));
    let c1 = opt_cond(c0, req.description is Some, "description = "@, SqlV::Text(req.description.unwrap()@));
    let c2 = opt_cond(c1, req.method is Some, "method = "@, SqlV::Text(method_name(req.method.unwrap())));
    let c3 = opt_cond(c2, req.path is Some, "path = "@, SqlV::Text(req.path.unwrap()@));
    let c4 = opt_cond(c3, req.response_status is Some, "response_status = "@, SqlV::Int(req.response_status.unwrap() as int));
    opt_cond(c4, req.response_body is Some, "response_body = "@, SqlV::Text(req.response_body.unwrap()@))
}

/// The middle assignments: delay, enabled, pagination switch, request
/// params, page size and page param.
pub open spec fn assignments_middle(req: UpdateMockRequest, c: Seq<(Seq<char>, SqlV)>) -> Seq<(Seq<char>, SqlV)> {
    let c6 = opt_cond(c, req.response_delay_ms is Some, "response_delay_ms = "@, SqlV::Int(req.response_delay_ms.unwrap() as i64 as int));
    let c7 = opt_cond(c6, req.enabled is Some, "enabled = "@, SqlV::Int(if req.enabled.unwrap() { 1 } else { 0 }));
    let c8 = opt_cond(c7, req.pagination_enabled is Some, "pagination_enabled = "@, SqlV::Int(if req.pagination_enabled.unwrap() { 1 } else { 0 }));
    let c9 = opt_cond(c8, req.request_params is Some, "request_params = "@, SqlV::Text(text_of(pairs_value(pair_views(req.request_params.unwrap()@)))));
    let c10 = opt_cond(c9, req.pagination_page_size is Some, "pagination_page_size = "@, SqlV::Int(req.pagination_page_size.unwrap() as int));
    opt_cond(c10, req.pagination_page_param is Some, "pagination_page_param = "@, SqlV::Text(req.pagination_page_param.unwrap()@))
}

/// The last assignments: size param, data field, total field, headers and
/// schema (`NULL` clears it).
pub open spec fn assignments_tail(req: UpdateMockRequest, c: Seq<(Seq<char>, SqlV)>) -> Seq<(Seq<char>, SqlV)> {
    let c12 = opt_cond(c, req.pagination_size_param is Some, "pagination_size_param = "@, SqlV::Text(req.pagination_size_param.unwrap()@));
    let c13 = opt_cond(c12, req.pagination_data_field is Some, "pagination_data_field = "@, SqlV::Text(req.pagination_data_field.unwrap()@));
    let c14 = opt_cond(c13, req.pagination_total_field is Some, "pagination_total_field = "@, SqlV::Text(req.pagination_total_field.unwrap()@));
    let c15 = opt_cond(c14, req.response_headers is Some, "response_headers = "@, SqlV::Text(text_of(pairs_value(pair_views(req.response_headers.unwrap()@)))));
    opt_cond(c15, req.request_schema is Some, "request_schema = "@, match req.request_schema.unwrap() {
        Some(v) => SqlV::Text(text_of(v@)),
        None => SqlV::Null,
    })
}

/// The assignments an update makes, in order, each with its value.
pub open spec fn update_assignments(req: UpdateMockRequest) -> Seq<(Seq<char>, SqlV)> {
    assignments_tail(req, assignments_middle(req, assignments_head(req)))
}

/// An update issues a statement exactly when it changes some column: one
/// that changes nothing (such as `UpdateMockRequest::default()`) leaves the
/// stored mock, and its `updated_at`, as they are.
pub proof fn lemma_update_needs_a_change(req: UpdateMockRequest)
    ensures
        (update_assignments(req).len() == 0) == no_changes(req),
{
}

/// The `UPDATE` statement of an update and its parameters, the mock's id
/// last; `None` when the update changes nothing. Every real update also
/// stamps `updated_at`.
pub open spec fn update_sql_matches(id: i64, req: UpdateMockRequest, r: Option<(String, Vec<SqlValue>)>) -> bool {
    let a = update_assignments(req);
    if a.len() == 0 {
        r is None
    } else {
        r matches Some((sql, params)) && sql@ == "UPDATE mock_apis SET "@ + joined(
            numbered(cond_texts(a)).push("updated_at = strftime('%Y-%m-%dT%H:%M:%fZ','now')"@),
            ", "@,
        ) + " WHERE id = ?"@ + decimal((a.len() + 1) as nat) && sql_views(params@) == cond_values(a).push(
            SqlV::Int(id as int),
        )
    }
}

fn join_texts(texts: &Vec<String>, sep: &str) -> (r: Vec<char>)
    ensures
        r@ == joined(texts@.map_values(|t: String| t@), sep@),
{
    let ghost tv = texts@.map_values(|t: String| t@);
    let mut out: Vec<char> = Vec::new();
    let mut i: usize = 0;
    assert(tv.take(0) =~= seq![]);
    while i < texts.len()
        invariant
            tv == texts@.map_values(|t: String| t@),
            i <= texts.len(),
            out@ == joined(tv.take(i as int), sep@),
        decreases texts.len() - i,
    {
        let ghost t = tv.take(i as int + 1);
        assert(t.drop_last() =~= tv.take(i as int));
        assert(t.last() == texts@[i as int]@);
        if i > 0 {
            push_str_chars(&mut out, sep);
        }
        push_str_chars(&mut out, texts[i].as_str());
        proof {
            if i == 0 {
                assert(out@ =~= joined(t, sep@));
            }
        }
        i = i + 1;
    }
    assert(tv.take(texts.len() as int) =~= tv);
    out
}

fn assign_head(req: &UpdateMockRequest, texts: &mut Vec<String>, ps: &mut Vec<SqlValue>, dp: &mut Vec<SqlValue>, c0: Ghost<Seq<(Seq<char>, SqlV)>>)
    requires
        conds_built(c0@, old(texts)@, old(ps)@, old(dp)@),
        c0@.len() == 0,
    ensures
        conds_built(assignments_head(*req), final(texts)@, final(ps)@, final(dp)@),
        assignments_head(*req).len() <= 6,
{
    let ghost mut c = c0@;
    if let Some(v) = &req.name {
        add_cond(texts, ps, dp, Ghost(c), "name = ", SqlValue::Text(v.clone()), SqlValue::Text(v.clone()));
        proof { c = c.push(("name = "@, SqlV::Text(v@))); }
    }
    if let Some(v) = &req.description {
        add_cond(texts, ps, dp, Ghost(c), "description = ", SqlValue::Text(v.clone()), SqlValue::Text(v.clone()));
        proof { c = c.push(("description = "@, SqlV::Text(v@))); }
    }
    if let Some(v) = req.method {
        add_cond(texts, ps, dp, Ghost(c), "method = ", SqlValue::Text(v.to_text()), SqlValue::Text(v.to_text()));
        proof { c = c.push(("method = "@, SqlV::Text(method_name(v)))); }
    }
    if let Some(v) = &req.path {
        add_cond(texts, ps, dp, Ghost(c), "path = ", SqlValue::Text(v.clone()), SqlValue::Text(v.clone()));
        proof { c = c.push(("path = "@, SqlV::Text(v@))); }
    }
    if let Some(v) = req.response_status {
        add_cond(texts, ps, dp, Ghost(c), "response_status = ", SqlValue::Int(v as i64), SqlValue::Int(v as i64));
        proof { c = c.push(("response_status = "@, SqlV::Int(v as int))); }
    }
    if let Some(v) = &req.response_body {
        add_cond(texts, ps, dp, Ghost(c), "response_body = ", SqlValue::Text(v.clone()), SqlValue::Text(v.clone()));
        proof { c = c.push(("response_body = "@, SqlV::Text(v@))); }
    }
    assert(c == assignments_head(*req));
}

fn assign_middle(req: &UpdateMockRequest, texts: &mut Vec<String>, ps: &mut Vec<SqlValue>, dp: &mut Vec<SqlValue>, c0: Ghost<Seq<(Seq<char>, SqlV)>>)
    requires
        conds_built(c0@, old(texts)@, old(ps)@, old(dp)@),
        c0@.len() <= 6,
    ensures
        conds_built(assignments_middle(*req, c0@), final(texts)@, final(ps)@, final(dp)@),
        assignments_middle(*req, c0@).len() <= 12,
{
    let ghost mut c = c0@;
    if let Some(v) = req.response_delay_ms {
        add_cond(texts, ps, dp, Ghost(c), "response_delay_ms = ", SqlValue::Int(v as i64), SqlValue::Int(v as i64));
        proof { c = c.push(("response_delay_ms = "@, SqlV::Int(v as i64 as int))); }
    }
    if let Some(v) = req.enabled {
        let n: i64 = if v { 1 } else { 0 };
        add_cond(texts, ps, dp, Ghost(c), "enabled = ", SqlValue::Int(n), SqlValue::Int(n));
        proof { c = c.push(("enabled = "@, SqlV::Int(n as int))); }
    }
    if let Some(v) = req.pagination_enabled {
        let n: i64 = if v { 1 } else { 0 };
        add_cond(texts, ps, dp, Ghost(c), "pagination_enabled = ", SqlValue::Int(n), SqlValue::Int(n));
        proof { c = c.push(("pagination_enabled = "@, SqlV::Int(n as int))); }
    }
    if let Some(v) = &req.request_params {
        let j = pairs_json(v);
        add_cond(texts, ps, dp, Ghost(c), "request_params = ", SqlValue::Text(j.clone()), SqlValue::Text(j.clone()));
        proof { c = c.push(("request_params = "@, SqlV::Text(j@))); }
    }
    if let Some(v) = req.pagination_page_size {
        add_cond(texts, ps, dp, Ghost(c), "pagination_page_size = ", SqlValue::Int(v as i64), SqlValue::Int(v as i64));
        proof { c = c.push(("pagination_page_size = "@, SqlV::Int(v as int))); }
    }
    if let Some(v) = &req.pagination_page_param {
        add_cond(texts, ps, dp, Ghost(c), "pagination_page_param = ", SqlValue::Text(v.clone()), SqlValue::Text(v.clone()));
        proof { c = c.push(("pagination_page_param = "@, SqlV::Text(v@))); }
    }
    assert(c == assignments_middle(*req, c0@));
}

fn assign_tail(req: &UpdateMockRequest, texts: &mut Vec<String>, ps: &mut Vec<SqlValue>, dp: &mut Vec<SqlValue>, c0: Ghost<Seq<(Seq<char>, SqlV)>>)
    requires
        conds_built(c0@, old(texts)@, old(ps)@, old(dp)@),
        c0@.len() <= 12,
    ensures
        conds_built(assignments_tail(*req, c0@), final(texts)@, final(ps)@, final(dp)@),
        assignments_tail(*req, c0@).len() <= 18,
{
    let ghost mut c = c0@;
    if let Some(v) = &req.pagination_size_param {
        add_cond(texts, ps, dp, Ghost(c), "pagination_size_param = ", SqlValue::Text(v.clone()), SqlValue::Text(v.clone()));
        proof { c = c.push(("pagination_size_param = "@, SqlV::Text(v@))); }
    }
    if let Some(v) = &req.pagination_data_field {
        add_cond(texts, ps, dp, Ghost(c), "pagination_data_field = ", SqlValue::Text(v.clone()), SqlValue::Text(v.clone()));
        proof { c = c.push(("pagination_data_field = "@, SqlV::Text(v@))); }
    }
    if let Some(v) = &req.pagination_total_field {
        add_cond(texts, ps, dp, Ghost(c), "pagination_total_field = ", SqlValue::Text(v.clone()), SqlValue::Text(v.clone()));
        proof { c = c.push(("pagination_total_field = "@, SqlV::Text(v@))); }
    }
    if let Some(v) = &req.response_headers {
        let j = pairs_json(v);
        add_cond(texts, ps, dp, Ghost(c), "response_headers = ", SqlValue::Text(j.clone()), SqlValue::Text(j.clone()));
        proof { c = c.push(("response_headers = "@, SqlV::Text(j@))); }
    }
    if let Some(v) = &req.request_schema {
        let (a, b) = match v {
            Some(s) => (SqlValue::Text(to_text(s)), SqlValue::Text(to_text(s))),
            None => (SqlValue::Null, SqlValue::Null),
        };
        let ghost av = a@;
        add_cond(texts, ps, dp, Ghost(c), "request_schema = ", a, b);
        proof { c = c.push(("request_schema = "@, av)); }
    }
    assert(c == assignments_tail(*req, c0@));
}

/// The `UPDATE` for changes to mock `id` (see `update_sql_matches`).
pub fn update_mock_sql(id: i64, req: &UpdateMockRequest) -> (r: Option<(String, Vec<SqlValue>)>)
    ensures
        update_sql_matches(id, *req, r),
{
    let mut texts: Vec<String> = Vec::new();
    let mut ps: Vec<SqlValue> = Vec::new();
    let mut dp: Vec<SqlValue> = Vec::new();
    let ghost e: Seq<(Seq<char>, SqlV)> = seq![];
    assert(numbered(cond_texts(e)) =~= texts@.map_values(|t: String| t@));
    assert(sql_views(ps@) =~= cond_values(e));
    assert(sql_views(dp@) =~= cond_values(e));
    assign_head(req, &mut texts, &mut ps, &mut dp, Ghost(e));
    let ghost h = assignments_head(*req);
    assign_middle(req, &mut texts, &mut ps, &mut dp, Ghost(h));
    let ghost m = assignments_middle(*req, h);
    assign_tail(req, &mut texts, &mut ps, &mut dp, Ghost(m));
    let ghost c = assignments_tail(*req, m);
    assert(c == update_assignments(*req));
    if texts.len() == 0 {
        return None;
    }
    let n = texts.len() as u64;
    let ghost nt = texts@.map_values(|t: String| t@);
    texts.push("updated_at = strftime('%Y-%m-%dT%H:%M:%fZ','now')".to_owned());
    assert(texts@.map_values(|t: String| t@) =~= nt.push("updated_at = strftime('%Y-%m-%dT%H:%M:%fZ','now')"@));
    let sets = join_texts(&texts, ", ");
    let mut sql = chars_of("UPDATE mock_apis SET ");
    push_all(&mut sql, &sets);
    push_str_chars(&mut sql, " WHERE id = ?");
    let d = u64_chars(n + 1);
    push_all(&mut sql, &d);
    let ghost before = sql_views(ps@);
    ps.push(SqlValue::Int(id));
    assert(sql_views(ps@) =~= before.push(SqlV::Int(id as int)));
    Some((string_of(sql.as_slice()), ps))
}


/// A flag as SQLite stores it.
pub open spec fn flag(b: bool) -> SqlV {
    SqlV::Int(if b {
        1
    } else {
        0
    })
}

/// Optional text as a parameter: the text, or `NULL`.
pub open spec fn opt_param(t: Option<String>) -> SqlV {
    match t {
        Some(s) => SqlV::Text(s@),
        None => SqlV::Null,
    }
}

/// The parameters of the `INSERT` of a new mock, in column order: port,
/// name, description, method, path, schema, status, headers, body, delay,
/// pagination switch, page size, request params, page param, size param,
/// data field, total field.
pub open spec fn create_params(req: CreateMockRequest) -> Seq<SqlV> {
    seq![
        SqlV::Int(req.port_id as int),
        SqlV::Text(req.name@),
        SqlV::Text(req.description@),
        SqlV::Text(method_name(req.method)),
        SqlV::Text(req.path@),
        match req.request_schema {
            Some(v) => SqlV::Text(text_of(v@)),
            None => SqlV::Null,
        },
        SqlV::Int(req.response_status as int),
        SqlV::Text(text_of(pairs_value(pair_views(req.response_headers@)))),
        SqlV::Text(req.response_body@),
        SqlV::Int(req.response_delay_ms as i64 as int),
        flag(req.pagination_enabled),
        SqlV::Int(req.pagination_page_size as int),
        SqlV::Text(text_of(pairs_value(pair_views(req.request_params@)))),
        SqlV::Text(req.pagination_page_param@),
        SqlV::Text(req.pagination_size_param@),
        SqlV::Text(req.pagination_data_field@),
        SqlV::Text(req.pagination_total_field@),
    ]
}

fn flag_value(b: bool) -> (r: SqlValue)
    ensures
        r@ == flag(b),
{
    SqlValue::Int(if b {
        1
    } else {
        0
    })
}

fn opt_value(t: &Option<String>) -> (r: SqlValue)
    ensures
        r@ == opt_param(*t),
{
    match t {
        Some(s) => SqlValue::Text(s.clone()),
        None => SqlValue::Null,
    }
}

/// The parameters of the `INSERT` of a new mock (see `create_params`).
pub fn create_mock_params(req: &CreateMockRequest) -> (r: Vec<SqlValue>)
    ensures
        sql_views(r@) == create_params(*req),
{
    let schema = match &req.request_schema {
        Some(v) => SqlValue::Text(to_text(v)),
        None => SqlValue::Null,
    };
    let r = vec![
        SqlValue::Int(req.port_id),
        SqlValue::Text(req.name.clone()),
        SqlValue::Text(req.description.clone()),
        SqlValue::Text(req.method.to_text()),
        SqlValue::Text(req.path.clone()),
        schema,
        SqlValue::Int(req.response_status as i64),
        SqlValue::Text(pairs_json(&req.response_headers)),
        SqlValue::Text(req.response_body.clone()),
        SqlValue::Int(req.response_delay_ms as i64),
        flag_value(req.pagination_enabled),
        SqlValue::Int(req.pagination_page_size as i64),
        SqlValue::Text(pairs_json(&req.request_params)),
        SqlValue::Text(req.pagination_page_param.clone()),
        SqlValue::Text(req.pagination_size_param.clone()),
        SqlValue::Text(req.pagination_data_field.clone()),
        SqlValue::Text(req.pagination_total_field.clone()),
    ];
    assert(sql_views(r@) =~= create_params(*req));
    r
}

/// The parameters of the `INSERT` of a request log, in column order: mock,
/// port, method, path, query, request body, request headers, status,
/// response body, duration, client address, response headers.
pub open spec fn request_log_params(log: RequestLog) -> Seq<SqlV> {
    seq![
        match log.mock_api_id {
            Some(id) => SqlV::Int(id as int),
            None => SqlV::Null,
        },
        SqlV::Int(log.port as int),
        SqlV::Text(log.method@),
        SqlV::Text(log.path@),
        opt_param(log.query_string),
        opt_param(log.request_body),
        SqlV::Text(text_of(pairs_value(pair_views(log.request_headers@)))),
        SqlV::Int(log.response_status as int),
        opt_param(log.response_body),
        SqlV::Int(log.duration_ms as i64 as int),
        opt_param(log.client_ip),
        SqlV::Text(text_of(pairs_value(pair_views(log.response_headers@)))),
    ]
}

/// The parameters that store a request log (see `request_log_params`).
pub fn append_request_log_params(log: &RequestLog) -> (r: Vec<SqlValue>)
    ensures
        sql_views(r@) == request_log_params(*log),
{
    let mock = match log.mock_api_id {
        Some(id) => SqlValue::Int(id),
        None => SqlValue::Null,
    };
    let r = vec![
        mock,
        SqlValue::Int(log.port as i64),
        SqlValue::Text(log.method.clone()),
        SqlValue::Text(log.path.clone()),
        opt_value(&log.query_string),
        opt_value(&log.request_body),
        SqlValue::Text(pairs_json(&log.request_headers)),
        SqlValue::Int(log.response_status as i64),
        opt_value(&log.response_body),
        SqlValue::Int(log.duration_ms as i64),
        opt_value(&log.client_ip),
        SqlValue::Text(pairs_json(&log.response_headers)),
    ];
    assert(sql_views(r@) =~= request_log_params(*log));
    r
}

/// The parameters of the `INSERT` of a system log: level, target, message,
/// and the fields as JSON text (or `NULL`).
pub open spec fn system_log_params(log: SystemLog) -> Seq<SqlV> {
    seq![
        SqlV::Text(log.level@),
        SqlV::Text(log.target@),
        SqlV::Text(log.message@),
        match log.fields {
            Some(v) => SqlV::Text(text_of(v@)),
            None => SqlV::Null,
        },
    ]
}

/// The parameters that store a system log (see `system_log_params`).
pub fn append_system_log_params(log: &SystemLog) -> (r: Vec<SqlValue>)
    ensures
        sql_views(r@) == system_log_params(*log),
{
    let fields = match &log.fields {
        Some(v) => SqlValue::Text(to_text(v)),
        None => SqlValue::Null,
    };
    let r = vec![
        SqlValue::Text(log.level.clone()),
        SqlValue::Text(log.target.clone()),
        SqlValue::Text(log.message.clone()),
        fields,
    ];
    assert(sql_views(r@) =~= system_log_params(*log));
    r
}


// ---------------------------------------------------------------------------
// Rows read back
// ---------------------------------------------------------------------------

/// The string members of a JSON object, when every member is a string.
pub open spec fn all_strings(es: Seq<(Seq<char>, JV)>) -> bool {
    forall|i: int| 0 <= i < es.len() ==> #[trigger] es[i].1 is Str
}

/// A stored JSON map of strings read back: its pairs, or none when the
/// text is not a JSON object of strings.
pub open spec fn string_map(text: Seq<char>) -> Seq<(Seq<char>, Seq<char>)> {
    match parse_json(text) {
        Some(JV::Object(es)) => if all_strings(es) {
            es.map_values(|e: (Seq<char>, JV)| (e.0, e.1->Str_0))
        } else {
            seq![]
        },
        _ => seq![],
    }
}

/// The entries of an optional stored map, in the order they are read; a
/// missing value reads as no entries.
pub open spec fn opt_string_entries(t: Option<String>) -> Seq<(Seq<char>, Seq<char>)> {
    match t {
        Some(s) => string_map(s@),
        None => seq![],
    }
}

/// An optional stored map read back as a map: each key once, with its last
/// value.
pub open spec fn opt_string_map(t: Option<String>) -> Seq<(Seq<char>, Seq<char>)> {
    last_per_key(opt_string_entries(t))
}

/// Reads an optional stored map (see `opt_string_map`).
fn read_string_map(t: &Option<String>) -> (r: Vec<(String, String)>)
    ensures
        pair_views(r@) == opt_string_map(*t),
        distinct_keys(pair_views(r@)),
{
    let entries = read_string_entries(t);
    keep_last_per_key(&entries)
}

fn read_string_entries(t: &Option<String>) -> (r: Vec<(String, String)>)
    ensures
        pair_views(r@) == opt_string_entries(*t),
{
    let mut out: Vec<(String, String)> = Vec::new();
    assert(pair_views(out@) =~= seq![]);
    let text = match t {
        Some(s) => s,
        None => {
            return out;
        },
    };
    let j = match parse(text.as_str()) {
        Some(j) => j,
        None => {
            return out;
        },
    };
    let m = match &j {
        Json::Object(m) => m,
        _ => {
            return out;
        },
    };
    proof {
        lemma_view_obj(m@);
    }
    let ghost es = view_obj(m@);
    assert(opt_string_entries(*t) == (if all_strings(es) {
        es.map_values(|e: (Seq<char>, JV)| (e.0, e.1->Str_0))
    } else {
        seq![]
    }));
    let mut i: usize = 0;
    while i < m.len()
        invariant
            opt_string_entries(*t) == (if all_strings(es) {
                es.map_values(|e: (Seq<char>, JV)| (e.0, e.1->Str_0))
            } else {
                seq![]
            }),
            es == view_obj(m@),
            es.len() == m.len(),
            forall|q: int| 0 <= q < m.len() ==> #[trigger] es[q] == (m@[q].0@, view_json(m@[q].1)),
            i <= m.len(),
            forall|q: int| 0 <= q < i ==> #[trigger] es[q].1 is Str,
            pair_views(out@) == es.take(i as int).map_values(|e: (Seq<char>, JV)| (e.0, e.1->Str_0)),
        decreases m.len() - i,
    {
        assert(es[i as int] == (m@[i as int].0@, view_json(m@[i as int].1)));
        match &m[i].1 {
            Json::Str(v) => {
                assert(es[i as int].1 == JV::Str(v@));
                let ghost before = pair_views(out@);
                out.push((m[i].0.clone(), v.clone()));
                assert(pair_views(out@) =~= before.push((m@[i as int].0@, v@)));
                assert(es.take(i as int + 1).drop_last() =~= es.take(i as int));
                assert(pair_views(out@) =~= es.take(i as int + 1).map_values(
                    |e: (Seq<char>, JV)| (e.0, e.1->Str_0),
                ));
            },
            _ => {
                assert(!(es[i as int].1 is Str));
                assert(!all_strings(es));
                let empty: Vec<(String, String)> = Vec::new();
                assert(pair_views(empty@) =~= seq![]);
                return empty;
            },
        }
        i = i + 1;
    }
    assert(es.take(m.len() as int) =~= es);
    out
}

/// A stored JSON document read back, when it is one.
pub open spec fn opt_document(t: Option<String>) -> Option<JV> {
    match t {
        Some(s) => parse_json(s@),
        None => None,
    }
}

fn read_document(t: &Option<String>) -> (r: Option<Json>)
    ensures
        match opt_document(*t) {
            Some(v) => r matches Some(j) && j@ == v,
            None => r is None,
        },
{
    match t {
        Some(s) => parse(s.as_str()),
        None => None,
    }
}

/// The UTC time, as chrono's `to_rfc3339` writes it, of a text that chrono
/// reads as RFC 3339; `None` for a text it does not read.
pub uninterp spec fn utc_rfc3339(text: Seq<char>) -> Option<Seq<char>>;

/// `chrono::DateTime::parse_from_rfc3339(text)`, taken to UTC and written
/// with `to_rfc3339`; `None` when chrono does not read the text. The result
/// depends on the text alone and is named `utc_rfc3339`.
#[verifier::external_body]
fn parse_utc(text: &str) -> (r: Option<String>)
    ensures
        match r {
            Some(t) => utc_rfc3339(text@) == Some(t@),
            None => utc_rfc3339(text@) is None,
        },
{
    chrono::DateTime::parse_from_rfc3339(text).ok().map(|t| t.with_timezone(&chrono::Utc).to_rfc3339())
}

/// The start of the epoch, the time of a stored time that does not read.
pub open spec fn epoch_text() -> Seq<char> {
    "1970-01-01T00:00:00+00:00"@
}

/// A stored time as the records carry it: the stored text in UTC when it
/// reads as RFC 3339, else the epoch.
pub open spec fn stored_time_text(t: Option<String>) -> Seq<char> {
    match t {
        Some(s) => match utc_rfc3339(s@) {
            Some(u) => u,
            None => epoch_text(),
        },
        None => epoch_text(),
    }
}

/// Reads a stored time (see `stored_time_text`).
pub fn stored_time(t: &Option<String>) -> (r: String)
    ensures
        r@ == stored_time_text(*t),
{
    match t {
        Some(s) => match parse_utc(s.as_str()) {
            Some(u) => u,
            None => "1970-01-01T00:00:00+00:00".to_owned(),
        },
        None => "1970-01-01T00:00:00+00:00".to_owned(),
    }
}

/// A `mock_apis` row as read: columns that may be missing or of another
/// type in older databases are optional; times are the stored text.
pub struct MockRow {
    pub id: i64,
    pub port_id: i64,
    pub name: String,
    pub description: String,
    pub method: String,
    pub path: String,
    pub request_schema: Option<String>,
    pub response_status: i64,
    pub response_headers: Option<String>,
    pub response_body: String,
    pub response_delay_ms: i64,
    pub created_at: Option<String>,
    pub updated_at: Option<String>,
    pub enabled: Option<i64>,
    pub pagination_enabled: Option<i64>,
    pub pagination_page_size: Option<i64>,
    pub request_params: Option<String>,
    pub pagination_page_param: Option<String>,
    pub pagination_size_param: Option<String>,
    pub pagination_data_field: Option<String>,
    pub pagination_total_field: Option<String>,
}

pub open spec fn text_or(t: Option<String>, default: Seq<char>) -> Seq<char> {
    match t {
        Some(s) => s@,
        None => default,
    }
}

/// The mock a row holds: an unknown method reads as `ANY`, a missing
/// `enabled` as on, missing pagination settings as off, 10 per page,
/// `page` and `pageSize`, and no data or total field.
pub open spec fn mock_of_row(row: MockRow, m: MockApi) -> bool {
    &&& m.id == row.id
    &&& m.port_id == row.port_id
    &&& m.name@ == row.name@
    &&& m.description@ == row.description@
    &&& m.method == (match parse_method_spec(row.method@) {
        Ok(x) => x,
        Err(_) => HttpMethod::ANY,
    })
    &&& m.path@ == row.path@
    &&& (match opt_document(row.request_schema) {
        Some(v) => m.request_schema matches Some(j) && j@ == v,
        None => m.request_schema is None,
    })
    &&& m.response_status == row.response_status as u16
    &&& pair_views(m.response_headers@) == opt_string_map(row.response_headers)
    &&& m.response_body@ == row.response_body@
    &&& m.response_delay_ms == row.response_delay_ms as u64
    &&& m.enabled == (match row.enabled {
        Some(v) => v != 0,
        None => true,
    })
    &&& m.pagination_enabled == (match row.pagination_enabled {
        Some(v) => v != 0,
        None => false,
    })
    &&& m.pagination_page_size == (match row.pagination_page_size {
        Some(v) => v,
        None => 10,
    }) as u32
    &&& pair_views(m.request_params@) == opt_string_map(row.request_params)
    &&& m.pagination_page_param@ == text_or(row.pagination_page_param, "page"@)
    &&& m.pagination_size_param@ == text_or(row.pagination_size_param, "pageSize"@)
    &&& m.pagination_data_field@ == text_or(row.pagination_data_field, seq![])
    &&& m.pagination_total_field@ == text_or(row.pagination_total_field, seq![])
    &&& m.created_at@ == stored_time_text(row.created_at)
    &&& m.updated_at@ == stored_time_text(row.updated_at)
}

fn text_or_default(t: &Option<String>, default: &str) -> (r: String)
    ensures
        r@ == text_or(*t, default@),
{
    match t {
        Some(s) => s.clone(),
        None => default.to_owned(),
    }
}

/// Reads a mock from its row (see `mock_of_row`).
pub fn mock_from_row(row: &MockRow) -> (m: MockApi)
    ensures
        mock_of_row(*row, m),
        distinct_keys(pair_views(m.response_headers@)),
        distinct_keys(pair_views(m.request_params@)),
{
    let method = match HttpMethod::parse(row.method.as_str()) {
        Ok(x) => x,
        Err(_) => HttpMethod::ANY,
    };
    let page_size: i64 = match row.pagination_page_size {
        Some(v) => v,
        None => 10,
    };
    let m = MockApi {
        id: row.id,
        port_id: row.port_id,
        name: row.name.clone(),
        description: row.description.clone(),
        method,
        path: row.path.clone(),
        request_schema: read_document(&row.request_schema),
        response_status: row.response_status as u16,
        response_headers: read_string_map(&row.response_headers),
        response_body: row.response_body.clone(),
        response_delay_ms: row.response_delay_ms as u64,
        enabled: match row.enabled {
            Some(v) => v != 0,
            None => true,
        },
        pagination_enabled: match row.pagination_enabled {
            Some(v) => v != 0,
            None => false,
        },
        pagination_page_size: page_size as u32,
        request_params: read_string_map(&row.request_params),
        pagination_page_param: text_or_default(&row.pagination_page_param, "page"),
        pagination_size_param: text_or_default(&row.pagination_size_param, "pageSize"),
        pagination_data_field: text_or_default(&row.pagination_data_field, ""),
        pagination_total_field: text_or_default(&row.pagination_total_field, ""),
        created_at: stored_time(&row.created_at),
        updated_at: stored_time(&row.updated_at),
    };
    assert(m.method == (match parse_method_spec(row.method@) {
        Ok(x) => x,
        Err(_) => HttpMethod::ANY,
    }));
    assert(pair_views(m.response_headers@) == opt_string_map(row.response_headers));
    assert(pair_views(m.request_params@) == opt_string_map(row.request_params));
    assert(m.pagination_page_param@ == text_or(row.pagination_page_param, "page"@));
    assert(m.pagination_size_param@ == text_or(row.pagination_size_param, "pageSize"@));
    proof {
        reveal_strlit("");
        assert(""@ =~= Seq::<char>::empty());
    }
    m
}

/// A `port_configs` row as read.
pub struct PortRow {
    pub id: i64,
    pub port: i64,
    pub label: String,
    pub enabled: i64,
    pub created_at: Option<String>,
    pub running: i64,
    pub owner_pid: Option<i64>,
}

/// Reads a port from its row: flags are non-zero integers.
pub fn port_from_row(row: &PortRow) -> (p: PortConfig)
    ensures
        p.id == row.id,
        p.port == row.port as u16,
        p.label@ == row.label@,
        p.enabled == (row.enabled != 0),
        p.created_at@ == stored_time_text(row.created_at),
        p.running == (row.running != 0),
        p.owner_pid == (match row.owner_pid {
            Some(v) => Some(v as u32),
            None => None::<u32>,
        }),
{
    PortConfig {
        id: row.id,
        port: row.port as u16,
        label: row.label.clone(),
        enabled: row.enabled != 0,
        created_at: stored_time(&row.created_at),
        running: row.running != 0,
        owner_pid: match row.owner_pid {
            Some(v) => Some(v as u32),
            None => None,
        },
    }
}

/// A `request_logs` row as read (the columns the page query selects).
pub struct RequestLogRow {
    pub id: i64,
    pub mock_api_id: Option<i64>,
    pub port: i64,
    pub method: String,
    pub path: String,
    pub query_string: Option<String>,
    pub request_body: Option<String>,
    pub request_headers: Option<String>,
    pub response_status: i64,
    pub response_body: Option<String>,
    pub duration_ms: i64,
    pub created_at: Option<String>,
    pub client_ip: Option<String>,
    pub response_headers: Option<String>,
}

pub open spec fn same_text(a: Option<String>, b: Option<String>) -> bool {
    match (a, b) {
        (Some(x), Some(y)) => x@ == y@,
        (None, None) => true,
        _ => false,
    }
}

fn copy_opt(t: &Option<String>) -> (r: Option<String>)
    ensures
        same_text(r, *t),
{
    match t {
        Some(s) => Some(s.clone()),
        None => None,
    }
}

/// Reads a request log from its row; header maps that are not JSON objects
/// of strings read as empty.
pub fn request_log_from_row(row: &RequestLogRow) -> (l: RequestLog)
    ensures
        distinct_keys(pair_views(l.request_headers@)),
        distinct_keys(pair_views(l.response_headers@)),
        l.id == row.id,
        l.mock_api_id == row.mock_api_id,
        l.port == row.port as u16,
        l.method@ == row.method@,
        l.path@ == row.path@,
        same_text(l.query_string, row.query_string),
        pair_views(l.request_headers@) == opt_string_map(row.request_headers),
        same_text(l.request_body, row.request_body),
        l.response_status == row.response_status as u16,
        pair_views(l.response_headers@) == opt_string_map(row.response_headers),
        same_text(l.response_body, row.response_body),
        l.duration_ms == row.duration_ms as u64,
        same_text(l.client_ip, row.client_ip),
        l.created_at@ == stored_time_text(row.created_at),
{
    RequestLog {
        id: row.id,
        mock_api_id: row.mock_api_id,
        port: row.port as u16,
        method: row.method.clone(),
        path: row.path.clone(),
        query_string: copy_opt(&row.query_string),
        request_headers: read_string_map(&row.request_headers),
        request_body: copy_opt(&row.request_body),
        response_status: row.response_status as u16,
        response_headers: read_string_map(&row.response_headers),
        response_body: copy_opt(&row.response_body),
        duration_ms: row.duration_ms as u64,
        client_ip: copy_opt(&row.client_ip),
        created_at: stored_time(&row.created_at),
    }
}

/// A `system_logs` row as read.
pub struct SystemLogRow {
    pub id: i64,
    pub level: String,
    pub target: String,
    pub message: String,
    pub fields: Option<String>,
    pub created_at: Option<String>,
}

/// Reads a system log from its row; fields that are not JSON read as none.
pub fn system_log_from_row(row: &SystemLogRow) -> (l: SystemLog)
    ensures
        l.id == row.id,
        l.level@ == row.level@,
        l.target@ == row.target@,
        l.message@ == row.message@,
        match opt_document(row.fields) {
            Some(v) => l.fields matches Some(j) && j@ == v,
            None => l.fields is None,
        },
        l.created_at@ == stored_time_text(row.created_at),
{
    SystemLog {
        id: row.id,
        level: row.level.clone(),
        target: row.target.clone(),
        message: row.message.clone(),
        fields: read_document(&row.fields),
        created_at: stored_time(&row.created_at),
    }
}


/// `s` without its leading double quotes.
pub open spec fn without_leading_quotes(s: Seq<char>) -> Seq<char>
    decreases s.len(),
{
    if s.len() > 0 && s[0] == '"' {
        without_leading_quotes(s.drop_first())
    } else {
        s
    }
}

/// `s` without its trailing double quotes.
pub open spec fn without_trailing_quotes(s: Seq<char>) -> Seq<char>
    decreases s.len(),
{
    if s.len() > 0 && s.last() == '"' {
        without_trailing_quotes(s.drop_last())
    } else {
        s
    }
}

/// The message of a log event recorded through its debug form: the text
/// without the double quotes around it.
pub fn message_from_debug(text: &str) -> (r: String)
    ensures
        r@ == without_trailing_quotes(without_leading_quotes(text@)),
{
    let v = chars_of(text);
    let mut lo: usize = 0;
    assert(v@.skip(0) =~= v@);
    while lo < v.len() && v[lo] == '"'
        invariant
            lo <= v.len(),
            without_leading_quotes(v@) == without_leading_quotes(v@.skip(lo as int)),
        decreases v.len() - lo,
    {
        assert(v@.skip(lo as int).drop_first() =~= v@.skip(lo as int + 1));
        lo = lo + 1;
    }
    let ghost m = v@.skip(lo as int);
    let mut hi: usize = v.len();
    assert(m.take(m.len() as int) =~= m);
    while hi > lo && v[hi - 1] == '"'
        invariant
            lo <= hi <= v.len(),
            m == v@.skip(lo as int),
            without_trailing_quotes(m) == without_trailing_quotes(m.take(hi - lo)),
        decreases hi,
    {
        assert(m.take(hi - lo).drop_last() =~= m.take(hi - lo - 1));
        assert(m.take(hi - lo).last() == v@[hi - 1]);
        hi = hi - 1;
    }
    let r = slice_chars(&v, lo, hi);
    assert(r@ =~= m.take(hi - lo));
    string_of(r.as_slice())
}

} // verus!
