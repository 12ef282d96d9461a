//! The dashboard's HTTP API: the bodies and queries it accepts, how they
//! become store requests, and how static assets are answered.
use vstd::prelude::*;

use crate::json::Json;
use crate::models::HttpMethod;
use crate::store::{CreateMockRequest, LogQuery, UpdateMockRequest};
use crate::text::{chars_of, slice_chars, string_of};
use crate::handler::pair_views;
use crate::tui::{distinct_keys, keep_last_per_key, last_per_key};

verus! {

// ---------------------------------------------------------------------------
// Server information
// ---------------------------------------------------------------------------

/// What `GET /api/v1/info` answers.
pub struct ServerInfo {
    pub ip: String,
}

/// The server information for the machine's address, `127.0.0.1` when it
/// could not be found.
pub fn server_info(ip: Option<String>) -> (r: ServerInfo)
    ensures
        r.ip@ == (match ip {
            Some(a) => a@,
            None => "127.0.0.1"@,
        }),
{
    match ip {
        Some(a) => ServerInfo { ip: a },
        None => ServerInfo { ip: "127.0.0.1".to_owned() },
    }
}

// ---------------------------------------------------------------------------
// Ports
// ---------------------------------------------------------------------------

/// The body of `POST /api/v1/ports`.
pub struct CreatePortBody {
    pub port: u16,
    pub label: Option<String>,
}

/// The body of `PUT /api/v1/ports/:id`.
pub struct UpdatePortBody {
    pub label: String,
    pub enabled: bool,
}

/// The label a new port is stored with: the given one, or empty.
pub fn port_label(body: &CreatePortBody) -> (r: String)
    ensures
        r@ == (match &body.label {
            Some(l) => l@,
            None => Seq::<char>::empty(),
        }),
{
    match &body.label {
        Some(l) => l.clone(),
        None => String::new(),
    }
}

// ---------------------------------------------------------------------------
// Mocks
// ---------------------------------------------------------------------------

/// The query of `GET /api/v1/mocks`: an optional port to list the mocks of.
pub struct ListMocksQuery {
    pub port_id: Option<i64>,
}

/// The body of `PUT /api/v1/mocks/:id/enabled`.
pub struct SetEnabledBody {
    pub enabled: bool,
}

/// The body of `POST /api/v1/mocks`.
pub struct CreateMockBody {
    pub port_id: i64,
    pub name: String,
    pub description: Option<String>,
    pub method: HttpMethod,
    pub path: String,
    pub request_schema: Option<Json>,
    pub response_status: Option<u16>,
    pub response_headers: Option<Vec<(String, String)>>,
    pub response_body: Option<String>,
    pub response_delay_ms: Option<u64>,
    pub pagination_enabled: Option<bool>,
    pub pagination_page_size: Option<u32>,
    pub request_params: Option<Vec<(String, String)>>,
    pub pagination_page_param: Option<String>,
    pub pagination_size_param: Option<String>,
    pub pagination_data_field: Option<String>,
    pub pagination_total_field: Option<String>,
}

/// The body of `PUT /api/v1/mocks/:id`.
pub struct UpdateMockBody {
    pub name: Option<String>,
    pub description: Option<String>,
    pub method: Option<HttpMethod>,
    pub path: Option<String>,
    pub request_schema: Option<Option<Json>>,
    pub response_status: Option<u16>,
    pub response_headers: Option<Vec<(String, String)>>,
    pub response_body: Option<String>,
    pub response_delay_ms: Option<u64>,
    pub enabled: Option<bool>,
    pub pagination_enabled: Option<bool>,
    pub pagination_page_size: Option<u32>,
    pub request_params: Option<Vec<(String, String)>>,
    pub pagination_page_param: Option<String>,
    pub pagination_size_param: Option<String>,
    pub pagination_data_field: Option<String>,
    pub pagination_total_field: Option<String>,
}

pub open spec fn text_or_empty(t: Option<String>) -> Seq<char> {
    match t {
        Some(s) => s@,
        None => seq![],
    }
}

/// The new mock a create body describes: missing fields take their
/// defaults (no description, status 200, no headers, empty body, no delay,
/// no request params, pagination off with 10 per page, `page` and
/// `pageSize`, and no data or total field). Header and param maps keep each
/// key once, with its last value.
pub open spec fn created_from_body(b: CreateMockBody, r: CreateMockRequest) -> bool {
    &&& r.port_id == b.port_id
    &&& r.name@ == b.name@
    &&& r.description@ == text_or_empty(b.description)
    &&& r.method == b.method
    &&& r.path@ == b.path@
    &&& (match b.request_schema {
        Some(v) => r.request_schema matches Some(w) && w@ == v@,
        None => r.request_schema is None,
    })
    &&& r.response_status == (match b.response_status {
        Some(s) => s,
        None => 200,
    })
    &&& (match b.response_headers {
        Some(h) => pair_views(r.response_headers@) == last_per_key(pair_views(h@)),
        None => r.response_headers@.len() == 0,
    })
    &&& r.response_body@ == text_or_empty(b.response_body)
    &&& r.response_delay_ms == (match b.response_delay_ms {
        Some(d) => d,
        None => 0,
    })
    &&& r.pagination_enabled == (match b.pagination_enabled {
        Some(e) => e,
        None => false,
    })
    &&& r.pagination_page_size == (match b.pagination_page_size {
        Some(n) => n,
        None => 10,
    })
    &&& (match b.request_params {
        Some(p) => pair_views(r.request_params@) == last_per_key(pair_views(p@)),
        None => r.request_params@.len() == 0,
    })
    &&& r.pagination_page_param@ == text_or(b.pagination_page_param, "page"@)
    &&& r.pagination_size_param@ == text_or(b.pagination_size_param, "pageSize"@)
    &&& r.pagination_data_field@ == text_or_empty(b.pagination_data_field)
    &&& r.pagination_total_field@ == text_or_empty(b.pagination_total_field)
}

/// The text given, or a default.
pub open spec fn text_or(t: Option<String>, default: Seq<char>) -> Seq<char> {
    match t {
        Some(s) => s@,
        None => default,
    }
}

fn text_or_given(t: Option<String>, default: &str) -> (r: String)
    ensures
        r@ == text_or(t, default@),
{
    match t {
        Some(s) => s,
        None => default.to_owned(),
    }
}

fn text_or_new(t: Option<String>) -> (r: String)
    ensures
        r@ == text_or_empty(t),
{
    match t {
        Some(s) => s,
        None => String::new(),
    }
}

/// Pairs read as a map: each key once, with its last value; none when
/// absent.
fn map_of(pairs: Option<Vec<(String, String)>>) -> (r: Vec<(String, String)>)
    ensures
        match pairs {
            Some(p) => pair_views(r@) == last_per_key(pair_views(p@)),
            None => r@.len() == 0,
        },
        distinct_keys(pair_views(r@)),
{
    match pairs {
        Some(p) => keep_last_per_key(&p),
        None => {
            let r: Vec<(String, String)> = Vec::new();
            assert(pair_views(r@) =~= seq![]);
            r
        },
    }
}

/// A map given in a body, read as a map (see `map_of`).
fn opt_map_of(pairs: Option<Vec<(String, String)>>) -> (r: Option<Vec<(String, String)>>)
    ensures
        match pairs {
            Some(p) => r matches Some(q) && pair_views(q@) == last_per_key(pair_views(p@)) && distinct_keys(
                pair_views(q@),
            ),
            None => r is None,
        },
{
    match pairs {
        Some(p) => Some(keep_last_per_key(&p)),
        None => None,
    }
}

/// The store request for a create body (see `created_from_body`).
pub fn create_request(b: CreateMockBody) -> (r: CreateMockRequest)
    ensures
        created_from_body(b, r),
        distinct_keys(pair_views(r.response_headers@)),
        distinct_keys(pair_views(r.request_params@)),
{
    let ghost g = b;
    let headers = map_of(b.response_headers);
    let params = map_of(b.request_params);
    CreateMockRequest {
        port_id: b.port_id,
        name: b.name,
        description: text_or_new(b.description),
        method: b.method,
        path: b.path,
        request_schema: b.request_schema,
        response_status: match b.response_status {
            Some(s) => s,
            None => 200,
        },
        response_headers: headers,
        response_body: text_or_new(b.response_body),
        response_delay_ms: match b.response_delay_ms {
            Some(d) => d,
            None => 0,
        },
        pagination_enabled: match b.pagination_enabled {
            Some(e) => e,
            None => false,
        },
        pagination_page_size: match b.pagination_page_size {
            Some(n) => n,
            None => 10,
        },
        request_params: params,
        pagination_page_param: text_or_given(b.pagination_page_param, "page"),
        pagination_size_param: text_or_given(b.pagination_size_param, "pageSize"),
        pagination_data_field: text_or_new(b.pagination_data_field),
        pagination_total_field: text_or_new(b.pagination_total_field),
    }
}

/// The store request for an update body: each given field changes, the
/// rest stay; header and param maps keep each key once, with its last
/// value.
pub fn update_request(b: UpdateMockBody) -> (r: UpdateMockRequest)
    ensures
        r.name == b.name,
        r.description == b.description,
        r.method == b.method,
        r.path == b.path,
        r.request_schema == b.request_schema,
        r.response_status == b.response_status,
        match b.response_headers {
            Some(h) => r.response_headers matches Some(q) && pair_views(q@) == last_per_key(pair_views(h@))
                && distinct_keys(pair_views(q@)),
            None => r.response_headers is None,
        },
        r.response_body == b.response_body,
        r.response_delay_ms == b.response_delay_ms,
        r.enabled == b.enabled,
        r.pagination_enabled == b.pagination_enabled,
        match b.request_params {
            Some(p) => r.request_params matches Some(q) && pair_views(q@) == last_per_key(pair_views(p@))
                && distinct_keys(pair_views(q@)),
            None => r.request_params is None,
        },
        r.pagination_page_size == b.pagination_page_size,
        r.pagination_page_param == b.pagination_page_param,
        r.pagination_size_param == b.pagination_size_param,
        r.pagination_data_field == b.pagination_data_field,
        r.pagination_total_field == b.pagination_total_field,
{
    UpdateMockRequest {
        name: b.name,
        description: b.description,
        method: b.method,
        path: b.path,
        request_schema: b.request_schema,
        response_status: b.response_status,
        response_headers: opt_map_of(b.response_headers),
        response_body: b.response_body,
        response_delay_ms: b.response_delay_ms,
        enabled: b.enabled,
        pagination_enabled: b.pagination_enabled,
        request_params: opt_map_of(b.request_params),
        pagination_page_size: b.pagination_page_size,
        pagination_page_param: b.pagination_page_param,
        pagination_size_param: b.pagination_size_param,
        pagination_data_field: b.pagination_data_field,
        pagination_total_field: b.pagination_total_field,
    }
}

// ---------------------------------------------------------------------------
// Logs
// ---------------------------------------------------------------------------

/// The query of `GET /api/v1/logs/requests`; times are RFC 3339 text.
pub struct RequestLogQuery {
    pub port: Option<u16>,
    pub mock_api_id: Option<i64>,
    pub path: Option<String>,
    pub since: Option<String>,
    pub until: Option<String>,
    pub page: Option<u32>,
    pub page_size: Option<u32>,
}

/// The query of `GET /api/v1/logs/system`; times are RFC 3339 text.
pub struct SystemLogQuery {
    pub level: Option<String>,
    pub since: Option<String>,
    pub until: Option<String>,
    pub page: Option<u32>,
    pub page_size: Option<u32>,
}

pub open spec fn or_default(v: Option<u32>, d: u32) -> u32 {
    match v {
        Some(x) => x,
        None => d,
    }
}

/// The log query for a request-log query: page 0 and 50 per page unless
/// given.
pub fn request_log_query(q: RequestLogQuery) -> (r: LogQuery)
    ensures
        r.port == q.port,
        r.mock_api_id == q.mock_api_id,
        r.path == q.path,
        r.since == q.since,
        r.until == q.until,
        r.page == or_default(q.page, 0),
        r.page_size == or_default(q.page_size, 50),
        r.level is None,
{
    LogQuery {
        port: q.port,
        mock_api_id: q.mock_api_id,
        path: q.path,
        since: q.since,
        until: q.until,
        page: match q.page {
            Some(p) => p,
            None => 0,
        },
        page_size: match q.page_size {
            Some(s) => s,
            None => 50,
        },
        level: None,
    }
}

/// The log query for a system-log query: page 0 and 50 per page unless
/// given.
pub fn system_log_query(q: SystemLogQuery) -> (r: LogQuery)
    ensures
        r.level == q.level,
        r.since == q.since,
        r.until == q.until,
        r.page == or_default(q.page, 0),
        r.page_size == or_default(q.page_size, 50),
        r.port is None,
        r.mock_api_id is None,
        r.path is None,
{
    LogQuery {
        level: q.level,
        since: q.since,
        until: q.until,
        page: match q.page {
            Some(p) => p,
            None => 0,
        },
        page_size: match q.page_size {
            Some(s) => s,
            None => 50,
        },
        port: None,
        mock_api_id: None,
        path: None,
    }
}

// ---------------------------------------------------------------------------
// Static assets of the dashboard
// ---------------------------------------------------------------------------

/// The dashboard's built front end, embedded in the program.
pub struct FrontendAssets;

/// The asset a request path names: the path without its leading slashes.
pub open spec fn asset_name(path: Seq<char>) -> Seq<char>
    decreases path.len(),
{
    if path.len() > 0 && path[0] == '/' {
        asset_name(path.drop_first())
    } else {
        path
    }
}

/// Strips the leading slashes of a request path.
pub fn asset_path(path: &str) -> (r: String)
    ensures
        r@ == asset_name(path@),
{
    let v = chars_of(path);
    let mut i: usize = 0;
    assert(v@.skip(0) =~= v@);
    while i < v.len() && v[i] == '/'
        invariant
            i <= v.len(),
            asset_name(v@) == asset_name(v@.skip(i as int)),
        decreases v.len() - i,
    {
        assert(v@.skip(i as int).drop_first() =~= v@.skip(i as int + 1));
        i = i + 1;
    }
    let rest = slice_chars(&v, i, v.len());
    assert(rest@ =~= v@.skip(i as int));
    string_of(rest.as_slice())
}

/// What `mime_guess` guesses for a path, falling back to
/// `application/octet-stream`.
pub uninterp spec fn guessed_mime(path: Seq<char>) -> Seq<char>;

/// `mime_guess::from_path(path).first_or_octet_stream()`, written out: the
/// first MIME type known for the path's extension, or
/// `application/octet-stream`. The guess depends on the path alone and is
/// named `guessed_mime`.
#[verifier::external_body]
fn guess_mime(path: &str) -> (r: String)
    ensures
        r@ == guessed_mime(path@),
{
    mime_guess::from_path(path).first_or_octet_stream().as_ref().to_owned()
}

/// How an asset request is answered.
pub enum AssetReply {
    /// The asset itself, with this content type.
    Found { content_type: String },
    /// The front end's `index.html`, for client-side routes.
    Index,
    /// Nothing is embedded: 404, `frontend not built`.
    NotBuilt,
}

/// Answers an asset request: the asset when it is embedded (typed by its
/// name), else `index.html` when that is embedded, else a 404.
pub fn asset_reply(name: &str, found: bool, index_found: bool) -> (r: AssetReply)
    ensures
        found ==> (r matches AssetReply::Found { content_type } && content_type@ == guessed_mime(name@)),
        !found && index_found ==> r is Index,
        !found && !index_found ==> r is NotBuilt,
{
    if found {
        AssetReply::Found { content_type: guess_mime(name) }
    } else if index_found {
        AssetReply::Index
    } else {
        AssetReply::NotBuilt
    }
}

/// The content type `index.html` is served with.
pub fn index_content_type() -> (r: &'static str)
    ensures
        r@ == "text/html; charset=utf-8"@,
{
    "text/html; charset=utf-8"
}

} // verus!
