use apimock::json::parse;
use apimock::models::{HttpMethod, RequestLog, SystemLog};
use apimock::store::{
    append_request_log_params, append_system_log_params, create_mock_params, mock_from_row, pairs_json,
    port_from_row, request_log_from_row, request_log_sql, stored_time, system_log_from_row, system_log_sql,
    update_mock_sql, CreateMockRequest, LogQuery, MockRow, PortRow, RequestLogRow, SqlValue, SystemLogRow,
    UpdateMockRequest,
};

fn text(v: &SqlValue) -> String {
    match v {
        SqlValue::Null => "NULL".to_owned(),
        SqlValue::Int(n) => format!("i{}", n),
        SqlValue::Text(t) => format!("t{}", t),
    }
}

fn texts(v: &[SqlValue]) -> Vec<String> {
    v.iter().map(text).collect()
}

#[test]
fn request_log_page_without_filters() {
    let q = LogQuery::default();
    let s = request_log_sql(&q);
    assert_eq!(s.count_sql, "SELECT COUNT(*) FROM request_logs ");
    assert!(s.count_params.is_empty());
    assert_eq!(
        s.data_sql,
        "SELECT id, mock_api_id, port, method, path, query_string, request_body, request_headers, response_status, response_body, duration_ms, created_at, client_ip, response_headers FROM request_logs  ORDER BY created_at DESC LIMIT ?1 OFFSET ?2"
    );
    assert_eq!(texts(&s.data_params), vec!["i50", "i0"]);
    assert_eq!(s.page_size, 50);
}

#[test]
fn request_log_page_with_filters() {
    let q = LogQuery {
        port: Some(8080),
        mock_api_id: None,
        path: Some("/users".to_owned()),
        since: Some("2026-01-01T00:00:00+00:00".to_owned()),
        until: None,
        page: 3,
        page_size: 20,
        level: None,
    };
    let s = request_log_sql(&q);
    assert_eq!(
        s.count_sql,
        "SELECT COUNT(*) FROM request_logs WHERE port = ?1 AND path GLOB ?2 AND created_at >= ?3"
    );
    assert_eq!(texts(&s.count_params), vec!["i8080", "t*/users*", "t2026-01-01T00:00:00+00:00"]);
    assert!(s
        .data_sql
        .ends_with("WHERE port = ?1 AND path GLOB ?2 AND created_at >= ?3 ORDER BY created_at DESC LIMIT ?4 OFFSET ?5"));
    assert_eq!(texts(&s.data_params), vec!["i8080", "t*/users*", "t2026-01-01T00:00:00+00:00", "i20", "i60"]);
}

#[test]
fn path_filter_takes_wildcards_literally() {
    let q = LogQuery { path: Some("/a*b?[c]".to_owned()), ..LogQuery::default() };
    let s = request_log_sql(&q);
    assert_eq!(s.count_sql, "SELECT COUNT(*) FROM request_logs WHERE path GLOB ?1");
    assert_eq!(texts(&s.count_params), vec!["t*/a[*]b[?][[]c]*"]);
}

#[test]
fn system_log_page_with_level() {
    let q = LogQuery {
        level: Some("ERROR".to_owned()),
        until: Some("u".to_owned()),
        page: 1,
        page_size: 10,
        ..LogQuery::default()
    };
    let s = system_log_sql(&q);
    assert_eq!(s.count_sql, "SELECT COUNT(*) FROM system_logs WHERE level = ?1 AND created_at <= ?2");
    assert_eq!(
        s.data_sql,
        "SELECT id, level, target, message, fields, created_at FROM system_logs WHERE level = ?1 AND created_at <= ?2 ORDER BY created_at DESC LIMIT ?3 OFFSET ?4"
    );
    assert_eq!(texts(&s.data_params), vec!["tERROR", "tu", "i10", "i10"]);
}

#[test]
fn update_statement() {
    let mut req = UpdateMockRequest::default();
    assert!(update_mock_sql(9, &req).is_none());
    req.name = Some("n".to_owned());
    req.enabled = Some(true);
    req.request_schema = Some(None);
    let (sql, params) = update_mock_sql(9, &req).unwrap();
    assert_eq!(
        sql,
        "UPDATE mock_apis SET name = ?1, enabled = ?2, request_schema = ?3, updated_at = strftime('%Y-%m-%dT%H:%M:%fZ','now') WHERE id = ?4"
    );
    assert_eq!(texts(&params), vec!["tn", "i1", "NULL", "i9"]);
}

#[test]
fn update_statement_serialises_maps() {
    let mut req = UpdateMockRequest::default();
    req.method = Some(HttpMethod::PATCH);
    req.response_headers = Some(vec![("A".to_owned(), "x\"y".to_owned())]);
    let (sql, params) = update_mock_sql(2, &req).unwrap();
    assert!(sql.starts_with("UPDATE mock_apis SET method = ?1, response_headers = ?2, updated_at"));
    assert_eq!(texts(&params), vec!["tPATCH", r#"t{"A":"x\"y"}"#, "i2"]);
}

#[test]
fn maps_as_json() {
    assert_eq!(pairs_json(&vec![("b".to_owned(), "1".to_owned()), ("a".to_owned(), "2".to_owned())]), r#"{"b":"1","a":"2"}"#);
    assert_eq!(pairs_json(&Vec::new()), "{}");
}

#[test]
fn insert_parameters() {
    let req = CreateMockRequest {
        port_id: 1,
        name: "n".to_owned(),
        description: String::new(),
        method: HttpMethod::GET,
        path: "/p".to_owned(),
        request_schema: parse(r#"{"type":"object"}"#),
        response_status: 200,
        response_headers: Vec::new(),
        response_body: "b".to_owned(),
        response_delay_ms: 7,
        pagination_enabled: true,
        pagination_page_size: 10,
        request_params: vec![("k".to_owned(), "".to_owned())],
        pagination_page_param: "page".to_owned(),
        pagination_size_param: "pageSize".to_owned(),
        pagination_data_field: String::new(),
        pagination_total_field: "total".to_owned(),
    };
    assert_eq!(
        texts(&create_mock_params(&req)),
        vec![
            "i1", "tn", "t", "tGET", "t/p", r#"t{"type":"object"}"#, "i200", "t{}", "tb", "i7", "i1", "i10",
            r#"t{"k":""}"#, "tpage", "tpageSize", "t", "ttotal"
        ]
    );
}

#[test]
fn log_insert_parameters() {
    let log = RequestLog {
        id: 0,
        mock_api_id: Some(4),
        port: 8080,
        method: "GET".to_owned(),
        path: "/x".to_owned(),
        query_string: None,
        request_headers: vec![("host".to_owned(), "h".to_owned())],
        request_body: Some("b".to_owned()),
        response_status: 404,
        response_headers: vec![("Content-Type".to_owned(), "text/plain".to_owned())],
        response_body: None,
        duration_ms: 3,
        client_ip: Some("10.0.0.2".to_owned()),
        created_at: String::new(),
    };
    assert_eq!(
        texts(&append_request_log_params(&log)),
        vec![
            "i4",
            "i8080",
            "tGET",
            "t/x",
            "NULL",
            "tb",
            r#"t{"host":"h"}"#,
            "i404",
            "NULL",
            "i3",
            "t10.0.0.2",
            r#"t{"Content-Type":"text/plain"}"#
        ]
    );
    let sys = SystemLog {
        id: 0,
        level: "INFO".to_owned(),
        target: "t".to_owned(),
        message: "m".to_owned(),
        fields: parse(r#"{"a":1}"#),
        created_at: String::new(),
    };
    assert_eq!(texts(&append_system_log_params(&sys)), vec!["tINFO", "tt", "tm", r#"t{"a":1}"#]);
}

fn row() -> MockRow {
    MockRow {
        id: 1,
        port_id: 2,
        name: "n".to_owned(),
        description: "d".to_owned(),
        method: "post".to_owned(),
        path: "/p".to_owned(),
        request_schema: Some("not json".to_owned()),
        response_status: 201,
        response_headers: Some(r#"{"A":"1","B":"2"}"#.to_owned()),
        response_body: "body".to_owned(),
        response_delay_ms: 15,
        created_at: Some("2024-05-01T10:00:00+02:00".to_owned()),
        updated_at: Some("not a time".to_owned()),
        enabled: None,
        pagination_enabled: Some(1),
        pagination_page_size: None,
        request_params: Some(r#"{"x":1}"#.to_owned()),
        pagination_page_param: None,
        pagination_size_param: None,
        pagination_data_field: Some("data".to_owned()),
        pagination_total_field: None,
    }
}

#[test]
fn mock_rows_read_back_with_defaults() {
    let m = mock_from_row(&row());
    assert_eq!(m.method, HttpMethod::POST);
    assert!(m.request_schema.is_none());
    assert_eq!(m.response_headers, vec![("A".to_owned(), "1".to_owned()), ("B".to_owned(), "2".to_owned())]);
    assert!(m.enabled);
    assert!(m.pagination_enabled);
    assert_eq!(m.pagination_page_size, 10);
    assert!(m.request_params.is_empty());
    assert_eq!(m.pagination_page_param, "page");
    assert_eq!(m.pagination_size_param, "pageSize");
    assert_eq!(m.pagination_data_field, "data");
    assert_eq!(m.pagination_total_field, "");
    assert_eq!(m.created_at, "2024-05-01T08:00:00+00:00");
    assert_eq!(m.updated_at, "1970-01-01T00:00:00+00:00");
    let mut r = row();
    r.method = "BREW".to_owned();
    r.enabled = Some(0);
    assert_eq!(mock_from_row(&r).method, HttpMethod::ANY);
    assert!(!mock_from_row(&r).enabled);
}

#[test]
fn other_rows_read_back() {
    let p = port_from_row(&PortRow {
        id: 1,
        port: 8080,
        label: "l".to_owned(),
        enabled: 1,
        created_at: Some("2024-05-01T08:00:00Z".to_owned()),
        running: 0,
        owner_pid: Some(42),
    });
    assert_eq!((p.port, p.enabled, p.running, p.owner_pid), (8080, true, false, Some(42)));
    assert_eq!(p.created_at, "2024-05-01T08:00:00+00:00");
    let l = request_log_from_row(&RequestLogRow {
        id: 5,
        mock_api_id: None,
        port: 8081,
        method: "GET".to_owned(),
        path: "/".to_owned(),
        query_string: Some("a=1".to_owned()),
        request_body: None,
        request_headers: Some("{}".to_owned()),
        response_status: 200,
        response_body: Some("ok".to_owned()),
        duration_ms: 2,
        created_at: Some("2024-05-01T08:00:00Z".to_owned()),
        client_ip: Some("127.0.0.1".to_owned()),
        response_headers: Some(r#"{"X-A":"1"}"#.to_owned()),
    });
    assert_eq!((l.port, l.response_status, l.duration_ms), (8081, 200, 2));
    assert_eq!(l.client_ip.as_deref(), Some("127.0.0.1"));
    assert_eq!(l.response_headers, vec![("X-A".to_owned(), "1".to_owned())]);
    assert!(l.request_headers.is_empty());
    assert_eq!(l.query_string.as_deref(), Some("a=1"));
    let s = system_log_from_row(&SystemLogRow {
        id: 1,
        level: "WARN".to_owned(),
        target: "x".to_owned(),
        message: "m".to_owned(),
        fields: Some("[1]".to_owned()),
        created_at: Some("2024-05-01T08:00:00Z".to_owned()),
    });
    assert!(s.fields.is_some());
}

#[test]
fn stored_times_read_in_utc() {
    assert_eq!(stored_time(&Some("2024-01-02T03:04:05+02:00".to_owned())), "2024-01-02T01:04:05+00:00");
    assert_eq!(stored_time(&Some("2024-01-02T03:04:05.250Z".to_owned())), "2024-01-02T03:04:05.250+00:00");
    assert_eq!(stored_time(&Some("yesterday".to_owned())), "1970-01-01T00:00:00+00:00");
    assert_eq!(stored_time(&None), "1970-01-01T00:00:00+00:00");
}
