use apimock::api::{
    asset_path, asset_reply, create_request, index_content_type, port_label, request_log_query,
    server_info, system_log_query, update_request, AssetReply, CreateMockBody, CreatePortBody,
    RequestLogQuery, SystemLogQuery, UpdateMockBody,
};
use apimock::models::HttpMethod;

#[test]
fn info_falls_back_to_loopback() {
    assert_eq!(server_info(None).ip, "127.0.0.1");
    assert_eq!(server_info(Some("10.1.2.3".to_owned())).ip, "10.1.2.3");
}

#[test]
fn port_bodies() {
    assert_eq!(port_label(&CreatePortBody { port: 80, label: None }), "");
    assert_eq!(port_label(&CreatePortBody { port: 80, label: Some("web".to_owned()) }), "web");
}

#[test]
fn create_body_defaults() {
    let r = create_request(CreateMockBody {
        port_id: 3,
        name: "n".to_owned(),
        description: None,
        method: HttpMethod::PUT,
        path: "/x".to_owned(),
        request_schema: None,
        response_status: None,
        response_headers: None,
        response_body: None,
        response_delay_ms: None,
        pagination_enabled: None,
        pagination_page_size: None,
        request_params: None,
        pagination_page_param: None,
        pagination_size_param: None,
        pagination_data_field: None,
        pagination_total_field: None,
    });
    assert_eq!(r.port_id, 3);
    assert_eq!(r.description, "");
    assert_eq!(r.response_status, 200);
    assert!(r.response_headers.is_empty());
    assert_eq!(r.response_body, "");
    assert_eq!(r.response_delay_ms, 0);
    assert!(!r.pagination_enabled);
    assert_eq!(r.pagination_page_size, 10);
    assert!(r.request_params.is_empty());
    assert_eq!(r.pagination_page_param, "page");
    assert_eq!(r.pagination_size_param, "pageSize");
    assert_eq!(r.pagination_data_field, "");
    assert_eq!(r.pagination_total_field, "");
}

#[test]
fn create_body_with_paging_and_params() {
    let r = create_request(CreateMockBody {
        port_id: 1,
        name: "list".to_owned(),
        description: Some("all users".to_owned()),
        method: HttpMethod::GET,
        path: "/users".to_owned(),
        request_schema: None,
        response_status: Some(201),
        response_headers: Some(vec![
            ("X".to_owned(), "1".to_owned()),
            ("Y".to_owned(), "2".to_owned()),
            ("X".to_owned(), "3".to_owned()),
        ]),
        response_body: Some("[]".to_owned()),
        response_delay_ms: Some(5),
        pagination_enabled: Some(true),
        pagination_page_size: Some(20),
        request_params: Some(vec![("name".to_owned(), String::new())]),
        pagination_page_param: Some("p".to_owned()),
        pagination_size_param: None,
        pagination_data_field: Some("data.list".to_owned()),
        pagination_total_field: Some("data.total".to_owned()),
    });
    assert!(r.pagination_enabled);
    assert_eq!(r.pagination_page_size, 20);
    assert_eq!(r.request_params, vec![("name".to_owned(), String::new())]);
    assert_eq!(r.pagination_page_param, "p");
    assert_eq!(r.pagination_size_param, "pageSize");
    assert_eq!(r.pagination_data_field, "data.list");
    assert_eq!(r.pagination_total_field, "data.total");
    assert_eq!(r.response_status, 201);
    // A map keeps each key once, with its last value.
    assert_eq!(r.response_headers, vec![("Y".to_owned(), "2".to_owned()), ("X".to_owned(), "3".to_owned())]);
}

#[test]
fn update_body_passes_fields() {
    let r = update_request(UpdateMockBody {
        name: Some("a".to_owned()),
        description: None,
        method: Some(HttpMethod::GET),
        path: None,
        request_schema: Some(None),
        response_status: Some(500),
        response_headers: Some(vec![("A".to_owned(), "1".to_owned()), ("A".to_owned(), "2".to_owned())]),
        response_body: None,
        response_delay_ms: None,
        enabled: Some(false),
        pagination_enabled: None,
        pagination_page_size: Some(25),
        request_params: None,
        pagination_page_param: None,
        pagination_size_param: None,
        pagination_data_field: None,
        pagination_total_field: None,
    });
    assert_eq!(r.name.as_deref(), Some("a"));
    assert_eq!(r.response_status, Some(500));
    assert_eq!(r.enabled, Some(false));
    assert!(matches!(r.request_schema, Some(None)));
    assert!(r.pagination_enabled.is_none());
    assert_eq!(r.pagination_page_size, Some(25));
    assert_eq!(r.response_headers, Some(vec![("A".to_owned(), "2".to_owned())]));
}

#[test]
fn log_queries_default_paging() {
    let q = request_log_query(RequestLogQuery {
        port: Some(1),
        mock_api_id: None,
        path: None,
        since: None,
        until: None,
        page: None,
        page_size: None,
    });
    assert_eq!((q.page, q.page_size), (0, 50));
    let s = system_log_query(SystemLogQuery { level: None, since: None, until: None, page: Some(2), page_size: Some(5) });
    assert_eq!((s.page, s.page_size), (2, 5));
}

#[test]
fn static_assets() {
    assert_eq!(asset_path("/assets/app.js"), "assets/app.js");
    assert_eq!(asset_path("///x"), "x");
    assert_eq!(asset_path("/"), "");
    match asset_reply("style.css", true, true) {
        AssetReply::Found { content_type } => assert_eq!(content_type, "text/css"),
        _ => panic!("expected the asset"),
    }
    match asset_reply("data.unknownext", true, true) {
        AssetReply::Found { content_type } => assert_eq!(content_type, "application/octet-stream"),
        _ => panic!("expected the asset"),
    }
    assert!(matches!(asset_reply("a/b", false, true), AssetReply::Index));
    assert!(matches!(asset_reply("a/b", false, false), AssetReply::NotBuilt));
    assert_eq!(index_content_type(), "text/html; charset=utf-8");
}
