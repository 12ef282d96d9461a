use apimock::handler::{
    apply_filter_and_pagination, effective_status, extract_body_params, file_body_path, find_mock,
    lookup_pair, no_match_body, parse_query_params, path_matches, percent_decode, request_method,
    resolve_client_ip,
};
use apimock::models::{HttpMethod, MockApi};

fn mock(id: i64, method: HttpMethod, path: &str, enabled: bool) -> MockApi {
    MockApi {
        id,
        port_id: 1,
        name: format!("m{}", id),
        description: String::new(),
        method,
        path: path.to_owned(),
        request_schema: None,
        response_status: 200,
        response_headers: Vec::new(),
        response_body: String::new(),
        response_delay_ms: 0,
        enabled,
        pagination_enabled: false,
        pagination_page_size: 10,
        request_params: Vec::new(),
        pagination_page_param: "page".to_owned(),
        pagination_size_param: "pageSize".to_owned(),
        pagination_data_field: String::new(),
        pagination_total_field: String::new(),
        created_at: String::new(),
        updated_at: String::new(),
    }
}

fn pairs(items: &[(&str, &str)]) -> Vec<(String, String)> {
    items.iter().map(|(k, v)| (k.to_string(), v.to_string())).collect()
}

#[test]
fn path_matches_exact_and_wildcards() {
    assert!(path_matches("/users", "/users"));
    assert!(!path_matches("/users", "/users/1"));
    assert!(path_matches("/users/{id}", "/users/42"));
    assert!(!path_matches("/users/{id}", "/users/42/posts"));
    assert!(path_matches("/a/*/c", "/a/x/c"));
    assert!(!path_matches("/a/*/c", "/a/x/d"));
    assert!(path_matches("/api/*", "/api/a/b/c"));
    assert!(path_matches("/api/*", "/api"));
    assert!(!path_matches("/api/*", "/other/a"));
    assert!(!path_matches("/a/b", "/a/c"));
}

#[test]
fn path_matches_itself() {
    for p in ["/", "/x/{id}/*", "/a/b/c", ""] {
        assert!(path_matches(p, p));
    }
}

#[test]
fn find_mock_prefers_exact_method_over_any() {
    let mocks = vec![
        mock(1, HttpMethod::ANY, "/users", true),
        mock(2, HttpMethod::GET, "/users", true),
    ];
    assert_eq!(find_mock(&mocks, HttpMethod::GET, "/users"), Some(1));
    assert_eq!(find_mock(&mocks, HttpMethod::POST, "/users"), Some(0));
    assert_eq!(find_mock(&mocks, HttpMethod::GET, "/other"), None);
}

#[test]
fn find_mock_skips_disabled() {
    let mocks = vec![
        mock(1, HttpMethod::GET, "/a", false),
        mock(2, HttpMethod::GET, "/a", true),
    ];
    assert_eq!(find_mock(&mocks, HttpMethod::GET, "/a"), Some(1));
    let off = vec![mock(1, HttpMethod::GET, "/a", false)];
    assert_eq!(find_mock(&off, HttpMethod::GET, "/a"), None);
}

#[test]
fn percent_decode_cases() {
    assert_eq!(percent_decode("a%20b+c"), "a b c");
    assert_eq!(percent_decode("%41%42"), "AB");
    assert_eq!(percent_decode("%zz"), "%zz");
    assert_eq!(percent_decode("100%"), "100%");
    assert_eq!(percent_decode("%4"), "%4");
    assert_eq!(percent_decode("plain"), "plain");
    // each decoded byte becomes one character
    assert_eq!(percent_decode("%C3%A9"), "\u{c3}\u{a9}");
}

#[test]
fn query_params_later_value_wins() {
    let q = parse_query_params(Some("a=1&b=2&&a=3&k"));
    assert_eq!(q, pairs(&[("a", "1"), ("b", "2"), ("a", "3"), ("k", "")]));
    assert_eq!(lookup_pair(&q, "a"), Some("3".to_owned()));
    assert_eq!(lookup_pair(&q, "zz"), None);
    assert!(parse_query_params(None).is_empty());
    let d = parse_query_params(Some("name=J%C3%B6rg+X&x=a=b"));
    assert_eq!(lookup_pair(&d, "x"), Some("a=b".to_owned()));
}

#[test]
fn body_params_scalars_only() {
    let b = extract_body_params(Some(r#"{"a":"x","n":5,"b":true,"o":{},"z":null}"#));
    assert_eq!(b, pairs(&[("a", "x"), ("b", "true"), ("n", "5")]));
    assert!(extract_body_params(Some("[1,2]")).is_empty());
    assert!(extract_body_params(Some("not json")).is_empty());
    assert!(extract_body_params(None).is_empty());
}

fn filtering_mock(body: &str) -> MockApi {
    let mut m = mock(1, HttpMethod::GET, "/users", true);
    m.response_body = body.to_owned();
    m.request_params = pairs(&[("name", "")]);
    m
}

#[test]
fn filter_readme_example() {
    let body = r#"[{"name":"alice"},{"name":"bob"}]"#;
    let m = filtering_mock(body);
    let r = apply_filter_and_pagination(body, &m, &HttpMethod::GET, Some("name=alice"), None);
    assert_eq!(r, r#"[{"name":"alice"}]"#);
}

#[test]
fn filter_empty_value_returns_everything() {
    let body = r#"[{"name":"alice"}, {"name":"bob"}]"#;
    let m = filtering_mock(body);
    let r = apply_filter_and_pagination(body, &m, &HttpMethod::GET, Some("name="), None);
    assert_eq!(r, r#"[{"name":"alice"},{"name":"bob"}]"#);
}

#[test]
fn filter_keeps_primitive_arrays_and_recurses() {
    let body = r#"{"methods":["GET","POST"],"data":{"users":[{"name":"alice","age":3},{"name":"bob"}]}}"#;
    let m = filtering_mock(body);
    let r = apply_filter_and_pagination(body, &m, &HttpMethod::GET, Some("name=bob"), None);
    assert_eq!(r, r#"{"data":{"users":[{"name":"bob"}]},"methods":["GET","POST"]}"#);
}

#[test]
fn filter_matches_numbers_and_nested_fields() {
    let body = r#"[{"id":1,"info":{"city":"x"}},{"id":2,"info":{"city":"y"}},"keep"]"#;
    let mut m = filtering_mock(body);
    m.request_params = pairs(&[("city", "")]);
    let r = apply_filter_and_pagination(body, &m, &HttpMethod::GET, Some("city=y"), None);
    assert_eq!(r, r#"[{"id":2,"info":{"city":"y"}},"keep"]"#);
}

#[test]
fn filter_non_json_body_passes_through() {
    let body = "hello {{world}}";
    let m = filtering_mock(body);
    let r = apply_filter_and_pagination(body, &m, &HttpMethod::GET, Some("name=alice"), None);
    assert_eq!(r, body);
}

#[test]
fn filter_uses_post_body_only_for_post() {
    let body = r#"[{"name":"alice"},{"name":"bob"}]"#;
    let m = filtering_mock(body);
    let post = apply_filter_and_pagination(body, &m, &HttpMethod::POST, None, Some(r#"{"name":"bob"}"#));
    assert_eq!(post, r#"[{"name":"bob"}]"#);
    let get = apply_filter_and_pagination(body, &m, &HttpMethod::GET, None, Some(r#"{"name":"bob"}"#));
    assert_eq!(get, r#"[{"name":"alice"},{"name":"bob"}]"#);
    // the query string takes priority over the body
    let both = apply_filter_and_pagination(
        body,
        &m,
        &HttpMethod::POST,
        Some("name=alice"),
        Some(r#"{"name":"bob"}"#),
    );
    assert_eq!(both, r#"[{"name":"alice"}]"#);
}

#[test]
fn plain_mock_body_unchanged() {
    let body = "{ \"spaced\" : true }";
    let m = mock(1, HttpMethod::GET, "/", true);
    assert_eq!(apply_filter_and_pagination(body, &m, &HttpMethod::GET, Some("a=b"), None), body);
}

fn paging_mock(body: &str, data: &str, total: &str) -> MockApi {
    let mut m = mock(1, HttpMethod::GET, "/", true);
    m.response_body = body.to_owned();
    m.pagination_enabled = true;
    m.pagination_page_size = 10;
    m.pagination_data_field = data.to_owned();
    m.pagination_total_field = total.to_owned();
    m
}

#[test]
fn paginate_top_level_array_in_envelope() {
    let body = "[1,2,3,4,5]";
    let m = paging_mock(body, "", "");
    let r = apply_filter_and_pagination(body, &m, &HttpMethod::GET, Some("page=2&pageSize=2"), None);
    assert_eq!(r, r#"{"items":[3,4],"page":2,"page_size":2,"total":5}"#);
    let last = apply_filter_and_pagination(body, &m, &HttpMethod::GET, Some("page=3&pageSize=2"), None);
    assert_eq!(last, r#"{"items":[5],"page":3,"page_size":2,"total":5}"#);
    let past = apply_filter_and_pagination(body, &m, &HttpMethod::GET, Some("page=9&pageSize=2"), None);
    assert_eq!(past, r#"{"items":[],"page":9,"page_size":2,"total":5}"#);
}

#[test]
fn paginate_defaults_and_bad_numbers() {
    let body = "[1,2,3]";
    let m = paging_mock(body, "", "");
    let r = apply_filter_and_pagination(body, &m, &HttpMethod::GET, None, None);
    assert_eq!(r, r#"{"items":[1,2,3],"page":1,"page_size":10,"total":3}"#);
    let zero = apply_filter_and_pagination(body, &m, &HttpMethod::GET, Some("page=0&pageSize=x"), None);
    assert_eq!(zero, r#"{"items":[1,2,3],"page":1,"page_size":10,"total":3}"#);
}

#[test]
fn paginate_data_field_in_place_with_total() {
    let body = r#"{"data":{"list":[1,2,3],"total":0},"ok":true}"#;
    let m = paging_mock(body, "data.list", " data.total ");
    let r = apply_filter_and_pagination(body, &m, &HttpMethod::GET, Some("page=1&pageSize=2"), None);
    assert_eq!(r, r#"{"data":{"list":[1,2],"total":3},"ok":true}"#);
}

#[test]
fn paginate_data_field_by_name_search() {
    let body = r#"{"wrap":{"rows":["a","b","c"]}}"#;
    let m = paging_mock(body, "rows", "");
    let r = apply_filter_and_pagination(body, &m, &HttpMethod::GET, Some("page=2&pageSize=2"), None);
    assert_eq!(r, r#"{"wrap":{"rows":["c"]}}"#);
}

#[test]
fn paginate_missing_field_or_non_array() {
    let body = r#"{"a":1}"#;
    let m = paging_mock(body, "rows", "");
    assert_eq!(apply_filter_and_pagination(body, &m, &HttpMethod::GET, None, None), body);
    let m2 = paging_mock(body, "", "");
    assert_eq!(apply_filter_and_pagination(body, &m2, &HttpMethod::GET, None, None), body);
}

#[test]
fn method_of_request() {
    assert_eq!(request_method("GET"), HttpMethod::GET);
    assert_eq!(request_method("DELETE"), HttpMethod::DELETE);
    assert_eq!(request_method("BREW"), HttpMethod::GET);
}

#[test]
fn client_ip_resolution() {
    let h = pairs(&[("x-forwarded-for", " 1.2.3.4 , 5.6.7.8"), ("x-real-ip", "9.9.9.9")]);
    assert_eq!(resolve_client_ip(&h, "127.0.0.1"), "1.2.3.4");
    let h2 = pairs(&[("x-real-ip", "9.9.9.9")]);
    assert_eq!(resolve_client_ip(&h2, "127.0.0.1"), "9.9.9.9");
    assert_eq!(resolve_client_ip(&Vec::new(), "10.0.0.1"), "10.0.0.1");
}

#[test]
fn status_codes() {
    assert_eq!(effective_status(404), 404);
    assert_eq!(effective_status(100), 100);
    assert_eq!(effective_status(999), 999);
    assert_eq!(effective_status(99), 200);
    assert_eq!(effective_status(1000), 200);
    assert_eq!(effective_status(0), 200);
}

#[test]
fn file_bodies() {
    assert_eq!(file_body_path("file:///tmp/a.json"), Some("/tmp/a.json".to_owned()));
    assert_eq!(file_body_path("file://"), Some(String::new()));
    assert_eq!(file_body_path("{\"a\":1}"), None);
    assert_eq!(no_match_body(), r#"{"error":"no mock matched"}"#);
}

#[test]
fn wild_segments_match_any_one_segment() {
    assert!(path_matches("/users/{id}/orders", "/users/42/orders"));
    assert!(path_matches("/users/*/orders", "/users/abc/orders"));
    assert!(!path_matches("/users/{id}/orders", "/users/42/items"));
    assert!(path_matches("/shop/{sku}", "/shop/a-1"));
}

#[test]
fn trailing_star_matches_whatever_follows() {
    assert!(path_matches("/files/*", "/files/a"));
    assert!(path_matches("/files/*", "/files/a/b/c.txt"));
    assert!(path_matches("/files/*", "/files/"));
}

#[test]
fn pages_cover_the_array_once() {
    let body = "[1,2,3,4,5,6,7]";
    let m = paging_mock(body, "rows", "");
    let mut m_top = paging_mock(body, "", "");
    m_top.pagination_page_size = 3;
    let mut seen = Vec::new();
    for page in 1..=4 {
        let q = format!("page={}", page);
        let r = apply_filter_and_pagination(body, &m_top, &HttpMethod::GET, Some(&q), None);
        let start = r.find('[').unwrap();
        let end = r.find(']').unwrap();
        let items = &r[start + 1..end];
        if !items.is_empty() {
            seen.extend(items.split(',').map(|s| s.to_owned()));
        }
    }
    assert_eq!(seen, vec!["1", "2", "3", "4", "5", "6", "7"]);
    // A data field that names nothing leaves the body as it is.
    assert_eq!(apply_filter_and_pagination(body, &m, &HttpMethod::GET, None, None), body);
}
