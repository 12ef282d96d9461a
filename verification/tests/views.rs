use apimock::models::{HttpMethod, MockApi, PortConfig};
use apimock::store::message_from_debug;
use apimock::tui::{
    App, ModalKind, BODY_FIELD_IDX, HEADER_FIELD_IDX, METHOD_FIELD_IDX, PAGINATION_ENABLED_FIELD_IDX,
    PAGINATION_SIZE_PARAM_FIELD_IDX, PATH_FIELD_IDX, REQUEST_PARAMS_FIELD_IDX,
};
use apimock::views::{
    body_field_label, chips, cursor_split, form_window, mock_address, mock_detail_text, mock_form_hint,
    port_choice_text, port_form_hint, shown_body, shown_time, sorted_headers, visible_fields, HintKind,
};

fn port(id: i64, number: u16, label: &str) -> PortConfig {
    PortConfig {
        id,
        port: number,
        label: label.to_owned(),
        enabled: true,
        created_at: String::new(),
        running: false,
        owner_pid: None,
    }
}

fn mock_with_body(body: &str) -> MockApi {
    MockApi {
        id: 1,
        port_id: 1,
        name: "m".to_owned(),
        description: String::new(),
        method: HttpMethod::GET,
        path: "/".to_owned(),
        request_schema: None,
        response_status: 201,
        response_headers: vec![("Content-Type".to_owned(), "application/json".to_owned())],
        response_body: body.to_owned(),
        response_delay_ms: 5,
        enabled: true,
        pagination_enabled: false,
        pagination_page_size: 10,
        request_params: Vec::new(),
        pagination_page_param: "page".to_owned(),
        pagination_size_param: "pageSize".to_owned(),
        pagination_data_field: String::new(),
        pagination_total_field: String::new(),
        created_at: String::new(),
        updated_at: String::new(),
    }
}

#[test]
fn form_window_shows_everything_that_fits() {
    let fields: Vec<usize> = (0..10).collect();
    let heights = vec![3u16; 10];
    let w = form_window(&fields, &heights, 0, 0, 100);
    assert_eq!(w.scroll, 0);
    assert_eq!(w.count, 10);
    assert_eq!(w.height, 30);
    assert!(!w.has_above);
    assert!(!w.has_below);
}

#[test]
fn form_window_scrolls_to_the_active_field() {
    let fields: Vec<usize> = (0..10).collect();
    let mut heights = vec![3u16; 10];
    heights[9] = 12;
    // Room for four short fields: focusing the last one scrolls down.
    let w = form_window(&fields, &heights, 9, 0, 12);
    assert_eq!(w.scroll, 9);
    assert_eq!(w.count, 1);
    assert_eq!(w.height, 12);
    assert!(w.has_above);
    assert!(!w.has_below);
    // Focusing an earlier field scrolls back up to it.
    let back = form_window(&fields, &heights, 2, 9, 12);
    assert_eq!(back.scroll, 2);
    assert_eq!(back.count, 4);
    assert!(back.has_above);
    assert!(back.has_below);
}

#[test]
fn cursor_split_marks_the_cursor() {
    assert_eq!(cursor_split("hello", 1), ("h".to_owned(), 'e', "llo".to_owned()));
    assert_eq!(cursor_split("hi", 2), ("hi".to_owned(), ' ', String::new()));
    assert_eq!(cursor_split("hi", 99), ("hi".to_owned(), ' ', String::new()));
    assert_eq!(cursor_split("", 0), (String::new(), ' ', String::new()));
}

#[test]
fn chips_skip_empty_entries() {
    assert_eq!(chips(" a: 1 | | b: 2 |"), vec!["a: 1".to_owned(), "b: 2".to_owned()]);
    assert!(chips("  |  ").is_empty());
}

#[test]
fn body_field_label_counts_lines() {
    assert_eq!(body_field_label("a\nb\nc", true), "Response Body  [3 lines]  ↑/↓:scroll  Ctrl+U:clear");
    assert_eq!(body_field_label("", true), "Response Body  [1 lines]  ↑/↓:scroll  Ctrl+U:clear");
    assert_eq!(body_field_label("/tmp/x.json", false), "File Path (json/txt) *");
}

#[test]
fn port_choice_names_the_port() {
    let ports = vec![port(1, 8080, "api"), port(2, 9090, "admin")];
    assert_eq!(port_choice_text("2", &ports), "◀ :9090 admin ▶");
    assert_eq!(port_choice_text("7", &ports), "◀ 7 ▶");
    assert_eq!(port_choice_text("", &ports), "◀  ▶");
}

#[test]
fn mock_address_uses_the_system_ip() {
    let ports = vec![port(1, 8080, "api")];
    assert_eq!(mock_address(&ports, 1, "10.0.0.5"), "10.0.0.5:8080");
    assert_eq!(mock_address(&ports, 42, "10.0.0.5"), "42");
}

#[test]
fn mock_detail_shows_status_delay_headers_and_body_head() {
    let m = mock_with_body("ok");
    assert_eq!(
        mock_detail_text(&m),
        "Status: 201  Delay: 5ms\nHeaders: {\"Content-Type\":\"application/json\"}\nBody: ok"
    );
    let long = "x".repeat(250);
    let text = mock_detail_text(&mock_with_body(&long));
    assert!(text.ends_with(&format!("Body: {}", "x".repeat(200))));
}

#[test]
fn shown_body_hides_empty_bodies() {
    assert_eq!(shown_body(&Some("{}".to_owned())), Some("{}".to_owned()));
    assert_eq!(shown_body(&Some(String::new())), None);
    assert_eq!(shown_body(&None), None);
}

#[test]
fn port_form_hint_prefers_the_error() {
    let mut app = App::new();
    app.open_port_create();
    assert_eq!(port_form_hint(&app), ("Tab: next field  Enter: save  Esc: cancel".to_owned(), HintKind::Help));
    app.cancel_confirm_pending = true;
    assert_eq!(port_form_hint(&app), ("Discard changes?  Enter: yes  Esc: no".to_owned(), HintKind::Warning));
    app.modal_error = Some("Port is required".to_owned());
    assert_eq!(port_form_hint(&app), ("Port is required".to_owned(), HintKind::Error));
}

#[test]
fn mock_form_hint_follows_the_focused_field() {
    let mut app = App::new();
    app.open_mock_create();
    assert_eq!(app.modal, Some(ModalKind::MockCreate));
    app.modal_field_idx = METHOD_FIELD_IDX;
    assert_eq!(
        mock_form_hint(&app, true).0,
        "←/→: select  Tab: next  Shift+Tab: back  Enter: save  Esc: cancel"
    );
    app.modal_field_idx = PATH_FIELD_IDX;
    assert_eq!(
        mock_form_hint(&app, true).0,
        "Use {param} for path params (e.g. /users/{id})  Tab: next  Shift+Tab: back  Esc: cancel"
    );
    app.modal_field_idx = BODY_FIELD_IDX;
    assert!(mock_form_hint(&app, false).0.starts_with("Enter full file path"));
    app.modal_field_idx = HEADER_FIELD_IDX;
    app.modal_fields[HEADER_FIELD_IDX] = "Content-Type: application/j".to_owned();
    assert_eq!(
        mock_form_hint(&app, true).0,
        "+: 新增  →: \"Content-Type: application/json\"  格式 Key: Value，多个用 |  Tab: 下一项  Shift+Tab: 上一项  Enter: 保存"
    );
}

#[test]
fn mock_form_hints_for_params_and_pagination() {
    let mut app = App::new();
    app.open_mock_create();
    app.modal_field_idx = REQUEST_PARAMS_FIELD_IDX;
    assert!(mock_form_hint(&app, true).0.starts_with("+: 新增参数  Tab: 下一项"));
    app.modal_field_idx = PAGINATION_SIZE_PARAM_FIELD_IDX;
    assert_eq!(
        mock_form_hint(&app, true).0,
        "页大小参数名，留空默认 pageSize（未传时每页 10 条）  Tab: 下一项  Enter: 保存"
    );
    app.modal_field_idx = PAGINATION_ENABLED_FIELD_IDX;
    assert_eq!(mock_form_hint(&app, true).0, "Tab: next  Shift+Tab: back  Enter: save  Esc: cancel");
}

#[test]
fn visible_fields_follow_method_and_pagination() {
    let mut app = App::new();
    app.open_mock_create();
    assert_eq!(visible_fields(&app), vec![0, 1, 2, 3, 4, 5, 6, 7, 8, 9, 10, 11]);
    app.modal_fields[PAGINATION_ENABLED_FIELD_IDX] = "On".to_owned();
    assert_eq!(visible_fields(&app), (0..16).collect::<Vec<usize>>());
    app.modal_fields[METHOD_FIELD_IDX] = "DELETE".to_owned();
    assert_eq!(visible_fields(&app), vec![0, 1, 2, 3, 4, 6, 7, 8, 9, 10, 11, 12, 13, 14, 15]);
}

#[test]
fn sorted_headers_orders_by_key() {
    let h = vec![
        ("x-b".to_owned(), "2".to_owned()),
        ("accept".to_owned(), "*/*".to_owned()),
        ("x-a".to_owned(), "1".to_owned()),
        ("Host".to_owned(), "h".to_owned()),
    ];
    let keys: Vec<String> = sorted_headers(&h).into_iter().map(|p| p.0).collect();
    assert_eq!(keys, vec!["Host", "accept", "x-a", "x-b"]);
    assert!(sorted_headers(&Vec::new()).is_empty());
}

#[test]
fn message_from_debug_drops_surrounding_quotes() {
    assert_eq!(message_from_debug("\"listening\""), "listening");
    assert_eq!(message_from_debug("plain"), "plain");
    assert_eq!(message_from_debug("\"\"x\"\""), "x");
    assert_eq!(message_from_debug("\"\""), "");
}

#[test]
fn log_times_shown_in_utc() {
    assert_eq!(shown_time("2024-01-02T03:04:05+02:00", "%Y-%m-%d %H:%M:%S"), "2024-01-02 01:04:05");
    assert_eq!(
        shown_time("2024-01-02T03:04:05.250+00:00", "%Y-%m-%d %H:%M:%S%.3f UTC"),
        "2024-01-02 03:04:05.250 UTC"
    );
    assert_eq!(shown_time("not a time", "%Y"), "not a time");
    assert_eq!(shown_time("2024-01-02T03:04:05Z", "%Y %"), "2024-01-02T03:04:05Z");
}
