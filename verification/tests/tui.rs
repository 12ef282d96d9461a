use apimock::models::{HttpMethod, LogEvent, MockApi, PortConfig, RequestLog};
use apimock::tui::{
    clean_paste, collapse_whitespace, decode_body_field, encode_body_field, format_headers, format_params,
    parse_headers, parse_params,
    App, ConfirmAction, Event, Key, KeyAction, LogTab, LoopStep, ModalKind, Tab, BODY_SOURCE_FIELD_IDX,
    DESCRIPTION_FIELD_IDX, HEADER_FIELD_IDX, METHOD_FIELD_IDX, NAME_FIELD_IDX, PAGINATION_DATA_FIELD_IDX,
    PAGINATION_ENABLED_FIELD_IDX, PAGINATION_PAGE_PARAM_FIELD_IDX, PORT_ID_FIELD_IDX,
    REQUEST_PARAMS_FIELD_IDX, STATUS_FIELD_IDX,
};

fn pairs(items: &[(&str, &str)]) -> Vec<(String, String)> {
    items.iter().map(|(k, v)| (k.to_string(), v.to_string())).collect()
}

fn port(id: i64, number: u16) -> PortConfig {
    PortConfig {
        id,
        port: number,
        label: format!("p{}", id),
        enabled: true,
        created_at: String::new(),
        running: false,
        owner_pid: None,
    }
}

fn mock(id: i64, port_id: i64, name: &str) -> MockApi {
    MockApi {
        id,
        port_id,
        name: name.to_owned(),
        description: "desc".to_owned(),
        method: HttpMethod::POST,
        path: "/items".to_owned(),
        request_schema: None,
        response_status: 201,
        response_headers: pairs(&[("Content-Type", "application/json")]),
        response_body: "file:///tmp/x.json".to_owned(),
        response_delay_ms: 5,
        enabled: true,
        pagination_enabled: false,
        pagination_page_size: 10,
        request_params: Vec::new(),
        pagination_page_param: "page".to_owned(),
        pagination_size_param: "pageSize".to_owned(),
        pagination_data_field: String::new(),
        pagination_total_field: String::new(),
        created_at: String::new(),
        updated_at: String::new(),
    }
}

fn request_log(id: i64) -> RequestLog {
    RequestLog {
        id,
        mock_api_id: None,
        port: 8080,
        method: "GET".to_owned(),
        path: "/".to_owned(),
        query_string: None,
        request_headers: Vec::new(),
        request_body: None,
        response_status: 200,
        response_headers: Vec::new(),
        response_body: None,
        duration_ms: 1,
        client_ip: None,
        created_at: String::new(),
    }
}

fn key(app: &mut App, k: Key) -> KeyAction {
    match app.handle_event(Event::Key(k, false)) {
        LoopStep::Continue(a) => a,
        LoopStep::Quit => panic!("unexpected quit"),
    }
}

fn type_text(app: &mut App, s: &str) {
    for c in s.chars() {
        key(app, Key::Char(c));
    }
}

#[test]
fn whitespace_collapses() {
    assert_eq!(collapse_whitespace("  a \n b\t\tc  "), "a b c");
    assert_eq!(collapse_whitespace(""), "");
    assert_eq!(collapse_whitespace(" \t "), "");
    assert_eq!(collapse_whitespace("one"), "one");
}

#[test]
fn pasted_json_is_compacted() {
    assert_eq!(clean_paste("  {\n  \"b\": 1,\n  \"a\": [1, 2]\n}\n"), r#"{"a":[1,2],"b":1}"#);
    assert_eq!(clean_paste(" {not json  here} "), "{not json here}");
    assert_eq!(clean_paste("a   b"), "a b");
}

#[test]
fn body_field_encoding_round_trips() {
    assert_eq!(encode_body_field("File", "/tmp/a.json"), "file:///tmp/a.json");
    assert_eq!(encode_body_field("File", ""), "");
    assert_eq!(encode_body_field("Inline", "{}"), "{}");
    assert_eq!(decode_body_field("file:///tmp/a.json"), ("File".to_owned(), "/tmp/a.json".to_owned()));
    assert_eq!(decode_body_field("{}"), ("Inline".to_owned(), "{}".to_owned()));
    let stored = encode_body_field("File", "/p");
    assert_eq!(decode_body_field(&stored), ("File".to_owned(), "/p".to_owned()));
}

#[test]
fn headers_parse_and_format() {
    assert_eq!(
        parse_headers(" Content-Type : application/json | X-A: 1:2 | bad | : v | X-A: 3"),
        pairs(&[("Content-Type", "application/json"), ("X-A", "3")])
    );
    assert_eq!(parse_headers(""), Vec::<(String, String)>::new());
    let h = pairs(&[("A", "1"), ("B", "two words")]);
    assert_eq!(format_headers(&h), "A: 1 | B: two words");
    assert_eq!(parse_headers(&format_headers(&h)), h);
    assert_eq!(format_headers(&Vec::new()), "");
}

#[test]
fn tabs_cycle_through_four() {
    let t = Tab::Ports;
    assert_eq!(t.next(), Tab::Mocks);
    assert_eq!(t.next().next(), Tab::Logs);
    assert_eq!(t.next().next().next(), Tab::Functions);
    assert_eq!(t.next().next().next().next(), Tab::Ports);
}

#[test]
fn list_navigation_stays_in_bounds() {
    let mut app = App::new();
    app.port_list_nav_down();
    assert_eq!(app.port_selected, 0);
    app.set_ports(vec![port(1, 8080), port(2, 8081)], Vec::new());
    app.port_list_nav_down();
    app.port_list_nav_down();
    assert_eq!(app.port_selected, 1);
    app.port_list_nav_up();
    app.port_list_nav_up();
    assert_eq!(app.port_selected, 0);
    app.port_selected = 7;
    app.set_ports(vec![port(1, 8080)], Vec::new());
    assert_eq!(app.port_selected, 0);
}

#[test]
fn log_list_keeps_newest_five_hundred() {
    let mut app = App::new();
    app.log_selected = 3;
    for i in 0..501 {
        app.push_log_event(LogEvent::Request(request_log(i)));
    }
    assert_eq!(app.request_logs.len(), 500);
    assert_eq!(app.request_logs[0].id, 500);
    assert_eq!(app.request_logs[499].id, 1);
    assert_eq!(app.log_selected, 0);
    app.log_selected = 4;
    app.push_log_event(LogEvent::Request(request_log(900)));
    assert_eq!(app.log_selected, 0);
}

#[test]
fn tab_keys_switch_tabs() {
    let mut app = App::new();
    key(&mut app, Key::Char('3'));
    assert_eq!(app.active_tab, Tab::Logs);
    key(&mut app, Key::Tab);
    assert_eq!(app.active_tab, Tab::Functions);
    key(&mut app, Key::Tab);
    assert_eq!(app.active_tab, Tab::Ports);
}

#[test]
fn quit_and_help_keys() {
    let mut app = App::new();
    assert!(matches!(app.handle_event(Event::Key(Key::Char('c'), true)), LoopStep::Quit));
    key(&mut app, Key::Char('?'));
    assert!(app.show_fn_help);
    // q does not quit while the help is shown
    key(&mut app, Key::Char('q'));
    assert!(app.show_fn_help);
    key(&mut app, Key::Esc);
    assert!(!app.show_fn_help);
    assert!(matches!(app.handle_event(Event::Key(Key::Char('q'), false)), LoopStep::Quit));
}

#[test]
fn port_space_starts_and_stops() {
    let mut app = App::new();
    app.set_ports(vec![port(7, 8080)], Vec::new());
    assert!(matches!(key(&mut app, Key::Char(' ')), KeyAction::StartPort(7)));
    assert_eq!(app.running_port_ids, vec![7]);
    assert!(matches!(key(&mut app, Key::Char(' ')), KeyAction::StopPort(7)));
    assert!(app.running_port_ids.is_empty());
}

#[test]
fn delete_asks_for_confirmation() {
    let mut app = App::new();
    app.set_ports(vec![port(7, 8080)], Vec::new());
    key(&mut app, Key::Char('d'));
    assert_eq!(app.confirm_message, "Delete port 8080?");
    assert_eq!(app.modal, Some(ModalKind::Confirm));
    assert_eq!(app.confirm_action, Some(ConfirmAction::DeletePort(7)));
    assert!(matches!(key(&mut app, Key::Enter), KeyAction::DeletePort(7)));
    assert_eq!(app.modal, None);

    key(&mut app, Key::Char('2'));
    app.set_mocks(vec![mock(3, 7, "list")]);
    key(&mut app, Key::Char('d'));
    assert_eq!(app.confirm_message, "Delete mock \"list\"?");
    key(&mut app, Key::Esc);
    assert_eq!(app.modal, None);
}

#[test]
fn new_port_form_validates_and_submits() {
    let mut app = App::new();
    key(&mut app, Key::Char('n'));
    assert_eq!(app.modal, Some(ModalKind::PortCreate));
    assert!(matches!(key(&mut app, Key::Enter), KeyAction::Nothing));
    assert_eq!(app.modal_error.as_deref(), Some("Port number is required"));
    type_text(&mut app, "0");
    key(&mut app, Key::Enter);
    assert_eq!(app.modal_error.as_deref(), Some("Port number must be a valid number (1–65535)"));
    key(&mut app, Key::Backspace);
    type_text(&mut app, "9090");
    key(&mut app, Key::Tab);
    type_text(&mut app, "api");
    match key(&mut app, Key::Enter) {
        KeyAction::CreatePort { port, label } => {
            assert_eq!(port, 9090);
            assert_eq!(label, "api");
        }
        _ => panic!("expected a port to create"),
    }
    assert_eq!(app.modal_error, None);
    app.port_create_finished(false, 9090);
    assert_eq!(app.modal_error.as_deref(), Some("Port 9090 is already in use"));
    app.port_create_finished(true, 9090);
    assert_eq!(app.modal, None);
    assert!(app.modal_fields.is_empty());
}

#[test]
fn escape_asks_before_discarding_a_form() {
    let mut app = App::new();
    key(&mut app, Key::Char('n'));
    key(&mut app, Key::Esc);
    assert!(app.cancel_confirm_pending);
    key(&mut app, Key::Esc);
    assert!(!app.cancel_confirm_pending);
    assert_eq!(app.modal, Some(ModalKind::PortCreate));
    key(&mut app, Key::Esc);
    key(&mut app, Key::Enter);
    assert_eq!(app.modal, None);
}

#[test]
fn mock_form_edit_and_submit() {
    let mut app = App::new();
    app.set_ports(vec![port(4, 8080), port(5, 8081)], Vec::new());
    app.set_mocks(vec![mock(3, 4, "list")]);
    key(&mut app, Key::Char('2'));
    key(&mut app, Key::Char('e'));
    assert_eq!(app.modal, Some(ModalKind::MockEdit));
    assert_eq!(
        app.modal_fields,
        vec![
            "4",
            "POST",
            "/items",
            "list",
            "desc",
            "",
            "201",
            "5",
            "Content-Type: application/json",
            "File",
            "/tmp/x.json",
            "Off",
            "page",
            "pageSize",
            "",
            ""
        ]
    );
    assert_eq!(app.modal_cursor_pos, 1);
    // choice fields cycle with the arrows
    key(&mut app, Key::Right);
    assert_eq!(app.modal_fields[0], "5");
    key(&mut app, Key::Right);
    assert_eq!(app.modal_fields[0], "4");
    key(&mut app, Key::Tab);
    key(&mut app, Key::Right);
    assert_eq!(app.modal_fields[1], "PUT");
    key(&mut app, Key::Left);
    key(&mut app, Key::Left);
    assert_eq!(app.modal_fields[1], "GET");
    key(&mut app, Key::Left);
    assert_eq!(app.modal_fields[1], "DELETE");
    match key(&mut app, Key::Enter) {
        KeyAction::UpdateMock { id, port_id, req } => {
            assert_eq!((id, port_id), (3, 4));
            assert_eq!(req.method, Some(HttpMethod::DELETE));
            assert_eq!(req.path.as_deref(), Some("/items"));
            assert_eq!(req.response_status, Some(201));
            assert_eq!(req.response_delay_ms, Some(5));
            assert_eq!(req.response_headers, Some(pairs(&[("Content-Type", "application/json")])));
            assert_eq!(req.response_body.as_deref(), Some("file:///tmp/x.json"));
            assert_eq!(req.request_params, Some(Vec::new()));
            assert_eq!(req.pagination_enabled, Some(false));
            assert_eq!(req.pagination_page_param.as_deref(), Some("page"));
            assert_eq!(req.pagination_data_field.as_deref(), Some(""));
            assert_eq!(req.enabled, None);
        }
        _ => panic!("expected an update"),
    }
    app.form_saved(true);
    assert_eq!(app.modal, None);
}

#[test]
fn new_mock_form_defaults_and_errors() {
    let mut app = App::new();
    app.set_ports(vec![port(4, 8080)], Vec::new());
    key(&mut app, Key::Char('2'));
    key(&mut app, Key::Char('n'));
    assert_eq!(
        app.modal_fields,
        vec!["4", "GET", "/", "", "", "", "200", "0", "", "Inline", "", "Off", "", "", "", ""]
    );
    key(&mut app, Key::Enter);
    assert_eq!(app.modal_error.as_deref(), Some("Name is required"));
    for _ in 0..3 {
        key(&mut app, Key::Tab);
    }
    type_text(&mut app, "users");
    for _ in 0..6 {
        key(&mut app, Key::Tab);
    }
    assert_eq!(app.modal_field_idx, BODY_SOURCE_FIELD_IDX);
    key(&mut app, Key::Right);
    assert_eq!(app.modal_fields[BODY_SOURCE_FIELD_IDX], "File");
    key(&mut app, Key::Enter);
    assert_eq!(app.modal_error.as_deref(), Some("File path is required when Body Source is File"));
    key(&mut app, Key::Tab);
    type_text(&mut app, "/srv/u.json");
    match key(&mut app, Key::Enter) {
        KeyAction::CreateMock(req) => {
            assert_eq!(req.port_id, 4);
            assert_eq!(req.name, "users");
            assert_eq!(req.method, HttpMethod::GET);
            assert_eq!(req.response_status, 200);
            assert_eq!(req.response_body, "file:///srv/u.json");
            assert_eq!(req.pagination_page_size, 10);
            assert_eq!(req.pagination_size_param, "pageSize");
            assert_eq!(req.pagination_page_param, "page");
            assert!(!req.pagination_enabled);
            assert!(req.request_params.is_empty());
        }
        _ => panic!("expected a mock to create"),
    }
}

#[test]
fn mock_form_params_and_pagination() {
    let mut app = App::new();
    app.set_ports(vec![port(4, 8080)], Vec::new());
    app.open_mock_create();
    app.modal_fields[NAME_FIELD_IDX] = "users".to_owned();
    // Request params: `+` starts another entry after a non-empty list.
    app.modal_field_idx = REQUEST_PARAMS_FIELD_IDX;
    app.modal_cursor_pos = 0;
    key(&mut app, Key::Char('+'));
    assert_eq!(app.modal_fields[REQUEST_PARAMS_FIELD_IDX], "");
    type_text(&mut app, "name");
    key(&mut app, Key::Char('+'));
    assert_eq!(app.modal_fields[REQUEST_PARAMS_FIELD_IDX], "name | ");
    assert_eq!(app.modal_cursor_pos, 7);
    type_text(&mut app, "age");
    assert_eq!(app.modal_fields[REQUEST_PARAMS_FIELD_IDX], "name | age");
    // The pagination switch flips with either arrow.
    app.modal_field_idx = PAGINATION_ENABLED_FIELD_IDX;
    key(&mut app, Key::Right);
    assert_eq!(app.modal_fields[PAGINATION_ENABLED_FIELD_IDX], "On");
    key(&mut app, Key::Left);
    assert_eq!(app.modal_fields[PAGINATION_ENABLED_FIELD_IDX], "Off");
    key(&mut app, Key::Left);
    assert_eq!(app.modal_fields[PAGINATION_ENABLED_FIELD_IDX], "On");
    // Typing does not change a choice.
    key(&mut app, Key::Char('x'));
    assert_eq!(app.modal_fields[PAGINATION_ENABLED_FIELD_IDX], "On");
    app.modal_fields[PAGINATION_DATA_FIELD_IDX] = "body.list".to_owned();
    match key(&mut app, Key::Enter) {
        KeyAction::CreateMock(req) => {
            assert_eq!(req.request_params, pairs(&[("name", ""), ("age", "")]));
            assert!(req.pagination_enabled);
            assert_eq!(req.pagination_page_param, "page");
            assert_eq!(req.pagination_size_param, "pageSize");
            assert_eq!(req.pagination_data_field, "body.list");
            assert_eq!(req.pagination_total_field, "");
        }
        _ => panic!("expected a mock to create"),
    }
}

#[test]
fn tab_skips_hidden_fields() {
    let mut app = App::new();
    app.set_ports(vec![port(4, 8080)], Vec::new());
    app.open_mock_create();
    // GET shows the request params; pagination is off, so its settings are hidden.
    assert!(app.is_field_shown(REQUEST_PARAMS_FIELD_IDX));
    assert!(!app.is_field_shown(PAGINATION_PAGE_PARAM_FIELD_IDX));
    app.modal_field_idx = DESCRIPTION_FIELD_IDX;
    key(&mut app, Key::Tab);
    assert_eq!(app.modal_field_idx, REQUEST_PARAMS_FIELD_IDX);
    app.modal_field_idx = PAGINATION_ENABLED_FIELD_IDX;
    key(&mut app, Key::Tab);
    assert_eq!(app.modal_field_idx, PORT_ID_FIELD_IDX);
    key(&mut app, Key::BackTab);
    assert_eq!(app.modal_field_idx, PAGINATION_ENABLED_FIELD_IDX);
    // With pagination on, its settings follow the switch.
    key(&mut app, Key::Right);
    key(&mut app, Key::Tab);
    assert_eq!(app.modal_field_idx, PAGINATION_PAGE_PARAM_FIELD_IDX);
    // PUT mocks do not filter by params.
    app.modal_fields[METHOD_FIELD_IDX] = "PUT".to_owned();
    assert!(!app.is_field_shown(REQUEST_PARAMS_FIELD_IDX));
    app.modal_field_idx = DESCRIPTION_FIELD_IDX;
    key(&mut app, Key::Tab);
    assert_eq!(app.modal_field_idx, STATUS_FIELD_IDX);
    key(&mut app, Key::BackTab);
    assert_eq!(app.modal_field_idx, DESCRIPTION_FIELD_IDX);
    // The port form shows every field.
    app.dismiss_modal();
    app.open_port_create();
    assert!(app.is_field_shown(1));
}

#[test]
fn text_editing_at_the_cursor() {
    let mut app = App::new();
    app.open_port_create();
    type_text(&mut app, "8090");
    key(&mut app, Key::Left);
    key(&mut app, Key::Left);
    type_text(&mut app, "x");
    assert_eq!(app.modal_fields[0], "80x90");
    key(&mut app, Key::Backspace);
    key(&mut app, Key::Backspace);
    assert_eq!(app.modal_fields[0], "890");
    assert_eq!(app.modal_cursor_pos, 1);
    app.modal_paste("  a  b ");
    assert_eq!(app.modal_fields[0], "8a b90");
    assert_eq!(app.modal_cursor_pos, 4);
    key(&mut app, Key::Right);
    key(&mut app, Key::Right);
    key(&mut app, Key::Right);
    assert_eq!(app.modal_cursor_pos, 6);
}

#[test]
fn header_autocomplete() {
    let mut app = App::new();
    app.set_ports(vec![port(4, 8080)], Vec::new());
    app.open_mock_create();
    app.modal_field_idx = HEADER_FIELD_IDX;
    app.modal_fields[HEADER_FIELD_IDX] = "cont".to_owned();
    assert_eq!(app.header_autocomplete_suggestion(), Some("Content-Type: application/json"));
    key(&mut app, Key::Right);
    assert_eq!(app.modal_fields[HEADER_FIELD_IDX], "Content-Type: application/json");
    app.modal_fields[HEADER_FIELD_IDX] = "X: 1 | CACHE".to_owned();
    assert_eq!(app.header_autocomplete_suggestion(), Some("Cache-Control: no-cache"));
    app.accept_header_autocomplete();
    assert_eq!(app.modal_fields[HEADER_FIELD_IDX], "X: 1 | Cache-Control: no-cache");
    app.modal_fields[HEADER_FIELD_IDX] = "zzz".to_owned();
    assert_eq!(app.header_autocomplete_suggestion(), None);
    app.modal_fields[HEADER_FIELD_IDX] = "A: b | ".to_owned();
    assert_eq!(app.header_autocomplete_suggestion(), None);
    // `+` starts another header too.
    app.modal_fields[HEADER_FIELD_IDX] = "A: b".to_owned();
    key(&mut app, Key::Char('+'));
    assert_eq!(app.modal_fields[HEADER_FIELD_IDX], "A: b | ");
}

#[test]
fn logs_tab_keys() {
    let mut app = App::new();
    app.push_log_event(LogEvent::Request(request_log(1)));
    app.push_log_event(LogEvent::Request(request_log(2)));
    key(&mut app, Key::Char('3'));
    key(&mut app, Key::Down);
    assert_eq!(app.log_selected, 1);
    key(&mut app, Key::Enter);
    assert!(app.log_detail_open);
    key(&mut app, Key::Char('s'));
    assert_eq!(app.log_tab, LogTab::System);
    assert!(!app.log_detail_open);
    // There is no follow toggle: a new entry is selected.
    key(&mut app, Key::Char('f'));
    app.push_log_event(LogEvent::Request(request_log(3)));
    assert_eq!(app.log_selected, 0);
}

#[test]
fn mock_toggle_asks_store() {
    let mut app = App::new();
    app.set_mocks(vec![mock(3, 4, "list")]);
    key(&mut app, Key::Char('2'));
    match key(&mut app, Key::Char(' ')) {
        KeyAction::ToggleMock { id, enabled, port_id } => {
            assert_eq!((id, enabled, port_id), (3, false, 4));
        }
        _ => panic!("expected a toggle"),
    }
}

#[test]
fn f1_toggles_help_even_in_a_dialog() {
    let mut app = App::new();
    app.open_port_create();
    // In a dialog `?` is typed into the field.
    key(&mut app, Key::Char('?'));
    assert!(!app.show_fn_help);
    assert_eq!(app.modal_fields[0], "?");
    key(&mut app, Key::F1);
    assert!(app.show_fn_help);
    key(&mut app, Key::F1);
    assert!(!app.show_fn_help);
}

#[test]
fn control_u_clears_the_body_field() {
    let mut app = App::new();
    app.set_ports(vec![port(1, 8080)], Vec::new());
    app.open_mock_create();
    app.modal_field_idx = apimock::tui::BODY_FIELD_IDX;
    app.modal_fields[apimock::tui::BODY_FIELD_IDX] = "{\"a\":1}".to_owned();
    app.modal_cursor_pos = 3;
    assert!(matches!(app.handle_event(Event::Key(Key::Char('u'), true)), LoopStep::Continue(KeyAction::Nothing)));
    assert_eq!(app.modal_fields[apimock::tui::BODY_FIELD_IDX], "");
    assert_eq!(app.modal_cursor_pos, 0);
    // Without Control the letter is typed.
    key(&mut app, Key::Char('u'));
    assert_eq!(app.modal_fields[apimock::tui::BODY_FIELD_IDX], "u");
}

#[test]
fn c_clears_the_active_log() {
    let mut app = App::new();
    key(&mut app, Key::Char('3'));
    app.push_log_event(LogEvent::Request(request_log(1)));
    app.push_log_event(LogEvent::Request(request_log(2)));
    assert!(matches!(key(&mut app, Key::Char('c')), KeyAction::ClearLogs(LogTab::Request)));
    assert!(app.request_logs.is_empty());
    key(&mut app, Key::Char('s'));
    assert!(matches!(key(&mut app, Key::Char('c')), KeyAction::ClearLogs(LogTab::System)));
}

#[test]
fn every_log_event_goes_to_the_front() {
    let mut app = App::new();
    app.push_log_event(LogEvent::Request(request_log(7)));
    app.push_log_event(LogEvent::Request(request_log(8)));
    app.log_selected = 1;
    app.push_log_event(LogEvent::Request(request_log(7)));
    let ids: Vec<i64> = app.request_logs.iter().map(|l| l.id).collect();
    assert_eq!(ids, vec![7, 8, 7]);
    assert_eq!(app.log_selected, 0);
}

#[test]
fn open_detail_scrolls_instead_of_moving() {
    let mut app = App::new();
    app.push_log_event(LogEvent::Request(request_log(1)));
    app.push_log_event(LogEvent::Request(request_log(2)));
    key(&mut app, Key::Char('3'));
    key(&mut app, Key::Enter);
    assert!(app.log_detail_open);
    key(&mut app, Key::Down);
    key(&mut app, Key::Down);
    assert_eq!(app.log_detail_scroll, 2);
    assert_eq!(app.log_selected, 0);
    key(&mut app, Key::Up);
    assert_eq!(app.log_detail_scroll, 1);
    key(&mut app, Key::Esc);
    assert!(!app.log_detail_open);
    assert_eq!(app.log_detail_scroll, 0);
    key(&mut app, Key::Down);
    assert_eq!(app.log_selected, 1);
}

#[test]
fn body_field_scrolls() {
    let mut app = App::new();
    app.set_ports(vec![port(1, 8080)], Vec::new());
    app.open_mock_create();
    app.modal_field_idx = apimock::tui::BODY_FIELD_IDX;
    key(&mut app, Key::Down);
    key(&mut app, Key::Down);
    assert_eq!(app.modal_body_scroll, 2);
    key(&mut app, Key::Up);
    key(&mut app, Key::Up);
    key(&mut app, Key::Up);
    assert_eq!(app.modal_body_scroll, 0);
    key(&mut app, Key::Down);
    app.dismiss_modal();
    assert_eq!(app.modal_body_scroll, 0);
}

#[test]
fn params_round_trip_through_the_form() {
    let ps = pairs(&[("name", ""), ("age", ""), ("city", "")]);
    assert_eq!(format_params(&ps), "name | age | city");
    assert_eq!(parse_params(&format_params(&ps)), ps);
    assert_eq!(parse_params(" a |  | b | a "), pairs(&[("b", ""), ("a", "")]));
    assert_eq!(format_params(&Vec::new()), "");
    assert!(parse_params("").is_empty());
}

#[test]
fn untouched_edit_form_keeps_the_mock() {
    let mut app = App::new();
    let m = mock(3, 4, "list");
    app.set_mocks(vec![m.clone()]);
    app.open_mock_edit();
    let u = app.build_update_mock();
    assert_eq!(u.method, Some(m.method));
    assert_eq!(u.path.as_deref(), Some(m.path.as_str()));
    assert_eq!(u.name.as_deref(), Some(m.name.as_str()));
    assert_eq!(u.description.as_deref(), Some(m.description.as_str()));
    assert_eq!(u.response_status, Some(m.response_status));
    assert_eq!(u.response_delay_ms, Some(m.response_delay_ms));
    assert_eq!(u.response_headers, Some(m.response_headers.clone()));
    assert_eq!(u.response_body.as_deref(), Some(m.response_body.as_str()));
    assert_eq!(u.pagination_enabled, Some(m.pagination_enabled));
}

#[test]
fn typing_then_deleting_restores_the_field() {
    let mut app = App::new();
    app.open_port_create();
    type_text(&mut app, "8080");
    app.modal_cursor_pos = 2;
    let before = app.modal_fields.clone();
    key(&mut app, Key::Char('x'));
    key(&mut app, Key::Backspace);
    assert_eq!(app.modal_fields, before);
    assert_eq!(app.modal_cursor_pos, 2);
}

#[test]
fn keys_wait_while_a_discard_is_pending() {
    let mut app = App::new();
    app.open_port_create();
    key(&mut app, Key::Esc);
    assert!(app.cancel_confirm_pending);
    // Backspace past an empty field is accepted and ignored.
    app.modal_cursor_pos = 5;
    assert!(app.accepts(&Event::Key(Key::Backspace, false)));
    key(&mut app, Key::Backspace);
    key(&mut app, Key::Char('9'));
    assert_eq!(app.modal_fields[0], "");
    assert!(app.cancel_confirm_pending);
    key(&mut app, Key::Enter);
    assert_eq!(app.modal, None);
}
