use apimock::cli::{run_mode, serve_args, Cli, Command, RunMode};
use apimock::control::{
    already_running_message, bind_address, daemon_pid_to_check, enabled_mocks, keep_waiting, parse_pid,
    pid_text, plan_start, plan_status, plan_stop, ports_to_start, reconcile_port, restart,
    restart_respawns, signal_failed_message, started_messages, starts_ports_itself, status_message,
    stop_message, ReconcileAction, StartPlan, StatusReport, StopPlan,
};
use apimock::models::{HttpMethod, MockApi, PortConfig};

fn port(id: i64, enabled: bool, running: bool, owner: Option<u32>) -> PortConfig {
    PortConfig {
        id,
        port: 8000 + id as u16,
        label: String::new(),
        enabled,
        created_at: String::new(),
        running,
        owner_pid: owner,
    }
}

#[test]
fn pid_file_text() {
    assert_eq!(parse_pid(" 1234\n"), Some(1234));
    assert_eq!(parse_pid("+7"), Some(7));
    assert_eq!(parse_pid("abc"), None);
    assert_eq!(parse_pid("4294967296"), None);
    assert_eq!(parse_pid(""), None);
    assert_eq!(pid_text(99), "99");
    assert_eq!(parse_pid(&pid_text(4_000_000)), Some(4_000_000));
    assert_eq!(daemon_pid_to_check(Some(5), 5), None);
    assert_eq!(daemon_pid_to_check(Some(5), 6), Some(5));
    assert_eq!(daemon_pid_to_check(None, 6), None);
}

#[test]
fn daemon_plans() {
    assert_eq!(plan_start(Some(3), true), StartPlan::AlreadyRunning(3));
    assert_eq!(plan_start(Some(3), false), StartPlan::Spawn { remove_stale: true });
    assert_eq!(plan_start(None, false), StartPlan::Spawn { remove_stale: false });
    assert_eq!(plan_stop(None, false), StopPlan::NothingRunning);
    assert_eq!(plan_stop(Some(3), false), StopPlan::CleanStale(3));
    assert_eq!(plan_stop(Some(3), true), StopPlan::Terminate(3));
    assert_eq!(plan_status(Some(3), true), StatusReport::Running(3));
    assert_eq!(plan_status(Some(3), false), StatusReport::Stale);
    assert_eq!(plan_status(None, true), StatusReport::NotRunning);
    assert!(keep_waiting(0, true));
    assert!(!keep_waiting(50, true));
    assert!(!keep_waiting(3, false));
    assert_eq!(restart(None), Some(Command::Stop));
    assert_eq!(restart(Some((Command::Stop, true))), Some(Command::Start));
    assert_eq!(restart(Some((Command::Stop, false))), None);
    assert_eq!(restart(Some((Command::Start, true))), None);
    assert_eq!(restart(Some((Command::Start, false))), None);
}

#[test]
fn daemon_messages() {
    assert_eq!(already_running_message(12), "Mock server is already running (PID: 12).");
    assert_eq!(
        started_messages(12, 9999),
        vec!["Mock server started (PID: 12).", "Dashboard: http://localhost:9999", "Stop with: mock stop"]
    );
    assert_eq!(stop_message(StopPlan::NothingRunning), "No running mock server found.");
    assert_eq!(
        stop_message(StopPlan::CleanStale(8)),
        "Mock server (PID: 8) is not running. Cleaning up stale PID file."
    );
    assert_eq!(stop_message(StopPlan::Terminate(8)), "Mock server stopped.");
    assert_eq!(signal_failed_message(8), "Failed to send SIGTERM to PID 8");
    assert_eq!(status_message(StatusReport::NotRunning), "Mock server is not running.");
    assert_eq!(status_message(StatusReport::Stale), "Mock server is not running (stale PID file).");
    assert_eq!(status_message(StatusReport::Running(77)), "Mock server is running (PID: 77).");
}

#[test]
fn reconciliation_rules() {
    assert_eq!(reconcile_port(&port(1, true, false, None), 10, true), ReconcileAction::Start(1));
    assert_eq!(reconcile_port(&port(1, true, true, None), 10, true), ReconcileAction::Nothing);
    assert_eq!(reconcile_port(&port(1, true, true, Some(4)), 10, false), ReconcileAction::ClearAndStart(1));
    assert_eq!(reconcile_port(&port(1, true, false, Some(4)), 10, true), ReconcileAction::Nothing);
    assert_eq!(reconcile_port(&port(1, false, true, Some(10)), 10, true), ReconcileAction::Stop(1));
    assert_eq!(reconcile_port(&port(1, false, true, Some(11)), 10, true), ReconcileAction::Nothing);
    assert_eq!(reconcile_port(&port(1, false, false, Some(10)), 10, true), ReconcileAction::Nothing);
}

fn mock(id: i64, enabled: bool) -> MockApi {
    MockApi {
        id,
        port_id: 1,
        name: String::new(),
        description: String::new(),
        method: HttpMethod::GET,
        path: "/".to_owned(),
        request_schema: None,
        response_status: 200,
        response_headers: Vec::new(),
        response_body: String::new(),
        response_delay_ms: 0,
        enabled,
        pagination_enabled: false,
        pagination_page_size: 10,
        request_params: Vec::new(),
        pagination_page_param: String::new(),
        pagination_size_param: String::new(),
        pagination_data_field: String::new(),
        pagination_total_field: String::new(),
        created_at: String::new(),
        updated_at: String::new(),
    }
}

#[test]
fn port_servers() {
    let kept: Vec<i64> = enabled_mocks(vec![mock(1, true), mock(2, false), mock(3, true)]).iter().map(|m| m.id).collect();
    assert_eq!(kept, vec![1, 3]);
    assert_eq!(bind_address(8080), "0.0.0.0:8080");
    assert_eq!(ports_to_start(&vec![port(1, true, false, None), port(2, false, false, None), port(3, true, true, None)]), vec![1, 3]);
    assert!(starts_ports_itself(false));
    assert!(!starts_ports_itself(true));
    assert!(restart_respawns(Some(&port(1, true, false, None))));
    assert!(!restart_respawns(Some(&port(1, false, false, None))));
    assert!(!restart_respawns(None));
}

#[test]
fn command_line_modes() {
    assert_eq!(run_mode(None), RunMode::Interface);
    assert_eq!(run_mode(Some(Command::Serve)), RunMode::Foreground);
    assert_eq!(run_mode(Some(Command::Stop)), RunMode::Daemon(Command::Stop));
    let c = Cli::defaults();
    assert_eq!(c.db, "apimock.db");
    assert_eq!(c.port, 9999);
    assert_eq!(serve_args("x.db", 8000), vec!["serve", "--db", "x.db", "--port", "8000"]);
}

#[test]
fn pid_file_beside_the_database() {
    assert_eq!(apimock::control::pid_file_name(Some("my-project")), "my-project.pid");
    assert_eq!(apimock::control::pid_file_name(None), "apimock.pid");
}

fn route(id: i64, port_id: i64, method: HttpMethod, path: &str, name: &str, enabled: bool) -> MockApi {
    let mut m = mock(id, enabled);
    m.port_id = port_id;
    m.method = method;
    m.path = path.to_owned();
    m.name = name.to_owned();
    m
}

#[test]
fn status_lists_running_ports_and_routes() {
    let mut payments = port(1, true, true, Some(12345));
    payments.port = 8080;
    payments.label = "payments-api".to_owned();
    let mut auth = port(2, true, true, Some(12345));
    auth.port = 3000;
    auth.label = "auth-service".to_owned();
    let mut idle = port(3, true, false, None);
    idle.port = 4000;
    let mocks = vec![
        route(1, 1, HttpMethod::DELETE, "/payments/{id}", "cancel payment", true),
        route(2, 1, HttpMethod::GET, "/payments", "list payments", true),
        route(3, 2, HttpMethod::GET, "/login", "login", false),
        route(4, 1, HttpMethod::POST, "/payments", "create payment", true),
        route(5, 3, HttpMethod::GET, "/idle", "idle", true),
    ];
    let lines = apimock::control::status_details(&vec![payments, auth, idle], &mocks);
    assert_eq!(
        lines,
        vec![
            "",
            "  ● :8080  payments-api",
            "      DELETE  /payments/{id}  (cancel payment)",
            "      GET     /payments       (list payments)",
            "      POST    /payments       (create payment)",
            "",
            "  ● :3000  auth-service",
            "      (no enabled APIs)",
        ]
    );
    assert!(apimock::control::status_details(&Vec::new(), &mocks).is_empty());
}

#[test]
fn daemon_api_requests() {
    assert_eq!(
        apimock::control::daemon_port_request(7, apimock::control::PortCommand::Restart),
        "POST /api/v1/ports/7/restart HTTP/1.1\r\nHost: localhost\r\nContent-Length: 0\r\nConnection: close\r\n\r\n"
    );
    assert!(apimock::control::daemon_port_request(12, apimock::control::PortCommand::Start).starts_with("POST /api/v1/ports/12/start HTTP/1.1\r\n"));
    assert!(apimock::control::daemon_port_request(3, apimock::control::PortCommand::Stop).starts_with("POST /api/v1/ports/3/stop "));
}

#[test]
fn running_ports_come_from_the_store() {
    let ports = vec![port(1, true, true, Some(9)), port(2, true, false, None), port(3, false, true, Some(9))];
    assert_eq!(apimock::control::running_ports(&ports), vec![1, 3]);
    assert!(apimock::control::running_ports(&Vec::new()).is_empty());
}
