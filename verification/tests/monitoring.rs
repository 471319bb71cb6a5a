use chagle::bandwidth::{limiter_rate, transfer, Transfer};
use chagle::config::{HealthCheckConfig, HttpHeader};
use chagle::dashboard::{
    answer, dashboard_html, handle_bytes, request_action, DashboardAction,
};
use chagle::health_check::{
    check_plan, http_check_request, judge_answer, judge_response, CheckError, CheckPlan,
    HealthStatus,
};
use chagle::metrics::{MetricsCollector, ProxyMetrics};

// ---------- health ----------

#[test]
fn failures_in_a_row_take_a_service_down() {
    let mut h = HealthStatus::new(3);
    assert!(h.is_healthy());
    h.record_failure();
    h.record_failure();
    assert!(h.is_healthy());
    h.record_success();
    h.record_failure();
    h.record_failure();
    assert!(h.is_healthy());
    h.record_failure();
    assert!(!h.is_healthy());
    h.record_failure();
    assert!(!h.is_healthy());
    h.record_success();
    assert!(h.is_healthy());
}

#[test]
fn no_failures_allowed() {
    let mut h = HealthStatus::new(0);
    assert!(h.is_healthy());
    h.record_failure();
    assert!(!h.is_healthy());
}

fn check(kind: &str, path: Option<&str>) -> HealthCheckConfig {
    HealthCheckConfig {
        check_type: kind.to_string(),
        path: path.map(|p| p.to_string()),
        interval_seconds: 10,
        timeout_seconds: 3,
        max_failed: 3,
        http_headers: None,
    }
}

#[test]
fn checks_are_planned() {
    assert!(matches!(check_plan(&check("tcp", None)), CheckPlan::Tcp));
    assert!(matches!(check_plan(&check("http", None)), CheckPlan::Http("/")));
    assert!(matches!(check_plan(&check("http", Some("/up"))), CheckPlan::Http("/up")));
    assert!(matches!(check_plan(&check("udp", None)), CheckPlan::Unknown));
}

#[test]
fn check_request() {
    assert_eq!(
        http_check_request("127.0.0.1:80", "/up", &None),
        "GET /up HTTP/1.1\r\nHost: 127.0.0.1:80\r\nConnection: close\r\n\r\n"
    );
    let headers = vec![
        HttpHeader { name: "A".to_string(), value: "1".to_string() },
        HttpHeader { name: "B".to_string(), value: "2".to_string() },
    ];
    assert_eq!(
        http_check_request("h", "/", &Some(headers)),
        "GET / HTTP/1.1\r\nHost: h\r\nA: 1\r\nB: 2\r\nConnection: close\r\n\r\n"
    );
}

#[test]
fn answers_are_judged_by_their_status() {
    assert!(judge_answer("HTTP/1.1 200 OK\r\n\r\n").is_ok());
    assert!(judge_answer("HTTP/1.1 299 Fine").is_ok());
    assert!(matches!(judge_answer("HTTP/1.1 300 X"), Err(CheckError::Status(300))));
    assert!(matches!(judge_answer("HTTP/1.1 199"), Err(CheckError::Status(199))));
    assert!(matches!(judge_answer("HTTP/1.1 abc"), Err(CheckError::Status(0))));
    assert!(matches!(judge_answer("HTTP/1.1 70000"), Err(CheckError::Status(0))));
    let e = judge_answer("HTTP/1.1 503 Down\r\n").unwrap_err();
    assert_eq!(e.message(), "HTTP health check returned status 503");
    let e = judge_answer("nonsense\r\n200 200").unwrap_err();
    assert_eq!(e.message(), "Invalid HTTP response: nonsense");
    assert!(matches!(judge_answer(""), Err(CheckError::Invalid(l)) if l.is_empty()));
}

#[test]
fn raw_answers_are_judged() {
    assert!(judge_response(b"HTTP/1.0 204 No Content\r\nX: \xff\r\n").is_ok());
    let e = judge_response(b"").unwrap_err();
    assert!(matches!(e, CheckError::Empty));
    assert_eq!(e.message(), "Empty response");
    let e = judge_response(b"\xffoops").unwrap_err();
    assert_eq!(e.message(), "Invalid HTTP response: \u{fffd}oops");
}

// ---------- metrics ----------

#[test]
fn proxies_are_counted() {
    let mut m = ProxyMetrics::default();
    m.record_connection_in();
    m.record_connection_out();
    m.record_connection_out();
    m.record_bytes_in(5);
    m.record_bytes_in(u64::MAX);
    m.record_bytes_out(9);
    let s = m.snapshot();
    assert_eq!(s.connections_in, 1);
    assert_eq!(s.connections_out, 2);
    assert_eq!(s.bytes_in, 4);
    assert_eq!(s.bytes_out, 9);
}

fn counted() -> MetricsCollector {
    let mut c = MetricsCollector::new();
    c.record_connection();
    c.record_connection();
    c.record_disconnection();
    c.get_or_create_proxy("web").record_bytes_in(10);
    c.get_or_create_proxy("ssh").record_connection_in();
    c.get_or_create_proxy("web").record_bytes_in(1);
    c
}

#[test]
fn prometheus_text() {
    let expected = "# HELP chagle_server_connections_total Total connections received
# TYPE chagle_server_connections_total counter
chagle_server_connections_total 2
# HELP chagle_server_connections_active Active connections
# TYPE chagle_server_connections_active gauge
chagle_server_connections_active 1

# HELP chagle_proxy_connections_in Inbound connections per proxy
# TYPE chagle_proxy_connections_in counter
chagle_proxy_connections_in{proxy=\"web\"} 0
chagle_proxy_connections_in{proxy=\"ssh\"} 1

# HELP chagle_proxy_connections_out Outbound connections per proxy
# TYPE chagle_proxy_connections_out counter
chagle_proxy_connections_out{proxy=\"web\"} 0
chagle_proxy_connections_out{proxy=\"ssh\"} 0

# HELP chagle_proxy_bytes_in Bytes received per proxy
# TYPE chagle_proxy_bytes_in counter
chagle_proxy_bytes_in{proxy=\"web\"} 11
chagle_proxy_bytes_in{proxy=\"ssh\"} 0

# HELP chagle_proxy_bytes_out Bytes sent per proxy
# TYPE chagle_proxy_bytes_out counter
chagle_proxy_bytes_out{proxy=\"web\"} 0
chagle_proxy_bytes_out{proxy=\"ssh\"} 0
";
    assert_eq!(counted().prometheus_output(), expected);
}

#[test]
fn forgotten_proxies_start_over() {
    let mut c = counted();
    c.remove_proxy("web");
    assert_eq!(c.snapshots().len(), 1);
    assert_eq!(c.get_or_create_proxy("web").bytes_in, 0);
    let s = c.snapshots();
    assert_eq!(s[0].0, "ssh");
    assert_eq!(s[0].1.connections_in, 1);
    assert_eq!(s[1].0, "web");
}

#[test]
fn closed_connection_is_not_active() {
    let mut c = MetricsCollector::default();
    c.record_connection();
    c.record_disconnection();
    let text = c.prometheus_output();
    assert!(text.contains("connections_total 1\n"));
    assert!(text.contains("connections_active 0\n"));
}

// ---------- bandwidth ----------

#[test]
fn transfers_are_limited() {
    assert_eq!(limiter_rate(0), None);
    assert_eq!(limiter_rate(5), Some(5));
    assert_eq!(transfer(None, 10), Transfer::UpTo(10));
    assert_eq!(transfer(Some(0), 10), Transfer::Wait);
    assert_eq!(transfer(Some(3), 10), Transfer::UpTo(3));
    assert_eq!(transfer(Some(30), 10), Transfer::UpTo(10));
}

// ---------- dashboard ----------

fn action(request: &str) -> DashboardAction {
    request_action(request, None, None, true)
}

#[test]
fn paths_lead_to_actions() {
    assert_eq!(action("GET /metrics HTTP/1.1\r\n\r\n"), DashboardAction::Metrics);
    assert_eq!(action("GET /api/status HTTP/1.1\r\n\r\n"), DashboardAction::Status);
    assert_eq!(action("POST /api/health x"), DashboardAction::Health);
    assert_eq!(action("GET /"), DashboardAction::Index);
    assert_eq!(action("GET /x HTTP/1.1"), DashboardAction::NotFound);
    assert_eq!(action("GET"), DashboardAction::Ignore);
    assert_eq!(action(""), DashboardAction::Ignore);
    assert_eq!(
        request_action("GET /metrics HTTP/1.1", None, None, false),
        DashboardAction::NotFound
    );
}

fn guarded(headers: &str) -> DashboardAction {
    let request = format!("GET / HTTP/1.1\r\n{}\r\n", headers);
    request_action(&request, Some("user"), Some("pass"), true)
}

#[test]
fn credentials_are_asked_for() {
    assert_eq!(guarded(""), DashboardAction::Unauthorized);
    assert_eq!(guarded("Authorization: Basic dXNlcjpwYXNz\r\n"), DashboardAction::Index);
    assert_eq!(guarded("AUTHORIZATION:Basic  dXNlcjpwYXNz \r\n"), DashboardAction::Index);
    assert_eq!(guarded("Authorization: Basic eDp5\r\n"), DashboardAction::Unauthorized);
    assert_eq!(guarded("Authorization:\r\n"), DashboardAction::Unauthorized);
    // The first header of that name decides.
    assert_eq!(
        guarded("Authorization: x\r\nAuthorization: Basic dXNlcjpwYXNz\r\n"),
        DashboardAction::Unauthorized
    );
    // Without a password nothing is asked for.
    assert_eq!(
        request_action("GET / HTTP/1.1", Some("user"), None, true),
        DashboardAction::Index
    );
}

#[test]
fn raw_requests() {
    assert_eq!(handle_bytes(b"", None, None, true), DashboardAction::Ignore);
    assert_eq!(
        handle_bytes(b"GET /\xff HTTP/1.1\r\n", None, None, true),
        DashboardAction::NotFound
    );
    assert_eq!(
        handle_bytes(b"GET /api/health HTTP/1.1\r\nX: \xff\r\n", None, None, true),
        DashboardAction::Health
    );
}

#[test]
fn answers() {
    let m = counted();
    assert_eq!(answer(DashboardAction::Ignore, &m, ""), None);
    assert_eq!(
        answer(DashboardAction::Unauthorized, &m, "").unwrap(),
        "HTTP/1.1 401 Unauthorized\r\nWWW-Authenticate: Basic realm=\"chagle\"\r\nContent-Length: 12\r\n\r\nUnauthorized"
    );
    let body = m.prometheus_output();
    assert_eq!(
        answer(DashboardAction::Metrics, &m, "").unwrap(),
        format!(
            "HTTP/1.1 200 OK\r\nContent-Type: text/plain; charset=utf-8\r\nContent-Length: {}\r\n\r\n{}",
            body.len(),
            body
        )
    );
    assert_eq!(
        answer(DashboardAction::Status, &m, "{\"ü\":1}").unwrap(),
        "HTTP/1.1 200 OK\r\nContent-Type: application/json\r\nContent-Length: 8\r\n\r\n{\"ü\":1}"
    );
    assert_eq!(
        answer(DashboardAction::Health, &m, "").unwrap(),
        "HTTP/1.1 200 OK\r\nContent-Type: application/json\r\nContent-Length: 15\r\n\r\n{\"status\":\"ok\"}"
    );
    assert_eq!(
        answer(DashboardAction::NotFound, &m, "").unwrap(),
        "HTTP/1.1 404 Not Found\r\nContent-Length: 9\r\n\r\nNot Found"
    );
    let page = answer(DashboardAction::Index, &m, "").unwrap();
    assert!(page.starts_with("HTTP/1.1 200 OK\r\nContent-Type: text/html; charset=utf-8\r\n"));
    assert!(page.ends_with(&dashboard_html()));
    assert!(dashboard_html().starts_with("<!DOCTYPE html>"));
    assert!(dashboard_html().ends_with("</html>"));
}
