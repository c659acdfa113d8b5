use retrotls::logging::{
    access_text, init_logging, log_access, log_error, log_shutdown, log_startup, AccessLogEvent,
    Timestamp,
};
use retrotls::net::SocketAddr;

fn event(secs: i64, nanos: u32) -> AccessLogEvent {
    AccessLogEvent {
        timestamp: Timestamp { secs, nanos },
        client_addr: SocketAddr::v4("192.0.2.7", 50_000),
        local_bind: SocketAddr::v6("::1", 8080, 0, 0),
        method: "GET".to_string(),
        path: "/users?id=1".to_string(),
        upstream: "https://api.example.com".to_string(),
        status_code: 200,
        latency_ms: 12,
    }
}

#[test]
fn an_access_is_one_line() {
    let plan = init_logging("info", true, None);
    assert_eq!(
        log_access(&plan, &event(1_431_648_000, 999_999_999)).expect("a line"),
        "2015-05-15T00:00:00Z 192.0.2.7:50000 -> [::1]:8080 GET /users?id=1 200 12ms"
    );
    assert_eq!(
        access_text("now", &event(0, 0)),
        "now 192.0.2.7:50000 -> [::1]:8080 GET /users?id=1 200 12ms"
    );
}

#[test]
fn no_line_where_accesses_are_not_logged() {
    let plan = init_logging("info", false, None);
    assert!(!plan.access_log);
    assert!(log_access(&plan, &event(0, 0)).is_none());
}

#[test]
fn no_line_for_what_is_no_moment() {
    let plan = init_logging("info", true, None);
    assert!(log_access(&plan, &event(i64::MAX, 0)).is_none());
    assert!(log_access(&plan, &event(0, u32::MAX)).is_none());
    assert!(log_access(&plan, &event(-1, 0)).expect("a line").starts_with("1969-12-31T23:59:59Z "));
}

#[test]
fn the_lines_of_a_start() {
    let bind = SocketAddr::v4("127.0.0.1", 8080);
    assert_eq!(
        log_startup(&bind, &vec![]),
        vec!["RetroTLS starting on 127.0.0.1:8080", "No upstream mappings configured"]
    );
    let mappings = vec![
        ("/a".to_string(), "https://a".to_string()),
        ("/b".to_string(), "https://b".to_string()),
    ];
    assert_eq!(
        log_startup(&bind, &mappings),
        vec![
            "RetroTLS starting on 127.0.0.1:8080",
            "Upstream mapping: /a -> https://a",
            "Upstream mapping: /b -> https://b",
        ]
    );
}

#[test]
fn lines_of_errors_and_shutdowns() {
    assert_eq!(log_error("accept", "too many files"), "accept: too many files");
    assert_eq!(log_shutdown("SIGTERM"), "RetroTLS shutting down: SIGTERM");
}

#[test]
fn what_a_line_shows() {
    let plan = init_logging("warn", true, None);
    assert_eq!(plan.filter, "warn");
    assert!(plan.with_target && plan.with_level && plan.with_ansi && plan.access_log);
}
