use retrotls::error::{AppError, RunError};
use retrotls::net::SocketAddr;
use retrotls::uri::UriError;

#[test]
fn every_error_has_its_status_and_its_words() {
    let cases: Vec<(AppError, u16, bool, &str)> = vec![
        (AppError::config_load("a.yaml", "gone"), 500, false, "Failed to load config from a.yaml: gone"),
        (AppError::config_validation("bad"), 500, true, "Configuration validation error: bad"),
        (
            AppError::upstream_connection("https://a", "refused"),
            502,
            false,
            "Failed to connect to upstream https://a: refused",
        ),
        (AppError::upstream_timeout("https://a"), 504, false, "Upstream timeout: https://a"),
        (AppError::invalid_request("no"), 400, true, "Invalid request: no"),
        (AppError::IoError("disk".to_string()), 500, false, "IO error: disk"),
        (AppError::YamlError("tab".to_string()), 500, false, "YAML parsing error: tab"),
        (
            AppError::from(UriError { message: "empty string".to_string() }),
            500,
            false,
            "HTTP error: empty string",
        ),
        (AppError::tls("alert"), 502, false, "TLS error: alert"),
        (AppError::internal("oops"), 500, false, "Internal error: oops"),
    ];
    for (error, status, user, words) in cases {
        assert_eq!(error.to_status_code(), status);
        assert_eq!(error.is_user_error(), user);
        assert_eq!(error.message(), words);
    }
}

#[test]
fn every_failure_of_a_run_has_its_words() {
    let text = |s: &str| s.to_string();
    let cases: Vec<(RunError, &str)> = vec![
        (RunError::ConfigNotFound { path: text("c") }, "Configuration file not found: c"),
        (
            RunError::ConfigRead { path: text("c"), source: text("denied") },
            "Failed to read configuration file c: denied",
        ),
        (
            RunError::ConfigParse { path: text("c"), source: text("tab") },
            "Failed to parse configuration file c: tab",
        ),
        (RunError::ConfigValidation(text("bad")), "Configuration error: bad"),
        (
            RunError::BindFailed { addr: SocketAddr::v4("127.0.0.1", 80), source: text("in use") },
            "Failed to bind listener on 127.0.0.1:80: in use",
        ),
        (RunError::ListenerTask(text("panicked")), "Listener task failed: panicked"),
        (RunError::AlreadyRunning(4242), "Daemon already running (PID: 4242)"),
        (RunError::NotRunning, "Daemon not running"),
        (RunError::Io(text("disk")), "IO error: disk"),
    ];
    for (error, words) in cases {
        assert_eq!(error.message(), words);
    }
}
