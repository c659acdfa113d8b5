use retrotls::config::{
    check_parsed_upstream, join_paths, validate_listeners, Config, ConfigDocument, ListenerConfig,
    LoggingConfig, LoggingSection, TimeoutConfig, TimeoutSection, TlsConfig, TlsSection,
};
use retrotls::error::AppError;
use retrotls::net::SocketAddr;
use retrotls::uri::Uri;

fn address(text: &str) -> SocketAddr {
    let (ip, port) = text.rsplit_once(':').expect("an address with a port");
    SocketAddr::v4(ip, port.parse().expect("a port"))
}

fn document(yaml: &str) -> ConfigDocument {
    let value: serde_yaml::Value = serde_yaml::from_str(yaml).expect("yaml");
    let listeners = value["listeners"]
        .as_sequence()
        .expect("listeners")
        .iter()
        .map(|listener| ListenerConfig {
            bind: address(listener["bind"].as_str().expect("bind")),
            upstream: listener["upstream"].as_str().expect("upstream").to_string(),
        })
        .collect();
    ConfigDocument { listeners, tls: None, timeouts: None, logging: None }
}

fn listener(bind: &str, upstream: &str) -> ListenerConfig {
    ListenerConfig { bind: address(bind), upstream: upstream.to_string() }
}

fn refusal(listeners: Vec<ListenerConfig>) -> String {
    validate_listeners(&listeners).expect_err("unacceptable listeners").message()
}

#[test]
fn join_paths_trims_duplicate_slashes() {
    let joined = join_paths("https://api.com/base", "/v1/test");
    assert_eq!(joined, "https://api.com/base/v1/test");
}

#[test]
fn join_paths_adds_missing_separator() {
    let joined = join_paths("https://api.com/base", "v1/test");
    assert_eq!(joined, "https://api.com/base/v1/test");
}

#[test]
fn join_paths_keeps_existing_separator() {
    let joined = join_paths("https://api.com/base/", "/v1/test");
    assert_eq!(joined, "https://api.com/base/v1/test");
}

#[test]
fn join_paths_of_empty_parts() {
    assert_eq!(join_paths("", "v1"), "v1");
    assert_eq!(join_paths("https://api.com", ""), "https://api.com");
    assert_eq!(join_paths("", ""), "");
    assert_eq!(join_paths("base///", "/v1"), "base/v1");
    assert_eq!(join_paths("base/", "v1"), "base/v1");
}

#[test]
fn load_applies_defaults_and_accepts_valid_config() {
    let yaml = r#"
listeners:
  - bind: "127.0.0.1:8080"
    upstream: "https://api.example.com/base"
"#;

    let config = Config::load("config.yaml", Ok(document(yaml))).expect("valid config should load");
    assert_eq!(config.listeners.len(), 1);
    assert_eq!(config.tls.min_version, "1.2");
    assert!(!config.tls.insecure_skip_verify);
    assert_eq!(config.timeouts.connect_ms, 5_000);
    assert_eq!(config.timeouts.request_ms, 30_000);
    assert_eq!(config.timeouts.idle_ms, 60_000);
    assert_eq!(config.logging.level, "info");
    assert!(config.logging.access_log);
    assert!(config.warning().is_none());
}

#[test]
fn load_rejects_duplicate_listener_bind_addresses() {
    let yaml = r#"
listeners:
  - bind: "127.0.0.1:8080"
    upstream: "https://api.example.com"
  - bind: "127.0.0.1:8080"
    upstream: "https://api2.example.com"
"#;

    let result = Config::load("config.yaml", Ok(document(yaml)));
    assert!(result.is_err());
    assert_eq!(
        result.unwrap_err().message(),
        "Configuration validation error: duplicate listener bind address: 127.0.0.1:8080"
    );
}

#[test]
fn load_rejects_non_https_upstream() {
    let yaml = r#"
listeners:
  - bind: "127.0.0.1:8080"
    upstream: "http://api.example.com"
"#;

    let result = Config::load("config.yaml", Ok(document(yaml)));
    assert!(result.is_err());
    assert_eq!(
        result.unwrap_err().message(),
        "Configuration validation error: listener upstream must start with https://: http://api.example.com"
    );
}

#[test]
fn load_rejects_invalid_upstream_url() {
    let yaml = r#"
listeners:
  - bind: "127.0.0.1:8080"
    upstream: "https://not a url"
"#;

    let result = Config::load("config.yaml", Ok(document(yaml)));
    assert!(result.is_err());
    assert!(result
        .unwrap_err()
        .message()
        .starts_with("Configuration validation error: invalid upstream URL 'https://not a url': "));
}

#[test]
fn load_tells_why_a_document_could_not_be_read() {
    let result = Config::load("/etc/retrotls.yaml", Err("no such file".to_string()));
    let error = result.expect_err("an unreadable document");
    assert!(matches!(error, AppError::ConfigLoadError { .. }));
    assert_eq!(error.message(), "Failed to load config from /etc/retrotls.yaml: no such file");
}

#[test]
fn load_keeps_what_the_document_says() {
    let mut given = document("listeners:\n  - bind: \"127.0.0.1:1\"\n    upstream: \"https://a\"\n");
    given.tls = Some(TlsSection {
        min_version: Some("1.3".to_string()),
        insecure_skip_verify: Some(true),
    });
    given.timeouts = Some(TimeoutSection {
        connect_ms: Some(1),
        request_ms: None,
        idle_ms: Some(3),
    });
    given.logging = Some(LoggingSection { level: None, access_log: Some(false) });
    let config = Config::load("c", Ok(given)).expect("valid config");
    assert_eq!(config.tls.min_version, "1.3");
    assert!(config.tls.insecure_skip_verify);
    assert_eq!(config.timeouts.connect_ms, 1);
    assert_eq!(config.timeouts.request_ms, 30_000);
    assert_eq!(config.timeouts.idle_ms, 3);
    assert_eq!(config.logging.level, "info");
    assert!(!config.logging.access_log);
    assert_eq!(
        config.warning().expect("a warning"),
        "warning: tls.insecure_skip_verify=true disables upstream certificate verification"
    );
}

#[test]
fn defaults_of_the_sections() {
    assert_eq!(TlsConfig::default().min_version, "1.2");
    assert_eq!(TimeoutConfig::default().idle_ms, 60_000);
    assert_eq!(LoggingConfig::default().level, "info");
}

#[test]
fn listeners_with_different_addresses_are_accepted() {
    assert!(validate_listeners(&vec![]).is_ok());
    assert!(validate_listeners(&vec![
        listener("127.0.0.1:8080", "https://a.example"),
        listener("127.0.0.1:8081", "https://a.example"),
        listener("127.0.0.2:8080", "https://a.example/base"),
    ])
    .is_ok());
}

#[test]
fn the_first_fault_is_told() {
    assert_eq!(
        refusal(vec![
            listener("127.0.0.1:8080", "ftp://a.example"),
            listener("127.0.0.1:8080", "https://a.example"),
        ]),
        "Configuration validation error: listener upstream must start with https://: ftp://a.example"
    );
    assert_eq!(
        refusal(vec![
            listener("127.0.0.1:8080", "https://a.example"),
            listener("127.0.0.1:8080", "ftp://a.example"),
        ]),
        "Configuration validation error: duplicate listener bind address: 127.0.0.1:8080"
    );
}

#[test]
fn a_parsed_upstream_needs_an_authority_and_https() {
    let uri = |scheme: Option<&str>| Uri {
        scheme: scheme.map(|s| s.to_string()),
        authority: None,
        path: "/".to_string(),
        query: None,
    };
    assert_eq!(
        check_parsed_upstream("https://x", &Ok(uri(Some("https")))).expect("a fault"),
        "invalid upstream URL 'https://x': missing authority"
    );
    assert_eq!(
        check_parsed_upstream("https://x", &Err("bad".to_string())).expect("a fault"),
        "invalid upstream URL 'https://x': bad"
    );
    let mut with_authority = uri(Some("http"));
    with_authority.authority = Some(retrotls::uri::Authority {
        text: "x".to_string(),
        host: "x".to_string(),
        port: None,
    });
    assert_eq!(
        check_parsed_upstream("https://x", &Ok(with_authority)).expect("a fault"),
        "listener upstream must use https scheme: https://x"
    );
}

#[test]
fn ipv6_addresses_as_text() {
    assert_eq!(SocketAddr::v6("::1", 80, 0, 0).to_string(), "[::1]:80");
    assert_eq!(SocketAddr::v6("fe80::1", 8080, 0, 12).to_string(), "[fe80::1%12]:8080");
    assert!(!SocketAddr::v6("::1", 80, 0, 0).same(&SocketAddr::v6("::1", 80, 1, 0)));
    assert!(SocketAddr::v4("10.0.0.1", 80).same(&SocketAddr::v4("10.0.0.1", 80)));
}
