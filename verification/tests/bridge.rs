use http::header::{HeaderName, HeaderValue};
use http::HeaderMap;
use retrotls::bridge::{
    after_phase, build_target_uri, parse_upstream, read_upstream, simple_response, uri_or_invalid,
    Bridge, Config, ConfigDocument, ListenerConfig, Next, Phase, Upstream,
};
use retrotls::net::SocketAddr;
use retrotls::proxy::Answer;
use retrotls::uri::Uri;

fn h(name: &'static str) -> HeaderName {
    HeaderName::from_static(name)
}

fn v(value: &'static str) -> HeaderValue {
    HeaderValue::from_static(value)
}

fn upstream(raw: &str) -> Upstream {
    parse_upstream(raw).expect("an upstream")
}

fn listener(upstream: &str) -> ListenerConfig {
    ListenerConfig { listen: SocketAddr::v4("127.0.0.1", 8080), upstream: upstream.to_string() }
}

fn config(listeners: Vec<ListenerConfig>) -> Config {
    Config::from_document(ConfigDocument { access_log: None, shutdown_timeout_secs: None, listeners })
}

fn client() -> SocketAddr {
    SocketAddr::v4("192.0.2.7", 50_000)
}

fn local() -> SocketAddr {
    SocketAddr::v4("127.0.0.1", 8080)
}

#[test]
fn the_parts_of_an_upstream() {
    let plain = upstream("https://api.example.com");
    assert_eq!(plain.base.to_string(), "https://api.example.com/");
    assert_eq!((plain.authority.as_str(), plain.host.as_str(), plain.port), ("api.example.com", "api.example.com", 443));
    let full = upstream("https://user@api.example.com:8443/base?x=1");
    assert_eq!(full.authority, "user@api.example.com:8443");
    assert_eq!(full.host, "api.example.com");
    assert_eq!(full.port, 8443);
    assert_eq!(full.base.path, "/base");
    let v6 = upstream("https://a:b@[::1]:8443");
    assert_eq!((v6.host.as_str(), v6.port), ("[::1]", 8443));
    let v6 = upstream("https://[2001:db8::1]/x");
    assert_eq!((v6.authority.as_str(), v6.host.as_str(), v6.port), ("[2001:db8::1]", "[2001:db8::1]", 443));
    let plus = upstream("https://host:+80");
    assert_eq!((plus.host.as_str(), plus.port), ("host", 80));
    let large = upstream("https://host:65536");
    assert_eq!((large.host.as_str(), large.port), ("host", 443));
    assert_eq!(plus.clone().authority, "host:+80");
}

#[test]
fn what_is_no_upstream() {
    let refusal = |raw: &str| parse_upstream(raw).expect_err("no upstream").message();
    assert_eq!(refusal("not a uri"), "Configuration error: invalid upstream URI: not a uri");
    assert_eq!(refusal("http://a"), "Configuration error: upstream must use https scheme: http://a");
    assert_eq!(refusal("/path"), "Configuration error: upstream must use https scheme: /path");
    assert_eq!(
        refusal("HTTPS://host"),
        "Configuration error: upstream must start with https://: HTTPS://host"
    );
    assert_eq!(
        refusal("Https://host/base"),
        "Configuration error: upstream must start with https://: Https://host/base"
    );
    assert!(parse_upstream("   ").is_err());
    assert!(parse_upstream("https://").is_err());
    let without_authority = Uri {
        scheme: Some("https".to_string()),
        authority: None,
        path: "/".to_string(),
        query: None,
    };
    assert_eq!(
        read_upstream("https:/x", Ok(without_authority)).expect_err("no upstream").message(),
        "Configuration error: upstream missing authority: https:/x"
    );
}

#[test]
fn where_a_request_goes() {
    let goes = |raw: &str, asked: Option<&str>| build_target_uri(&upstream(raw), asked).to_string();
    assert_eq!(goes("https://api.example.com", Some("/users?id=1")), "https://api.example.com/users?id=1");
    assert_eq!(goes("https://api.com/base", Some("/v1/test")), "https://api.com/base/v1/test");
    assert_eq!(goes("https://api.com/base", Some("/")), "https://api.com/base/");
    assert_eq!(goes("https://api.com/base/", Some("/v1?x")), "https://api.com/base/v1?x");
    assert_eq!(goes("https://api.com", None), "https://api.com/");
    assert_eq!(goes("https://api.com", Some("//a//b")), "https://api.com//a//b");
    assert_eq!(goes("https://api.com", Some("/a b")), "https://invalid.local/");
    assert_eq!(uri_or_invalid(Err("no".to_string())).to_string(), "https://invalid.local/");
}

#[test]
fn replies_of_the_bridge() {
    let body = |status: u16| String::from_utf8(simple_response(status, "words").body).unwrap();
    assert_eq!(body(502), "Bad Gateway");
    assert_eq!(body(503), "Service Unavailable");
    assert_eq!(body(405), "Method Not Allowed");
    assert_eq!(body(400), "words");
    assert_eq!(simple_response(400, "words").status, 400);
}

#[test]
fn what_a_document_leaves_out() {
    let given = config(vec![listener("https://a")]);
    assert!(given.access_log);
    assert_eq!(given.shutdown_timeout_secs, None);
    let quiet = Config::from_document(ConfigDocument {
        access_log: Some(false),
        shutdown_timeout_secs: Some(5),
        listeners: vec![],
    });
    assert!(!quiet.access_log);
    assert_eq!(quiet.shutdown_timeout_secs, Some(5));
}

#[test]
fn what_makes_a_configuration_unacceptable() {
    let refusal = |listeners: Vec<ListenerConfig>| config(listeners).validate().expect_err("a fault").message();
    assert_eq!(refusal(vec![]), "Configuration error: at least one listener is required");
    assert_eq!(
        refusal(vec![listener("https://a"), listener(" \t\u{a0}")]),
        "Configuration error: listeners[1].upstream cannot be empty"
    );
    assert_eq!(
        refusal(vec![listener("https://a"), listener("http://b"), listener("")]),
        "Configuration error: upstream must use https scheme: http://b"
    );
    assert!(config(vec![listener("https://a"), listener("https://a")]).validate().is_ok());
}

#[test]
fn the_listeners_of_a_configuration() {
    let plans = config(vec![listener("https://a:1"), listener("https://b/x")]).listener_plans().unwrap();
    assert_eq!(plans.len(), 2);
    assert_eq!(plans[0].upstream.port, 1);
    assert_eq!(plans[1].upstream.host, "b");
    assert_eq!(plans[1].listen.to_string(), "127.0.0.1:8080");
    assert!(config(vec![]).listener_plans().is_err());
}

#[test]
fn the_phases_of_forwarding() {
    let bridge = Bridge::new(true);
    let target = upstream("https://api.example.com");
    let mut phase = Phase::ReadBody;
    let mut seen = vec![phase];
    loop {
        match bridge.forward(&target, phase, Ok(())) {
            Next::Do(next) => {
                phase = next;
                seen.push(next);
            }
            Next::Complete => break,
            Next::Fail(reason) => panic!("{reason}"),
        }
    }
    assert_eq!(
        seen,
        vec![
            Phase::ReadBody,
            Phase::Connect,
            Phase::StartTls,
            Phase::Handshake,
            Phase::Send,
            Phase::ReadResponse,
        ]
    );
}

#[test]
fn a_phase_that_fails_ends_the_forwarding() {
    let failed = |phase: Phase| match after_phase(phase, Err("refused".to_string()), true) {
        Next::Fail(reason) => reason,
        _ => panic!("it goes on"),
    };
    assert_eq!(failed(Phase::ReadBody), "refused");
    assert_eq!(failed(Phase::Connect), "refused");
    assert_eq!(failed(Phase::StartTls), "tls connect failed: refused");
    assert_eq!(failed(Phase::Send), "refused");
}

#[test]
fn tls_needs_the_name_of_a_server() {
    let bridge = Bridge::new(false);
    let after_connect = |raw: &str| match bridge.forward(&upstream(raw), Phase::Connect, Ok(())) {
        Next::Fail(reason) => reason,
        Next::Do(phase) => format!("{phase:?}"),
        Next::Complete => "complete".to_string(),
    };
    assert_eq!(after_connect("https://api.example.com"), "StartTls");
    assert_eq!(after_connect("https://192.0.2.1"), "StartTls");
    assert_eq!(after_connect("https://a..b"), "invalid dns name");
    assert_eq!(after_connect("https://[::1]"), "invalid dns name");
}

#[test]
fn the_request_that_is_sent() {
    let mut headers = HeaderMap::new();
    headers.insert(h("host"), v("localhost:8080"));
    headers.insert(h("connection"), v("keep-alive"));
    headers.insert(h("x-forwarded-for"), v("203.0.113.10"));
    headers.insert(h("accept"), v("*/*"));
    let out = Bridge::new(true)
        .outbound(&upstream("https://api.com:8443/base"), Some("/v1"), &headers, &client(), &local())
        .expect("a request");
    assert_eq!(out.uri.to_string(), "https://api.com:8443/base/v1");
    assert_eq!(out.headers.len(), 5);
    assert_eq!(out.headers.get("host").unwrap(), "api.com:8443");
    assert_eq!(out.headers.get("accept").unwrap(), "*/*");
    assert_eq!(out.headers.get("x-forwarded-for").unwrap(), "203.0.113.10, 192.0.2.7");
    assert_eq!(out.headers.get("x-forwarded-host").unwrap(), "localhost:8080");
    assert_eq!(out.headers.get("x-forwarded-proto").unwrap(), "http");
}

#[test]
fn an_authority_that_is_no_value_is_refused() {
    let mut target = upstream("https://api.com");
    target.authority = "a\nb".to_string();
    let refused = Bridge::new(true).outbound(&target, None, &HeaderMap::new(), &client(), &local());
    assert_eq!(refused.expect_err("no request"), "failed to parse header value");
}

#[test]
fn a_response_goes_back() {
    let mut headers = HeaderMap::new();
    headers.insert(h("transfer-encoding"), v("chunked"));
    headers.insert(h("content-type"), v("text/plain"));
    let handled = Bridge::new(true).handle(Ok((201, headers)), &client(), &local(), "POST", Some("/post"), 7);
    assert!(handled.error_line.is_none());
    assert_eq!(
        handled.access_line.expect("a line"),
        "192.0.2.7:50000 -> 127.0.0.1:8080 POST /post 201 7ms"
    );
    match handled.answer {
        Answer::Upstream { status, headers } => {
            assert_eq!(status, 201);
            assert_eq!(headers.len(), 1);
            assert_eq!(headers.get("content-type").unwrap(), "text/plain");
        }
        Answer::Own(reply) => panic!("{}", reply.status),
    }
}

#[test]
fn a_failure_is_a_bad_gateway() {
    let handled = Bridge::new(true).handle(Err("refused".to_string()), &client(), &local(), "GET", None, 3);
    assert_eq!(handled.error_line.expect("a line"), "proxy request failed: refused");
    assert_eq!(
        handled.access_line.expect("a line"),
        "192.0.2.7:50000 -> 127.0.0.1:8080 GET / 502 3ms"
    );
    match handled.answer {
        Answer::Own(reply) => assert_eq!((reply.status, reply.body), (502, b"Bad Gateway".to_vec())),
        Answer::Upstream { status, .. } => panic!("{status}"),
    }
    let quiet = Bridge::new(false).handle(Err("refused".to_string()), &client(), &local(), "GET", None, 3);
    assert!(quiet.access_line.is_none());
}
