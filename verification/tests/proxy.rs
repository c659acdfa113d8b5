use http::header::{HeaderName, HeaderValue};
use http::HeaderMap;
use retrotls::config::TlsMinVersion;
use retrotls::net::SocketAddr;
use retrotls::proxy::{
    append_csv_header_value, apply_forwarding_headers, build_tls_config, connection_header_tokens,
    copy_request_headers, copy_response_headers, error_response, is_hop_by_hop,
    map_upstream_client_error, Answer, Outcome, Proxy, ProxyConfig, RequestHead, Step, TlsVersion,
};

fn h(name: &'static str) -> HeaderName {
    HeaderName::from_static(name)
}

fn v(value: &'static str) -> HeaderValue {
    HeaderValue::from_static(value)
}

fn config() -> ProxyConfig {
    ProxyConfig {
        connect_timeout_ms: 5_000,
        request_timeout_ms: 30_000,
        pool_idle_timeout_ms: 60_000,
        pool_max_idle_per_host: 8,
        min_tls_version: TlsMinVersion::V1_2,
        insecure_disable_certificate_verification: false,
    }
}

fn client() -> SocketAddr {
    SocketAddr::v4("192.0.2.7", 50_000)
}

fn bind() -> SocketAddr {
    SocketAddr::v4("127.0.0.1", 8080)
}

fn head(path: &str, query: Option<&str>, headers: HeaderMap) -> RequestHead {
    RequestHead { path: path.to_string(), query: query.map(|q| q.to_string()), headers }
}

fn proxy() -> Proxy {
    Proxy::new(config()).expect("a proxy")
}

#[test]
fn connection_names_in_any_case() {
    for name in [
        "connection",
        "Keep-Alive",
        "PROXY-AUTHENTICATE",
        "proxy-authorization",
        "TE",
        "trailer",
        "Transfer-Encoding",
        "upgrade",
    ] {
        assert!(is_hop_by_hop(name));
    }
    assert!(!is_hop_by_hop("proxy-connection"));
    assert!(!is_hop_by_hop("host"));
}

#[test]
fn the_names_in_a_connection_header() {
    let tokens = |bytes: &[u8]| connection_header_tokens(Some(&bytes.to_vec()));
    assert!(connection_header_tokens(None).is_empty());
    assert_eq!(tokens(b"close, X-Secret ,,\tUpgrade,"), vec!["close", "x-secret", "upgrade"]);
    assert_eq!(tokens(b"keep-alive"), vec!["keep-alive"]);
    assert!(tokens(b"").is_empty());
    assert!(tokens(b" , ").is_empty());
    assert!(tokens(b"close\xff").is_empty());
}

#[test]
fn a_list_grows_at_its_end() {
    let appended = |existing: &[u8], value: &str| append_csv_header_value(Some(&existing.to_vec()), value);
    assert_eq!(append_csv_header_value(None, "10.0.0.1"), b"10.0.0.1");
    assert_eq!(appended(b"203.0.113.10", "10.0.0.1"), b"203.0.113.10, 10.0.0.1");
    assert_eq!(appended(b"", "10.0.0.1"), b"10.0.0.1");
    assert_eq!(appended(b"\xff", "10.0.0.1"), b"10.0.0.1");
    assert_eq!(append_csv_header_value(None, "a\nb"), b"unknown");
}

#[test]
fn request_headers_are_copied() {
    let mut src = HeaderMap::new();
    src.insert(h("connection"), v("close"));
    src.insert(h("te"), v("trailers"));
    src.append(h("accept"), v("a"));
    src.append(h("accept"), v("b"));
    src.insert(h("host"), v("old.example"));

    let mut dst = HeaderMap::new();
    copy_request_headers(&mut dst, &src, "https://api.example.com:8443/base").unwrap();
    assert!(!dst.contains_key("connection"));
    assert!(!dst.contains_key("te"));
    let accepted: Vec<&HeaderValue> = dst.get_all("accept").iter().collect();
    assert_eq!(accepted, vec!["a", "b"]);
    assert_eq!(dst.get("host").unwrap(), "api.example.com:8443");

    let mut dst = HeaderMap::new();
    copy_request_headers(&mut dst, &src, "/only/a/path").unwrap();
    assert_eq!(dst.get("host").unwrap(), "/only/a/path");

    let mut dst = HeaderMap::new();
    copy_request_headers(&mut dst, &src, "no uri at all").unwrap();
    assert_eq!(dst.get("host").unwrap(), "no uri at all");
}

#[test]
fn forwarding_headers_are_set() {
    let mut src = HeaderMap::new();
    let mut dst = HeaderMap::new();
    apply_forwarding_headers(&mut dst, &src, &client(), &bind()).unwrap();
    assert_eq!(dst.get("x-forwarded-for").unwrap(), "192.0.2.7");
    assert_eq!(dst.get("x-forwarded-proto").unwrap(), "http");
    assert_eq!(dst.get("x-forwarded-host").unwrap(), "127.0.0.1:8080");

    src.insert(h("x-forwarded-for"), v("203.0.113.10"));
    src.insert(h("host"), v("legacy.example"));
    apply_forwarding_headers(&mut dst, &src, &client(), &bind()).unwrap();
    assert_eq!(dst.get("x-forwarded-for").unwrap(), "203.0.113.10, 192.0.2.7");
    assert_eq!(dst.get("x-forwarded-host").unwrap(), "legacy.example");
    assert_eq!(dst.len(), 3);
}

#[test]
fn response_headers_are_copied() {
    let mut src = HeaderMap::new();
    src.insert(h("connection"), v("close, X-Hop"));
    src.insert(h("x-hop"), v("1"));
    src.insert(h("keep-alive"), v("timeout=5"));
    src.insert(h("content-length"), v("42"));
    let mut dst = HeaderMap::new();
    copy_response_headers(&mut dst, &src);
    assert_eq!(dst.len(), 1);
    assert_eq!(dst.get("content-length").unwrap(), "42");
}

#[test]
fn replies_of_the_proxy() {
    let reply = error_response(418, "teapot");
    assert_eq!((reply.status, reply.body), (418, b"teapot".to_vec()));
    let reply = map_upstream_client_error(true);
    assert_eq!((reply.status, reply.body), (504, b"gateway timeout".to_vec()));
    let reply = map_upstream_client_error(false);
    assert_eq!((reply.status, reply.body), (502, b"bad gateway".to_vec()));
}

#[test]
fn tls_versions_of_a_configuration() {
    let plan = build_tls_config(&config()).unwrap();
    assert_eq!(plan.versions, vec![TlsVersion::Tls12, TlsVersion::Tls13]);
    assert!(plan.verify_certificates);
    let mut strict = config();
    strict.min_tls_version = TlsMinVersion::V1_3;
    strict.insecure_disable_certificate_verification = true;
    let proxy = Proxy::new(strict).unwrap();
    assert_eq!(proxy.tls_config.versions, vec![TlsVersion::Tls13]);
    assert!(!proxy.tls_config.verify_certificates);
    assert_eq!(proxy.client.connect_timeout_ms, 5_000);
    assert_eq!(proxy.client.pool_idle_timeout_ms, 60_000);
    assert_eq!(proxy.client.pool_max_idle_per_host, 8);
    assert!(proxy.client.nodelay && !proxy.client.enforce_http);
}

#[test]
fn a_request_goes_to_the_upstream() {
    let mut headers = HeaderMap::new();
    headers.insert(h("host"), v("localhost:8080"));
    headers.insert(h("upgrade"), v("h2c"));
    headers.insert(h("accept"), v("*/*"));
    let request = head("/v1/test", Some("id=1"), headers);
    match proxy().handle_request(&request, &client(), &bind(), "https://api.com/base").unwrap() {
        Step::Send(out) => {
            assert_eq!(out.uri.to_string(), "https://api.com/base/v1/test?id=1");
            assert_eq!(out.timeout_ms, 30_000);
            assert_eq!(out.headers.len(), 5);
            assert_eq!(out.headers.get("host").unwrap(), "api.com");
            assert_eq!(out.headers.get("accept").unwrap(), "*/*");
            assert_eq!(out.headers.get("x-forwarded-host").unwrap(), "localhost:8080");
            assert_eq!(out.headers.get("x-forwarded-for").unwrap(), "192.0.2.7");
            assert_eq!(out.headers.get("x-forwarded-proto").unwrap(), "http");
        }
        Step::Answer(reply) => panic!("answered with {}", reply.status),
    }
}

#[test]
fn a_request_that_makes_no_url_is_answered() {
    let request = head("/a b", None, HeaderMap::new());
    match proxy().handle_request(&request, &client(), &bind(), "https://api.com").unwrap() {
        Step::Answer(reply) => {
            assert_eq!((reply.status, reply.body), (400, b"bad request".to_vec()));
        }
        Step::Send(out) => panic!("sent to {}", out.uri.to_string()),
    }
}

#[test]
fn every_outcome_is_answered() {
    let own = |outcome: Outcome| match proxy().answer(&outcome) {
        Answer::Own(reply) => (reply.status, String::from_utf8(reply.body).unwrap()),
        Answer::Upstream { status, .. } => panic!("the upstream's {status}"),
    };
    assert_eq!(own(Outcome::RequestUnbuildable), (400, "bad request".to_string()));
    assert_eq!(own(Outcome::TimedOut), (504, "gateway timeout".to_string()));
    assert_eq!(own(Outcome::ClientFailed { timeout: true }), (504, "gateway timeout".to_string()));
    assert_eq!(own(Outcome::ClientFailed { timeout: false }), (502, "bad gateway".to_string()));
    assert_eq!(own(Outcome::ResponseUnbuildable), (502, "bad gateway".to_string()));

    let mut headers = HeaderMap::new();
    headers.insert(h("transfer-encoding"), v("chunked"));
    headers.insert(h("etag"), v("\"1\""));
    match proxy().answer(&Outcome::Answered { status: 404, headers }) {
        Answer::Upstream { status, headers } => {
            assert_eq!(status, 404);
            assert_eq!(headers.len(), 1);
            assert_eq!(headers.get("etag").unwrap(), "\"1\"");
        }
        Answer::Own(reply) => panic!("the proxy's {}", reply.status),
    }
}
