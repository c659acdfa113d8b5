use http::header::{HeaderName, HeaderValue, HOST};
use http::HeaderMap;
use retrotls::forwarding::{
    build_upstream_url, filter_hop_by_hop_headers, forward_request_headers,
    forward_response_headers, hop_by_hop_headers, is_hop_by_hop_header, join_paths,
    set_host_header, split_path_and_query,
};
use retrotls::headers::can_merge;

fn h(name: &'static str) -> HeaderName {
    HeaderName::from_static(name)
}

fn v(value: &'static str) -> HeaderValue {
    HeaderValue::from_static(value)
}

#[test]
fn detects_hop_by_hop_headers_case_insensitively() {
    assert!(is_hop_by_hop_header("connection"));
    assert!(is_hop_by_hop_header("Connection"));
    assert!(is_hop_by_hop_header("TRANSFER-ENCODING"));
    assert!(!is_hop_by_hop_header("content-type"));
}

#[test]
fn filters_hop_by_hop_headers() {
    let mut headers = HeaderMap::new();
    headers.insert(h("connection"), v("keep-alive"));
    headers.insert(h("transfer-encoding"), v("chunked"));
    headers.insert(h("content-type"), v("application/json"));

    filter_hop_by_hop_headers(&mut headers);

    assert!(!headers.contains_key("connection"));
    assert!(!headers.contains_key("transfer-encoding"));
    assert_eq!(headers.get("content-type").unwrap(), "application/json");
}

#[test]
fn sets_and_updates_host_header() {
    let mut headers = HeaderMap::new();
    set_host_header(&mut headers, "example.com");
    assert_eq!(headers.get(HOST).unwrap(), "example.com");

    set_host_header(&mut headers, "upstream.internal:8443");
    assert_eq!(headers.get(HOST).unwrap(), "upstream.internal:8443");
}

#[test]
fn forward_request_headers_copies_non_hop_by_hop_and_sets_host_and_xff() {
    let mut src = HeaderMap::new();
    src.insert(h("content-type"), v("application/json"));
    src.insert(h("connection"), v("keep-alive"));

    let mut dst = HeaderMap::new();
    forward_request_headers(&src, &mut dst, "api.example.com");

    assert_eq!(dst.get("content-type").unwrap(), "application/json");
    assert!(!dst.contains_key("connection"));
    assert_eq!(dst.get(HOST).unwrap(), "api.example.com");
    assert_eq!(dst.get("x-forwarded-for").unwrap(), "unknown");
}

#[test]
fn forward_request_headers_preserves_existing_xff() {
    let mut src = HeaderMap::new();
    src.insert(h("x-forwarded-for"), v("203.0.113.10"));
    src.insert(h("accept"), v("*/*"));

    let mut dst = HeaderMap::new();
    forward_request_headers(&src, &mut dst, "api.example.com");

    assert_eq!(dst.get("x-forwarded-for").unwrap(), "203.0.113.10");
    assert_eq!(dst.get(HOST).unwrap(), "api.example.com");
    assert_eq!(dst.get("accept").unwrap(), "*/*");
}

#[test]
fn forward_response_headers_copies_only_non_hop_by_hop() {
    let mut src = HeaderMap::new();
    src.insert(h("content-length"), v("42"));
    src.insert(h("connection"), v("close"));
    src.insert(h("upgrade"), v("h2c"));

    let mut dst = HeaderMap::new();
    forward_response_headers(&src, &mut dst);

    assert_eq!(dst.get("content-length").unwrap(), "42");
    assert!(!dst.contains_key("connection"));
    assert!(!dst.contains_key("upgrade"));
}

#[test]
fn build_upstream_url_joins_with_single_slash() {
    let uri = build_upstream_url("https://example.com", "/v1/users?id=1").unwrap();
    assert_eq!(uri.to_string(), "https://example.com/v1/users?id=1");
}

#[test]
fn build_upstream_url_joins_when_base_has_path() {
    let uri = build_upstream_url("https://example.com/api", "v1/users").unwrap();
    assert_eq!(uri.to_string(), "https://example.com/api/v1/users");
}

#[test]
fn build_upstream_url_handles_double_slash_boundary() {
    let uri = build_upstream_url("https://example.com/api/", "/v1/users").unwrap();
    assert_eq!(uri.to_string(), "https://example.com/api/v1/users");
}

#[test]
fn build_upstream_url_preserves_base_path_for_query_only_input() {
    let uri = build_upstream_url("https://example.com/api", "?active=true").unwrap();
    assert_eq!(uri.to_string(), "https://example.com/api?active=true");
}

#[test]
fn build_upstream_url_returns_error_for_invalid_base() {
    assert!(build_upstream_url("not a uri", "/x").is_err());
}

#[test]
fn hop_by_hop_names_differ_from_others_by_more_than_case() {
    for name in hop_by_hop_headers() {
        assert!(is_hop_by_hop_header(&name.to_ascii_uppercase()));
        assert!(!is_hop_by_hop_header(&format!("{name}x")));
    }
    assert!(!is_hop_by_hop_header(""));
}

#[test]
fn filtering_twice_is_filtering_once() {
    let mut headers = HeaderMap::new();
    headers.insert(h("te"), v("trailers"));
    headers.append(h("set-cookie"), v("a=1"));
    headers.append(h("set-cookie"), v("b=2"));
    filter_hop_by_hop_headers(&mut headers);
    let once = headers.clone();
    filter_hop_by_hop_headers(&mut headers);
    assert_eq!(headers, once);
    assert_eq!(headers.len(), 2);
}

#[test]
fn values_of_one_name_pass_in_order() {
    let mut src = HeaderMap::new();
    src.append(h("set-cookie"), v("a=1"));
    src.append(h("set-cookie"), v("b=2"));
    let mut secret = v("s");
    secret.set_sensitive(true);
    src.insert(h("authorization"), secret);

    let mut dst = HeaderMap::new();
    dst.insert(h("set-cookie"), v("z=0"));
    assert!(can_merge(&dst, &src, 0));
    forward_response_headers(&src, &mut dst);

    let cookies: Vec<&HeaderValue> = dst.get_all("set-cookie").iter().collect();
    assert_eq!(cookies, vec!["z=0", "a=1", "b=2"]);
    assert!(dst.get("authorization").unwrap().is_sensitive());
}

#[test]
fn a_host_that_is_no_value_changes_nothing() {
    let mut headers = HeaderMap::new();
    set_host_header(&mut headers, "line\nbreak");
    assert!(headers.is_empty());
    set_host_header(&mut headers, "h\u{f6}st");
    assert_eq!(headers.get(HOST).unwrap().as_bytes(), "h\u{f6}st".as_bytes());
}

#[test]
fn too_many_names_do_not_merge() {
    let mut many = HeaderMap::new();
    for i in 0..6553 {
        let name = HeaderName::from_bytes(format!("x-{i}").as_bytes()).unwrap();
        many.insert(name, v("1"));
    }
    assert!(can_merge(&many, &HeaderMap::new(), 0));
    assert!(!can_merge(&many, &HeaderMap::new(), 1));
    assert!(!can_merge(&many, &many, 0));
}

#[test]
fn the_base_path_stands_before_the_path() {
    let url = |base: &str, path: &str| build_upstream_url(base, path).unwrap().to_string();
    assert_eq!(url("https://api.com/base", "/v1/test"), "https://api.com/base/v1/test");
    assert_eq!(url("https://api.com/base", "/"), "https://api.com/base/");
    assert_eq!(url("https://api.example.com", "/users?id=1"), "https://api.example.com/users?id=1");
    assert_eq!(url("https://api.com/base?old=1", "/v1?new=2"), "https://api.com/base/v1?new=2");
    assert_eq!(url("https://api.com", ""), "https://api.com/");
    assert_eq!(url("https://api.com/a//", "/b"), "https://api.com/a/b");
    assert_eq!(url("https://user@api.com:8443/a", "b?c?d"), "https://user@api.com:8443/a/b?c?d");
}

#[test]
fn a_target_that_makes_no_url_is_an_error() {
    let error = build_upstream_url("https://api.com", "/a b").expect_err("a space");
    assert_eq!(error.message, "invalid uri character");
    assert!(build_upstream_url("", "/x").is_err());
}

#[test]
fn plain_parts_always_make_a_url() {
    let host = "a".repeat(300);
    let path = "b-c.d_e/?f=g&h=i?".repeat(3_000);
    let url = build_upstream_url(&format!("https://{host}/base"), &path).unwrap();
    assert_eq!(url.to_string(), format!("https://{host}/base/{path}"));
    let longest = "x".repeat(65_533 - "https://a".len());
    assert!(build_upstream_url("https://a", &format!("/{longest}")).is_ok());
}

#[test]
fn other_schemes_join_as_well() {
    let url = build_upstream_url("http://api.com/base?old=1", "v1?a=b").unwrap();
    assert_eq!(url.scheme.as_deref(), Some("http"));
    assert_eq!((url.path.as_str(), url.query.as_deref()), ("/base/v1", Some("a=b")));
    let url = build_upstream_url("ws://api.com/base?old=1", "").unwrap();
    assert_eq!((url.path.as_str(), url.query.as_deref()), ("/base", None));
    assert!(build_upstream_url("api.com", "/x").is_err());
    assert!(build_upstream_url("api.com:8080", "").is_err());
    assert_eq!(build_upstream_url("/base", "x").unwrap().to_string(), "/base/x");
}

#[test]
fn copying_into_an_empty_map_is_filtering() {
    let mut src = HeaderMap::new();
    src.append(h("set-cookie"), v("a=1"));
    src.insert(h("te"), v("trailers"));
    src.append(h("set-cookie"), v("a=1"));
    src.insert(h("proxy-connection"), v("close"));
    let mut dst = HeaderMap::new();
    forward_response_headers(&src, &mut dst);
    filter_hop_by_hop_headers(&mut src);
    assert_eq!(dst, src);
    assert_eq!(dst.len(), 2);
}

#[test]
fn a_path_and_a_query_are_told_apart() {
    assert_eq!(split_path_and_query(""), ("".to_string(), None));
    assert_eq!(split_path_and_query("?q"), ("".to_string(), Some("q".to_string())));
    assert_eq!(split_path_and_query("/a?b?c"), ("/a".to_string(), Some("b?c".to_string())));
    assert_eq!(split_path_and_query("/a?"), ("/a".to_string(), Some("".to_string())));
    assert_eq!(split_path_and_query("/a"), ("/a".to_string(), None));
}

#[test]
fn paths_join_with_one_slash() {
    assert_eq!(join_paths("", "a"), "/a");
    assert_eq!(join_paths("/", "a"), "/a");
    assert_eq!(join_paths("/x", ""), "/x");
    assert_eq!(join_paths("", ""), "/");
    assert_eq!(join_paths("/x", "a"), "/x/a");
    assert_eq!(join_paths("/x/", "a"), "/x/a");
    assert_eq!(join_paths("/x", "/a"), "/x/a");
    assert_eq!(join_paths("/x/", "/a"), "/x/a");
}
