//! The pooled proxy: what a request becomes on its way to the upstream, and the answer to it on
//! its way back.

use vstd::prelude::*;
use vstd::string::*;
use vstd::utf8::*;

use crate::config::TlsMinVersion;
use crate::error::AppError;
use crate::forwarding;
use crate::headers;
use crate::headers::HeaderField;
use crate::net;
use crate::net::SocketAddr;
use crate::text;
use crate::uri;
use crate::uri::Uri;

verus! {

/// The headers that concern one connection only, in lower case.
pub open spec fn connection_names() -> Seq<Seq<char>> {
    seq![
        "connection"@,
        "keep-alive"@,
        "proxy-authenticate"@,
        "proxy-authorization"@,
        "te"@,
        "trailer"@,
        "transfer-encoding"@,
        "upgrade"@,
    ]
}

/// `name` is that of a header for one connection only, in upper or lower case.
pub open spec fn is_connection_name(name: Seq<char>) -> bool {
    connection_names().contains(text::lower(name))
}

/// Whether `name` is that of a header for one connection only, in upper or lower case.
pub fn is_hop_by_hop(name: &str) -> (r: bool)
    ensures
        r == is_connection_name(name@),
{
    let names: Vec<&'static str> = vec![
        "connection",
        "keep-alive",
        "proxy-authenticate",
        "proxy-authorization",
        "te",
        "trailer",
        "transfer-encoding",
        "upgrade",
    ];
    let lowered = text::to_lower(name);
    let mut i: usize = 0;
    assert(names@.map_values(|s: &'static str| s@) =~= connection_names());
    while i < names.len()
        invariant
            i <= names@.len(),
            lowered@ == text::lower(name@),
            names@.map_values(|s: &'static str| s@) == connection_names(),
            forall|j: int| 0 <= j < i ==> connection_names()[j] != lowered@,
        decreases names@.len() - i,
    {
        assert(connection_names()[i as int] == names@[i as int]@);
        if text::same_text(names[i], lowered.as_str()) {
            return true;
        }
        i += 1;
    }
    false
}

/// The names in a comma separated list: in lower case, without the white space around them, and
/// without empty ones.
pub open spec fn list_tokens(s: Seq<char>) -> Seq<Seq<char>> {
    text::comma_parts(s).map_values(|part: Seq<char>| text::lower(text::trimmed(part))).filter(
        |token: Seq<char>| token.len() > 0,
    )
}

/// What one part adds to the tokens.
pub open spec fn part_tokens(part: Seq<char>) -> Seq<Seq<char>> {
    if text::trimmed(part).len() > 0 {
        seq![text::lower(text::trimmed(part))]
    } else {
        Seq::empty()
    }
}

proof fn lemma_part_tokens(part: Seq<char>)
    ensures
        seq![part].map_values(|p: Seq<char>| text::lower(text::trimmed(p))).filter(
            |token: Seq<char>| token.len() > 0,
        ) == part_tokens(part),
{
    let mapped = seq![part].map_values(|p: Seq<char>| text::lower(text::trimmed(p)));
    assert(mapped.drop_last() =~= Seq::<Seq<char>>::empty());
    reveal_with_fuel(Seq::filter, 2);
    assert(mapped.filter(|token: Seq<char>| token.len() > 0) =~= part_tokens(part));
}

/// The tokens of a list are those of its first part and, behind them, those of the rest.
proof fn lemma_list_tokens_step(s: Seq<char>)
    ensures
        match text::after(s, ',') {
            Some(rest) => rest.len() < s.len() && list_tokens(s) == part_tokens(
                text::before(s, ','),
            ) + list_tokens(rest),
            None => list_tokens(s) == part_tokens(s),
        },
{
    text::lemma_before(s, ',');
    let f = |part: Seq<char>| text::lower(text::trimmed(part));
    let keep = |token: Seq<char>| token.len() > 0;
    match text::after(s, ',') {
        Some(rest) => {
            let first = seq![text::before(s, ',')];
            lemma_part_tokens(text::before(s, ','));
            assert((first + text::comma_parts(rest)).map_values(f) =~= first.map_values(f) + text::comma_parts(
                rest,
            ).map_values(f));
            Seq::filter_distributes_over_add(
                first.map_values(f),
                text::comma_parts(rest).map_values(f),
                keep,
            );
        },
        None => {
            lemma_part_tokens(s);
        },
    }
}

/// The tokens of a text.
fn tokens_of(list: &str) -> (r: Vec<String>)
    ensures
        text::texts(r@) == list_tokens(list@),
{
    let cs = text::chars_of(list);
    let mut r: Vec<String> = Vec::new();
    let mut start: usize = 0;
    let ghost mut rest = list@;
    assert(text::texts(r@) + list_tokens(rest) =~= list_tokens(list@));
    loop
        invariant
            start <= cs@.len(),
            cs@ == list@,
            rest == cs@.skip(start as int),
            text::texts(r@) + list_tokens(rest) == list_tokens(list@),
        decreases cs@.len() - start,
    {
        proof {
            text::lemma_before(rest, ',');
            lemma_list_tokens_step(rest);
        }
        let end = text::next_comma(&cs, start);
        let (from, to) = text::trim_bounds(&cs, start, end);
        let ghost part = cs@.subrange(start as int, end as int);
        assert(part =~= text::before(rest, ','));
        let ghost before = r@;
        if from < to {
            let token = text::to_lower(text::text_between(&cs, from, to).as_str());
            r.push(token);
            assert(text::texts(r@) =~= text::texts(before) + part_tokens(part));
        } else {
            assert(text::texts(r@) =~= text::texts(before) + part_tokens(part));
        }
        if end == cs.len() {
            assert(part =~= rest);
            return r;
        }
        start = end + 1;
        proof {
            let tail = cs@.skip(start as int);
            assert(text::after(rest, ',') == Some(tail)) by {
                assert(rest.skip(part.len() as int + 1) =~= tail);
            }
            assert(text::texts(before) + (part_tokens(part) + list_tokens(tail)) =~= text::texts(
                r@,
            ) + list_tokens(tail));
            rest = tail;
        }
    }
}

/// The names that a `Connection` value lists; one that cannot be read as text lists none.
pub open spec fn listed_names(value: Option<Seq<u8>>) -> Seq<Seq<char>> {
    match value {
        Some(bytes) => if headers::is_visible(bytes) {
            list_tokens(headers::ascii_text(bytes))
        } else {
            Seq::empty()
        },
        None => Seq::empty(),
    }
}

/// The bytes of a value, where there is one.
pub open spec fn opt_bytes(value: Option<&Vec<u8>>) -> Option<Seq<u8>> {
    match value {
        Some(bytes) => Some(bytes@),
        None => None,
    }
}

/// The names that a `Connection` value lists.
pub fn connection_header_tokens(header: Option<&Vec<u8>>) -> (r: Vec<String>)
    requires
        header matches Some(bytes) ==> headers::is_header_value(bytes@),
    ensures
        text::texts(r@) == listed_names(opt_bytes(header)),
{
    if let Some(bytes) = header {
        if let Some(list) = headers::text_of_value(bytes) {
            return tokens_of(list.as_str());
        }
    }
    let r: Vec<String> = Vec::new();
    assert(text::texts(r@) =~= Seq::empty());
    r
}

/// The text that a value carries; one that cannot be read as text carries none.
pub open spec fn readable(value: Option<Seq<u8>>) -> Seq<char> {
    match value {
        Some(bytes) => if headers::is_visible(bytes) {
            headers::ascii_text(bytes)
        } else {
            Seq::empty()
        },
        None => Seq::empty(),
    }
}

/// `item` at the end of the comma separated list that a value carries.
pub open spec fn listed_behind(existing: Option<Seq<u8>>, item: Seq<char>) -> Seq<char> {
    if readable(existing).len() > 0 {
        readable(existing) + ", "@ + item
    } else {
        item
    }
}

/// The bytes of `s`, or those of "unknown" if `s` cannot be the value of a header.
pub open spec fn value_or_unknown(s: Seq<char>) -> Seq<u8> {
    if headers::is_header_value(encode_utf8(s)) {
        encode_utf8(s)
    } else {
        encode_utf8("unknown"@)
    }
}

/// The value that a text makes, or "unknown" in its place.
fn text_or_unknown(s: &str) -> (r: Vec<u8>)
    ensures
        r@ == value_or_unknown(s@),
        headers::is_header_value(r@),
{
    match headers::value_from_text(s) {
        Some(bytes) => bytes,
        None => {
            proof {
                reveal_strlit("unknown");
                headers::lemma_visible_is_value("unknown"@);
            }
            text::bytes_of("unknown")
        },
    }
}

/// `value` at the end of the comma separated list that a header carries.
pub fn append_csv_header_value(existing: Option<&Vec<u8>>, value: &str) -> (r: Vec<u8>)
    requires
        existing matches Some(bytes) ==> headers::is_header_value(bytes@),
    ensures
        r@ == value_or_unknown(listed_behind(opt_bytes(existing), value@)),
        headers::is_header_value(r@),
{
    let mut out = String::new();
    if let Some(bytes) = existing {
        if let Some(list) = headers::text_of_value(bytes) {
            out = list;
        }
    }
    if !out.as_str().is_empty() {
        out.append(", ");
    }
    out.append(value);
    assert(out@ =~= listed_behind(opt_bytes(existing), value@));
    text_or_unknown(out.as_str())
}

/// The host that a request to `upstream` names: the authority of the URL, or all of it.
pub open spec fn upstream_host(
    upstream: Seq<char>,
    parsed: Result<uri::UriView, Seq<char>>,
) -> Seq<char> {
    match parsed {
        Ok(u) => match u.authority {
            Some(authority) => authority.text,
            None => upstream,
        },
        Err(_) => upstream,
    }
}

/// What was read has an authority.
pub open spec fn has_authority(parsed: Result<uri::UriView, Seq<char>>) -> bool {
    parsed is Ok && parsed->Ok_0.authority is Some
}

/// An authority that was read can be the value of a header.
pub proof fn lemma_authority_is_value(a: uri::AuthorityView)
    requires
        uri::is_read_authority(a),
    ensures
        headers::is_header_value(encode_utf8(a.text)),
{
    headers::lemma_visible_is_value(a.text);
}

/// The host that a request to `upstream` names, given what that was read as.
pub fn host_of(upstream: &str, parsed: &Result<Uri, String>) -> (r: String)
    ensures
        r@ == upstream_host(upstream@, uri::outcome(*parsed)),
{
    match parsed {
        Ok(u) => match &u.authority {
            Some(authority) => authority.text.clone(),
            None => upstream.to_owned(),
        },
        Err(_) => upstream.to_owned(),
    }
}

/// The headers of a request that go on to the upstream.
pub open spec fn passed_on(m: headers::Headers) -> headers::Headers {
    headers::without(m, |n: Seq<char>| is_connection_name(n))
}

/// Adds the headers of a request, but for those of the connection.
pub(crate) fn pass_request_headers(
    dst: &mut http::HeaderMap<http::HeaderValue>,
    src: &http::HeaderMap<http::HeaderValue>,
)
    requires
        headers::fit_together(headers::contents(*old(dst)), headers::contents(*src), 0),
    ensures
        headers::contents(*final(dst)) == headers::merged(
            headers::contents(*old(dst)),
            passed_on(headers::contents(*src)),
        ),
{
    let skip = |name: &str| -> (b: bool)
        ensures
            b == is_connection_name(name@),
    {
        is_hop_by_hop(name)
    };
    let kept = headers::kept_fields(
        headers::fields_of(src),
        skip,
        Ghost(|n: Seq<char>| is_connection_name(n)),
    );
    proof {
        headers::lemma_without_fits(
            headers::contents(*old(dst)),
            headers::contents(*src),
            |n: Seq<char>| is_connection_name(n),
            0,
        );
    }
    headers::append_all(dst, &kept);
}

/// The headers passed on fit where all the headers would.
pub proof fn lemma_passed_on_fits(a: headers::Headers, m: headers::Headers, extra: nat)
    requires
        headers::fit_together(a, m, extra),
    ensures
        headers::fits(headers::merged(a, passed_on(m)), extra),
{
    headers::lemma_without_fits(a, m, |n: Seq<char>| is_connection_name(n), extra);
    headers::lemma_merged_fits(a, passed_on(m), extra);
}

/// Adds the headers of a request, but for those of the connection, and makes the upstream the
/// host.
pub fn copy_request_headers(
    dst: &mut http::HeaderMap<http::HeaderValue>,
    src: &http::HeaderMap<http::HeaderValue>,
    upstream: &str,
) -> (r: Result<(), AppError>)
    requires
        headers::fit_together(headers::contents(*old(dst)), headers::contents(*src), 0),
    ensures
        r is Ok,
        headers::contents(*final(dst)) == forwarding::with_host(
            headers::merged(headers::contents(*old(dst)), passed_on(headers::contents(*src))),
            upstream_host(upstream@, uri::uri_parse(upstream@)),
        ),
        has_authority(uri::uri_parse(upstream@)) ==> headers::is_header_value(
            encode_utf8(upstream_host(upstream@, uri::uri_parse(upstream@))),
        ),
        has_authority(uri::uri_parse(upstream@)) ==> headers::values_of(
            headers::contents(*final(dst)),
            "host"@,
        ) == seq![
            (encode_utf8(upstream_host(upstream@, uri::uri_parse(upstream@))), false),
        ],
{
    proof {
        lemma_passed_on_fits(headers::contents(*old(dst)), headers::contents(*src), 0);
    }
    pass_request_headers(dst, src);
    let parsed = uri::parse_uri(upstream);
    proof {
        if has_authority(uri::outcome(parsed)) {
            lemma_authority_is_value(parsed->Ok_0@.authority->Some_0);
        }
    }
    let host = host_of(upstream, &parsed);
    forwarding::set_host_header(dst, host.as_str());
    Ok(())
}

/// The first value of a name, where there is one.
pub open spec fn first_value(m: headers::Headers, name: Seq<char>) -> Option<headers::Value> {
    if m.contains_key(name) {
        Some(m[name][0])
    } else {
        None
    }
}

/// The bytes of a value, where there is one.
pub open spec fn value_bytes(value: Option<headers::Value>) -> Option<Seq<u8>> {
    match value {
        Some(v) => Some(v.0),
        None => None,
    }
}

/// The host that the client asked for, or the address that it connected to.
pub open spec fn asked_host(src: headers::Headers, bind: net::SocketAddrView) -> headers::Value {
    match first_value(src, "host"@) {
        Some(v) => v,
        None => (value_or_unknown(bind.text()), false),
    }
}

/// The headers that tell the upstream where a request came from: the client at the end of the
/// list of those that it passed, the protocol, and the host that the client asked for.
pub open spec fn with_forwarding(
    m: headers::Headers,
    src: headers::Headers,
    client: net::SocketAddrView,
    bind: net::SocketAddrView,
) -> headers::Headers {
    let passed = value_bytes(first_value(src, "x-forwarded-for"@));
    m.insert(
        "x-forwarded-for"@,
        seq![(value_or_unknown(listed_behind(passed, client.ip)), false)],
    ).insert("x-forwarded-proto"@, seq![(encode_utf8("http"@), false)]).insert(
        "x-forwarded-host"@,
        seq![asked_host(src, bind)],
    )
}

/// Puts in the headers that tell the upstream where a request came from.
pub fn apply_forwarding_headers(
    dst: &mut http::HeaderMap<http::HeaderValue>,
    src: &http::HeaderMap<http::HeaderValue>,
    client_addr: &SocketAddr,
    bind_addr: &SocketAddr,
) -> (r: Result<(), AppError>)
    requires
        headers::fits(headers::contents(*old(dst)), 2),
    ensures
        r is Ok,
        headers::contents(*final(dst)) == with_forwarding(
            headers::contents(*old(dst)),
            headers::contents(*src),
            client_addr@,
            bind_addr@,
        ),
{
    proof {
        reveal_strlit("x-forwarded-for");
        reveal_strlit("x-forwarded-proto");
        reveal_strlit("x-forwarded-host");
        reveal_strlit("host");
        reveal_strlit("http");
        headers::lemma_visible_is_value("http"@);
    }
    let passed = headers::first_field(src, "x-forwarded-for");
    let forwarded_for = match &passed {
        Some(field) => append_csv_header_value(Some(&field.bytes), client_addr.ip.as_str()),
        None => append_csv_header_value(None, client_addr.ip.as_str()),
    };
    let (host, sensitive) = match headers::first_field(src, "host") {
        Some(field) => (field.bytes, field.sensitive),
        None => (text_or_unknown(bind_addr.to_string().as_str()), false),
    };
    headers::insert_field(
        dst,
        &HeaderField {
            name: "x-forwarded-for".to_owned(),
            bytes: forwarded_for,
            sensitive: false,
        },
    );
    headers::insert_field(
        dst,
        &HeaderField {
            name: "x-forwarded-proto".to_owned(),
            bytes: text::bytes_of("http"),
            sensitive: false,
        },
    );
    headers::insert_field(
        dst,
        &HeaderField { name: "x-forwarded-host".to_owned(), bytes: host, sensitive },
    );
    Ok(())
}

/// The names that the `Connection` header of a response lists.
pub open spec fn connection_listed(m: headers::Headers) -> Seq<Seq<char>> {
    listed_names(value_bytes(first_value(m, "connection"@)))
}

/// The headers of a response that go back to the client: those of the connection stay behind, and
/// so do those that the `Connection` header lists.
pub open spec fn passed_back(m: headers::Headers) -> headers::Headers {
    headers::without(
        m,
        |n: Seq<char>| is_connection_name(n) || connection_listed(m).contains(text::lower(n)),
    )
}

/// Adds the headers of a response, but for those of the connection and those that it lists.
pub fn copy_response_headers(
    dst: &mut http::HeaderMap<http::HeaderValue>,
    src: &http::HeaderMap<http::HeaderValue>,
)
    requires
        headers::fit_together(headers::contents(*old(dst)), headers::contents(*src), 0),
    ensures
        headers::contents(*final(dst)) == headers::merged(
            headers::contents(*old(dst)),
            passed_back(headers::contents(*src)),
        ),
{
    proof {
        reveal_strlit("connection");
    }
    let connection = headers::first_field(src, "connection");
    let tokens = match &connection {
        Some(field) => connection_header_tokens(Some(&field.bytes)),
        None => connection_header_tokens(None),
    };
    let skip = |name: &str| -> (b: bool)
        ensures
            b == (is_connection_name(name@) || text::texts(tokens@).contains(text::lower(name@))),
    {
        let lower = text::to_lower(name);
        is_hop_by_hop(name) || text::holds_text(&tokens, lower.as_str())
    };
    let ghost skipped = |n: Seq<char>|
        is_connection_name(n) || connection_listed(headers::contents(*src)).contains(text::lower(n));
    let kept = headers::kept_fields(headers::fields_of(src), skip, Ghost(skipped));
    proof {
        headers::lemma_without_fits(
            headers::contents(*old(dst)),
            headers::contents(*src),
            skipped,
            0,
        );
    }
    headers::append_all(dst, &kept);
}

/// An answer that the proxy gives itself.
#[derive(Debug)]
pub struct Reply {
    pub status: u16,
    pub body: Vec<u8>,
}

/// The reply has this status and this text.
pub open spec fn says(reply: Reply, status: u16, message: Seq<char>) -> bool {
    reply.status == status && reply.body@ == encode_utf8(message)
}

/// An answer with a status and a text.
pub fn error_response(status: u16, message: &str) -> (r: Reply)
    ensures
        says(r, status, message@),
{
    Reply { status, body: text::bytes_of(message) }
}

/// The answer to a request that the client could not send or that got no response.
pub fn map_upstream_client_error(timeout: bool) -> (r: Reply)
    ensures
        timeout ==> says(r, 504, "gateway timeout"@),
        !timeout ==> says(r, 502, "bad gateway"@),
{
    if timeout {
        return error_response(504, "gateway timeout");
    }
    error_response(502, "bad gateway")
}

/// A version of TLS.
#[derive(Debug, Clone, Copy, PartialEq, Eq, Structural)]
pub enum TlsVersion {
    Tls12,
    Tls13,
}

/// What the proxy is to keep to.
#[derive(Debug, Clone, Copy)]
pub struct ProxyConfig {
    pub connect_timeout_ms: u64,
    pub request_timeout_ms: u64,
    pub pool_idle_timeout_ms: u64,
    pub pool_max_idle_per_host: usize,
    pub min_tls_version: TlsMinVersion,
    pub insecure_disable_certificate_verification: bool,
}

/// How TLS is spoken with the upstreams: the versions offered, and whether the certificates are
/// verified against the platform's roots.
#[derive(Debug)]
pub struct TlsPlan {
    pub versions: Vec<TlsVersion>,
    pub verify_certificates: bool,
}

/// How the client that sends the requests is set up.
#[derive(Debug, Clone, Copy)]
pub struct ClientPlan {
    pub enforce_http: bool,
    pub nodelay: bool,
    pub http1: bool,
    pub http2: bool,
    pub connect_timeout_ms: u64,
    pub pool_idle_timeout_ms: u64,
    pub pool_max_idle_per_host: usize,
}

/// The versions that `min` allows.
pub open spec fn versions_from(min: TlsMinVersion) -> Seq<TlsVersion> {
    match min {
        TlsMinVersion::V1_2 => seq![TlsVersion::Tls12, TlsVersion::Tls13],
        TlsMinVersion::V1_3 => seq![TlsVersion::Tls13],
    }
}

/// How TLS is spoken under a configuration.
pub fn build_tls_config(config: &ProxyConfig) -> (r: Result<TlsPlan, AppError>)
    ensures
        r is Ok,
        r->Ok_0.versions@ == versions_from(config.min_tls_version),
        r->Ok_0.verify_certificates == !config.insecure_disable_certificate_verification,
{
    let versions: Vec<TlsVersion> = match config.min_tls_version {
        TlsMinVersion::V1_2 => vec![TlsVersion::Tls12, TlsVersion::Tls13],
        TlsMinVersion::V1_3 => vec![TlsVersion::Tls13],
    };
    assert(versions@ =~= versions_from(config.min_tls_version));
    Ok(
        TlsPlan {
            versions,
            verify_certificates: !config.insecure_disable_certificate_verification,
        },
    )
}

/// TLS 1.3 is offered under every configuration, TLS 1.2 just where it is the lowest version
/// allowed, and nothing below.
pub proof fn law_tls_versions(min: TlsMinVersion)
    ensures
        versions_from(min).contains(TlsVersion::Tls13),
        versions_from(min).contains(TlsVersion::Tls12) <==> min == TlsMinVersion::V1_2,
{
    assert(versions_from(min).last() == TlsVersion::Tls13);
    if min == TlsMinVersion::V1_2 {
        assert(versions_from(min)[0] == TlsVersion::Tls12);
    }
}

/// What a request says of itself.
#[derive(Debug)]
pub struct RequestHead {
    pub path: String,
    pub query: Option<String>,
    pub headers: http::HeaderMap<http::HeaderValue>,
}

impl RequestHead {
    /// The path and, behind a question mark, the query.
    pub open spec fn target(self) -> Seq<char> {
        match self.query {
            Some(query) => self.path@ + "?"@ + query@,
            None => self.path@,
        }
    }

    /// The path and, behind a question mark, the query.
    pub fn path_and_query(&self) -> (r: String)
        ensures
            r@ == self.target(),
    {
        let mut r = self.path.clone();
        if let Some(query) = &self.query {
            r.append("?");
            r.append(query.as_str());
        }
        r
    }
}

/// A request for the upstream: where it goes, with which headers, and how long it may take.
#[derive(Debug)]
pub struct Outbound {
    pub uri: Uri,
    pub headers: http::HeaderMap<http::HeaderValue>,
    pub timeout_ms: u64,
}

/// What is to be done with a request.
#[derive(Debug)]
pub enum Step {
    Answer(Reply),
    Send(Outbound),
}

/// What became of a request for the upstream.
#[derive(Debug)]
pub enum Outcome {
    RequestUnbuildable,
    TimedOut,
    ClientFailed { timeout: bool },
    Answered { status: u16, headers: http::HeaderMap<http::HeaderValue> },
    ResponseUnbuildable,
}

/// What the client is answered: the proxy's own reply, or the upstream's response with the headers
/// given here.
#[derive(Debug)]
pub enum Answer {
    Own(Reply),
    Upstream { status: u16, headers: http::HeaderMap<http::HeaderValue> },
}

/// The headers with which a request goes to the upstream.
pub open spec fn outbound_headers(
    m: headers::Headers,
    host: Seq<char>,
    client: net::SocketAddrView,
    bind: net::SocketAddrView,
) -> headers::Headers {
    with_forwarding(forwarding::with_host(passed_on(m), host), m, client, bind)
}

/// The URL under `upstream` for a target, given what `upstream` was read as.
pub open spec fn upstream_url(
    parsed: Result<uri::UriView, Seq<char>>,
    target: Seq<char>,
) -> Result<uri::UriView, Seq<char>> {
    match parsed {
        Ok(u) => forwarding::uri_under(u, target),
        Err(message) => Err(message),
    }
}

/// The proxy that keeps its connections to the upstreams.
#[derive(Debug)]
pub struct Proxy {
    pub config: ProxyConfig,
    pub client: ClientPlan,
    pub tls_config: TlsPlan,
}

impl Proxy {
    /// A proxy under a configuration.
    pub fn new(config: ProxyConfig) -> (r: Result<Self, AppError>)
        ensures
            r is Ok,
            r->Ok_0.config == config,
            r->Ok_0.client == (ClientPlan {
                enforce_http: false,
                nodelay: true,
                http1: true,
                http2: true,
                connect_timeout_ms: config.connect_timeout_ms,
                pool_idle_timeout_ms: config.pool_idle_timeout_ms,
                pool_max_idle_per_host: config.pool_max_idle_per_host,
            }),
            r->Ok_0.tls_config.versions@ == versions_from(config.min_tls_version),
            r->Ok_0.tls_config.verify_certificates
                == !config.insecure_disable_certificate_verification,
    {
        let tls_config = match build_tls_config(&config) {
            Ok(plan) => plan,
            Err(e) => {
                return Err(e);
            },
        };
        let client = ClientPlan {
            enforce_http: false,
            nodelay: true,
            http1: true,
            http2: true,
            connect_timeout_ms: config.connect_timeout_ms,
            pool_idle_timeout_ms: config.pool_idle_timeout_ms,
            pool_max_idle_per_host: config.pool_max_idle_per_host,
        };
        Ok(Proxy { config, client, tls_config })
    }

    /// What is to be done with a request for `upstream`: a target that makes no URL under the
    /// upstream is answered, any other goes there.
    pub fn handle_request(
        &self,
        head: &RequestHead,
        client_addr: &SocketAddr,
        bind_addr: &SocketAddr,
        upstream: &str,
    ) -> (r: Result<Step, AppError>)
        requires
            headers::fit_together(headers::no_headers(), headers::contents(head.headers), 3),
        ensures
            r is Ok,
            match upstream_url(uri::uri_parse(upstream@), head.target()) {
                Err(_) => r->Ok_0 matches Step::Answer(reply) && says(reply, 400, "bad request"@),
                Ok(url) => r->Ok_0 matches Step::Send(out) && {
                    &&& out.uri@ == url
                    &&& out.timeout_ms == self.config.request_timeout_ms
                    &&& headers::contents(out.headers) == outbound_headers(
                        headers::contents(head.headers),
                        upstream_host(upstream@, uri::uri_parse(upstream@)),
                        client_addr@,
                        bind_addr@,
                    )
                },
            },
            r->Ok_0 matches Step::Send(out) ==> ("https://"@.is_prefix_of(upstream@)
                ==> out.uri@.text() == forwarding::https_url(upstream@, head.target())),
            forwarding::are_plain(upstream@, head.target()) ==> r->Ok_0 is Send,
            r->Ok_0 matches Step::Send(out) ==> (has_authority(uri::uri_parse(upstream@))
                ==> headers::values_of(headers::contents(out.headers), "host"@) == seq![
                (encode_utf8(upstream_host(upstream@, uri::uri_parse(upstream@))), false),
            ]),
    {
        let target = head.path_and_query();
        let uri = match forwarding::build_upstream_url(upstream, target.as_str()) {
            Ok(uri) => uri,
            Err(_) => {
                return Ok(Step::Answer(error_response(400, "bad request")));
            },
        };
        let mut headers = headers::empty_map();
        let ghost given = headers::contents(head.headers);
        if let Err(e) = copy_request_headers(&mut headers, &head.headers, upstream) {
            return Err(e);
        }
        proof {
            lemma_passed_on_fits(headers::no_headers(), given, 3);
            headers::lemma_merged_with_none(passed_on(given));
        }
        if let Err(e) = apply_forwarding_headers(
            &mut headers,
            &head.headers,
            client_addr,
            bind_addr,
        ) {
            return Err(e);
        }
        proof {
            let host = upstream_host(upstream@, uri::uri_parse(upstream@));
            if has_authority(uri::uri_parse(upstream@)) {
                law_upstream_is_the_host(given, host, client_addr@, bind_addr@);
            }
        }
        Ok(Step::Send(Outbound { uri, headers, timeout_ms: self.config.request_timeout_ms }))
    }

    /// What the client is answered, given what became of its request.
    pub fn answer(&self, outcome: &Outcome) -> (r: Answer)
        requires
            outcome matches Outcome::Answered { headers, .. } ==> headers::fit_together(
                headers::no_headers(),
                headers::contents(*headers),
                0,
            ),
        ensures
            match *outcome {
                Outcome::RequestUnbuildable => r matches Answer::Own(reply) && says(
                    reply,
                    400,
                    "bad request"@,
                ),
                Outcome::TimedOut => r matches Answer::Own(reply) && says(
                    reply,
                    504,
                    "gateway timeout"@,
                ),
                Outcome::ClientFailed { timeout } => r matches Answer::Own(reply) && (if timeout {
                    says(reply, 504, "gateway timeout"@)
                } else {
                    says(reply, 502, "bad gateway"@)
                }),
                Outcome::Answered { status, headers } => r matches Answer::Upstream {
                    status: passed_status,
                    headers: passed_headers,
                } && {
                    &&& passed_status == status
                    &&& headers::contents(passed_headers) == passed_back(
                        headers::contents(headers),
                    )
                },
                Outcome::ResponseUnbuildable => r matches Answer::Own(reply) && says(
                    reply,
                    502,
                    "bad gateway"@,
                ),
            },
            r matches Answer::Own(reply) ==> 400 <= reply.status < 600,
    {
        match outcome {
            Outcome::RequestUnbuildable => Answer::Own(error_response(400, "bad request")),
            Outcome::TimedOut => Answer::Own(error_response(504, "gateway timeout")),
            Outcome::ClientFailed { timeout } => Answer::Own(map_upstream_client_error(*timeout)),
            Outcome::Answered { status, headers } => {
                let mut passed = headers::empty_map();
                copy_response_headers(&mut passed, headers);
                proof {
                    headers::lemma_merged_with_none(passed_back(headers::contents(*headers)));
                }
                Answer::Upstream { status: *status, headers: passed }
            },
            Outcome::ResponseUnbuildable => Answer::Own(error_response(502, "bad gateway")),
        }
    }
}

/// The names that the proxy sets itself.
pub open spec fn is_set_by_proxy(name: Seq<char>) -> bool {
    ||| name == "host"@
    ||| name == "x-forwarded-for"@
    ||| name == "x-forwarded-proto"@
    ||| name == "x-forwarded-host"@
}

/// No name that the proxy sets is one for one connection only.
proof fn lemma_set_names_pass(name: Seq<char>)
    requires
        is_set_by_proxy(name),
    ensures
        !is_connection_name(name),
{
    reveal_strlit("host");
    reveal_strlit("x-forwarded-for");
    reveal_strlit("x-forwarded-proto");
    reveal_strlit("x-forwarded-host");
    reveal_strlit("connection");
    reveal_strlit("keep-alive");
    reveal_strlit("proxy-authenticate");
    reveal_strlit("proxy-authorization");
    reveal_strlit("te");
    reveal_strlit("trailer");
    reveal_strlit("transfer-encoding");
    reveal_strlit("upgrade");
    let lowered = text::lower(name);
    assert(lowered.len() == name.len());
    assert(lowered[0] == name[0]);
    assert forall|i: int| 0 <= i < connection_names().len() implies connection_names()[i]
        != lowered by {
        assert(connection_names()[i].len() != lowered.len() || connection_names()[i][0]
            != lowered[0]);
    }
}

/// No header for one connection only reaches the upstream.
pub proof fn law_connection_headers_stay_behind(
    m: headers::Headers,
    host: Seq<char>,
    client: net::SocketAddrView,
    bind: net::SocketAddrView,
    name: Seq<char>,
)
    requires
        is_connection_name(name),
    ensures
        !outbound_headers(m, host, client, bind).contains_key(name),
{
    if is_set_by_proxy(name) {
        lemma_set_names_pass(name);
    }
}

/// Every header that is for more than one connection, and that the proxy does not set, reaches the
/// upstream with its values as they are, and the upstream gets no other.
pub proof fn law_other_headers_reach_the_upstream(
    m: headers::Headers,
    host: Seq<char>,
    client: net::SocketAddrView,
    bind: net::SocketAddrView,
    name: Seq<char>,
)
    requires
        !is_connection_name(name),
        !is_set_by_proxy(name),
    ensures
        outbound_headers(m, host, client, bind).contains_key(name) <==> m.contains_key(name),
        m.contains_key(name) ==> outbound_headers(m, host, client, bind)[name] == m[name],
{
}

/// The upstream is told one list of client addresses, one protocol and one host: the client's
/// address stands behind those that it passed, the protocol is `http`, and the host is the one that
/// the client asked for.
pub proof fn law_forwarding_headers(
    m: headers::Headers,
    host: Seq<char>,
    client: net::SocketAddrView,
    bind: net::SocketAddrView,
)
    ensures
        headers::values_of(outbound_headers(m, host, client, bind), "x-forwarded-for"@) == seq![
            (
                value_or_unknown(
                    listed_behind(value_bytes(first_value(m, "x-forwarded-for"@)), client.ip),
                ),
                false,
            ),
        ],
        headers::values_of(outbound_headers(m, host, client, bind), "x-forwarded-proto"@) == seq![
            (encode_utf8("http"@), false),
        ],
        headers::values_of(outbound_headers(m, host, client, bind), "x-forwarded-host"@) == seq![
            asked_host(m, bind),
        ],
{
    lemma_set_names_differ();
}

/// The names that the proxy sets are four different ones.
proof fn lemma_set_names_differ()
    ensures
        "host"@ != "x-forwarded-for"@,
        "host"@ != "x-forwarded-proto"@,
        "host"@ != "x-forwarded-host"@,
        "x-forwarded-for"@ != "x-forwarded-proto"@,
        "x-forwarded-for"@ != "x-forwarded-host"@,
        "x-forwarded-proto"@ != "x-forwarded-host"@,
{
    reveal_strlit("host");
    reveal_strlit("x-forwarded-for");
    reveal_strlit("x-forwarded-proto");
    reveal_strlit("x-forwarded-host");
    assert("host"@.len() == 4);
    assert("x-forwarded-for"@.len() == 15);
    assert("x-forwarded-proto"@.len() == 17);
    assert("x-forwarded-host"@.len() == 16);
}

/// A request names the upstream as its one host, whatever host the client asked for.
pub proof fn law_upstream_is_the_host(
    m: headers::Headers,
    host: Seq<char>,
    client: net::SocketAddrView,
    bind: net::SocketAddrView,
)
    requires
        headers::is_header_value(encode_utf8(host)),
    ensures
        headers::values_of(outbound_headers(m, host, client, bind), "host"@) == seq![
            (encode_utf8(host), false),
        ],
{
    lemma_set_names_differ();
}

/// A client's address that can be read is never lost: "unknown" does not take its place, whatever
/// list it stands behind.
pub proof fn law_client_is_told(existing: Option<Seq<u8>>, ip: Seq<char>)
    requires
        forall|i: int| 0 <= i < ip.len() ==> headers::is_visible_char(#[trigger] ip[i]),
    ensures
        value_or_unknown(listed_behind(existing, ip)) == encode_utf8(listed_behind(existing, ip)),
{
    reveal_strlit(", ");
    let whole = listed_behind(existing, ip);
    let first = readable(existing);
    assert forall|i: int| 0 <= i < whole.len() implies headers::is_visible_char(
        #[trigger] whole[i],
    ) by {
        if first.len() > 0 && i < first.len() {
            assert(headers::is_visible_byte(existing->Some_0[i]));
            assert(whole[i] == first[i]);
        } else if first.len() > 0 && i >= first.len() + 2 {
            assert(whole[i] == ip[i - first.len() - 2]);
        }
    }
    headers::lemma_visible_is_value(whole);
}

/// The list of client addresses keeps what it was and ends with the new address.
pub proof fn law_client_list_grows_at_its_end(existing: Option<Seq<u8>>, item: Seq<char>)
    ensures
        readable(existing).is_prefix_of(listed_behind(existing, item)),
        item.is_suffix_of(listed_behind(existing, item)),
{
    let whole = listed_behind(existing, item);
    let first = readable(existing);
    assert(first =~= whole.subrange(0, first.len() as int));
    assert(item =~= whole.subrange(whole.len() - item.len(), whole.len() as int));
}

/// A header goes back to the client if and only if the upstream sent it, it is for more than one
/// connection, and the upstream's `Connection` header does not list it; its values stay as they
/// are.
pub proof fn law_response_headers(m: headers::Headers, name: Seq<char>)
    ensures
        passed_back(m).contains_key(name) <==> {
            &&& m.contains_key(name)
            &&& !is_connection_name(name)
            &&& !connection_listed(m).contains(text::lower(name))
        },
        passed_back(m).contains_key(name) ==> passed_back(m)[name] == m[name],
{
}

/// The headers for one connection only are these eight, in upper or lower case, and no other.
pub proof fn law_eight_connection_headers(name: Seq<char>)
    ensures
        is_connection_name(name) <==> {
            let lowered = text::lower(name);
            ||| lowered == "connection"@
            ||| lowered == "keep-alive"@
            ||| lowered == "proxy-authenticate"@
            ||| lowered == "proxy-authorization"@
            ||| lowered == "te"@
            ||| lowered == "trailer"@
            ||| lowered == "transfer-encoding"@
            ||| lowered == "upgrade"@
        },
{
    let names = connection_names();
    assert(names[0] == "connection"@ && names[1] == "keep-alive"@ && names[2]
        == "proxy-authenticate"@ && names[3] == "proxy-authorization"@ && names[4] == "te"@
        && names[5] == "trailer"@ && names[6] == "transfer-encoding"@ && names[7] == "upgrade"@);
}

/// A header of any name but those eight and the four that the proxy sets reaches the upstream with
/// the values that the client gave it, and none that the client did not send comes in.
pub proof fn law_credentials_and_all_else_pass(
    m: headers::Headers,
    host: Seq<char>,
    client: net::SocketAddrView,
    bind: net::SocketAddrView,
    name: Seq<char>,
)
    requires
        ({
            let lowered = text::lower(name);
            &&& lowered != "connection"@
            &&& lowered != "keep-alive"@
            &&& lowered != "proxy-authenticate"@
            &&& lowered != "proxy-authorization"@
            &&& lowered != "te"@
            &&& lowered != "trailer"@
            &&& lowered != "transfer-encoding"@
            &&& lowered != "upgrade"@
        }),
        name != "host"@,
        name != "x-forwarded-for"@,
        name != "x-forwarded-proto"@,
        name != "x-forwarded-host"@,
    ensures
        outbound_headers(m, host, client, bind).contains_key(name) <==> m.contains_key(name),
        m.contains_key(name) ==> outbound_headers(m, host, client, bind)[name] == m[name],
{
    law_eight_connection_headers(name);
}

/// The options and views that contracts speak of hold what the values do.
pub proof fn law_values_as_given(
    value: Option<&Vec<u8>>,
    m: headers::Headers,
    name: Seq<char>,
    v: headers::Value,
)
    ensures
        value matches Some(bytes) ==> opt_bytes(value) == Some(bytes@),
        value is None ==> opt_bytes(value) is None,
        m.contains_key(name) ==> first_value(m, name) == Some(m[name][0]),
        !m.contains_key(name) ==> first_value(m, name) is None,
        value_bytes(Some(v)) == Some(v.0),
        value_bytes(None) is None,
{
}

/// A list of visible bytes that is not empty is kept whole, with a comma, a space and the new item
/// behind it; without such a list the item stands alone.
pub proof fn law_list_is_kept_whole(bytes: Seq<u8>, item: Seq<char>)
    ensures
        bytes.len() > 0 && (forall|i: int|
            0 <= i < bytes.len() ==> #[trigger] bytes[i] == 9 || 32 <= bytes[i] <= 126)
            ==> listed_behind(Some(bytes), item) == bytes.map_values(|b: u8| b as char) + ", "@
            + item,
        bytes.len() == 0 ==> listed_behind(Some(bytes), item) == item,
        (exists|i: int|
            0 <= i < bytes.len() && #[trigger] bytes[i] != 9 && !(32 <= bytes[i] <= 126))
            ==> listed_behind(Some(bytes), item) == item,
        listed_behind(None, item) == item,
{
    headers::law_value_bytes(bytes);
    assert(headers::ascii_text(bytes) =~= bytes.map_values(|b: u8| b as char));
}

/// A text that can be the value of a header becomes that value, byte for byte, and any other becomes
/// "unknown".
pub proof fn law_value_or_unknown(s: Seq<char>)
    ensures
        headers::is_header_value(encode_utf8(s)) ==> value_or_unknown(s) == encode_utf8(s),
        !headers::is_header_value(encode_utf8(s)) ==> value_or_unknown(s) == encode_utf8(
            "unknown"@,
        ),
{
}

/// The names in a list are those of its first part and then those of the rest; a part names what
/// stands between its white space, in lower case, and a blank one names nothing.
pub proof fn law_names_in_a_list(part: Seq<char>, rest: Seq<char>)
    requires
        !part.contains(','),
    ensures
        list_tokens(part + seq![','] + rest) == list_tokens(part) + list_tokens(rest),
        text::trimmed(part).len() > 0 ==> list_tokens(part) == seq![
            text::lower(text::trimmed(part)),
        ],
        text::trimmed(part).len() == 0 ==> list_tokens(part).len() == 0,
{
    let whole = part + seq![','] + rest;
    lemma_list_tokens_step(part);
    lemma_list_tokens_step(whole);
    text::law_before_and_after(part, ',');
    text::lemma_before(whole, ',');
    let cut = text::before(whole, ',');
    assert(whole[part.len() as int] == ',');
    assert(cut.len() == part.len()) by {
        if cut.len() < part.len() {
            assert(part[cut.len() as int] == whole[cut.len() as int]);
            assert(part.contains(','));
        }
    }
    assert(cut =~= part);
    assert(whole.skip(part.len() as int + 1) =~= rest);
}

/// A `Connection` value of visible bytes lists the names in its text; any other, and a missing one,
/// lists none. A response is read by the first value of that header.
pub proof fn law_listed_names(bytes: Seq<u8>, m: headers::Headers)
    ensures
        (forall|i: int|
            0 <= i < bytes.len() ==> #[trigger] bytes[i] == 9 || 32 <= bytes[i] <= 126)
            ==> listed_names(Some(bytes)) == list_tokens(bytes.map_values(|b: u8| b as char)),
        (exists|i: int|
            0 <= i < bytes.len() && #[trigger] bytes[i] != 9 && !(32 <= bytes[i] <= 126))
            ==> listed_names(Some(bytes)).len() == 0,
        listed_names(None).len() == 0,
        m.contains_key("connection"@) ==> connection_listed(m) == listed_names(
            Some(m["connection"@][0].0),
        ),
        !m.contains_key("connection"@) ==> connection_listed(m).len() == 0,
{
    headers::law_value_bytes(bytes);
    assert(headers::ascii_text(bytes) =~= bytes.map_values(|b: u8| b as char));
}

/// A header stays behind on the way to the client if it is for one connection only, or if its name
/// stands in the list of the response's `Connection` header; any other that the upstream sent goes
/// back with its values.
pub proof fn law_response_headers_by_name(m: headers::Headers, name: Seq<char>, listed: int)
    requires
        m.contains_key(name),
    ensures
        is_connection_name(name) ==> !passed_back(m).contains_key(name),
        0 <= listed < connection_listed(m).len() && connection_listed(m)[listed] == text::lower(
            name,
        ) ==> !passed_back(m).contains_key(name),
        !is_connection_name(name) && (forall|i: int|
            0 <= i < connection_listed(m).len() ==> #[trigger] connection_listed(m)[i]
                != text::lower(name)) ==> passed_back(m).contains_key(name) && passed_back(m)[name]
            == m[name],
{
}

/// The host of a request is the authority of its upstream's URL, or where that has none the
/// upstream as it is written.
pub proof fn law_upstream_host(upstream: Seq<char>, u: uri::UriView, message: Seq<char>)
    ensures
        u.authority matches Some(a) ==> upstream_host(upstream, Ok(u)) == a.text,
        u.authority is None ==> upstream_host(upstream, Ok(u)) == upstream,
        upstream_host(upstream, Err(message)) == upstream,
        has_authority(Ok(u)) <==> u.authority is Some,
        !has_authority(Err(message)),
{
}

/// The upstream is told of the host that the client asked for as the client wrote it, and of the
/// address that it came to where the client asked for none.
pub proof fn law_asked_host(m: headers::Headers, bind: net::SocketAddrView)
    ensures
        m.contains_key("host"@) ==> asked_host(m, bind) == m["host"@][0],
        !m.contains_key("host"@) ==> asked_host(m, bind) == (
            value_or_unknown(bind.text()),
            false,
        ),
{
}

/// The three forwarding headers get one value each, from the client's headers and addresses, and no
/// other header changes.
pub proof fn law_forwarding_headers_are_put_in(
    m: headers::Headers,
    src: headers::Headers,
    client: net::SocketAddrView,
    bind: net::SocketAddrView,
    name: Seq<char>,
)
    ensures
        with_forwarding(m, src, client, bind).contains_key("x-forwarded-for"@),
        src.contains_key("x-forwarded-for"@) ==> with_forwarding(
            m,
            src,
            client,
            bind,
        )["x-forwarded-for"@] == seq![
            (
                value_or_unknown(
                    listed_behind(Some(src["x-forwarded-for"@][0].0), client.ip),
                ),
                false,
            ),
        ],
        !src.contains_key("x-forwarded-for"@) ==> with_forwarding(
            m,
            src,
            client,
            bind,
        )["x-forwarded-for"@] == seq![(value_or_unknown(client.ip), false)],
        headers::values_of(with_forwarding(m, src, client, bind), "x-forwarded-proto"@) == seq![
            (encode_utf8("http"@), false),
        ],
        headers::values_of(with_forwarding(m, src, client, bind), "x-forwarded-host"@) == seq![
            asked_host(src, bind),
        ],
        name != "x-forwarded-for"@ && name != "x-forwarded-proto"@ && name != "x-forwarded-host"@
            ==> headers::values_of(with_forwarding(m, src, client, bind), name)
            == headers::values_of(m, name) && (with_forwarding(m, src, client, bind).contains_key(
            name,
        ) <==> m.contains_key(name)),
{
    lemma_set_names_differ();
}

/// A reply that says something has that status and, byte for byte, that text.
pub proof fn law_reply(reply: Reply, status: u16, message: Seq<char>)
    requires
        says(reply, status, message),
    ensures
        reply.status == status,
        reply.body@ == encode_utf8(message),
{
}

/// Each version that is allowed is offered once: two with 1.2 for the lowest, else one.
pub proof fn law_tls_versions_once(min: TlsMinVersion)
    ensures
        min == TlsMinVersion::V1_2 ==> versions_from(min).len() == 2,
        min == TlsMinVersion::V1_3 ==> versions_from(min).len() == 1,
        forall|i: int|
            0 <= i < versions_from(min).len() && min == TlsMinVersion::V1_3
                ==> #[trigger] versions_from(min)[i] == TlsVersion::Tls13,
{
}

/// The target of a request is its path, and its query behind a question mark.
pub proof fn law_request_target(head: RequestHead)
    ensures
        head.query is None ==> head.target() == head.path@,
        head.query matches Some(query) ==> head.target() == head.path@ + "?"@ + query@,
{
}

/// A request at an upstream that is no URI has no URL, and any other has the one under it.
pub proof fn law_upstream_url(u: uri::UriView, message: Seq<char>, target: Seq<char>)
    ensures
        upstream_url(Err(message), target) is Err,
        upstream_url(Ok(u), target) == forwarding::uri_under(u, target),
{
}

} // verus!
