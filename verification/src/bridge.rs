//! The bridge: which upstream a listener stands for, where a request goes, and the steps in which
//! it is forwarded and answered.

use vstd::prelude::*;
use vstd::string::*;
use vstd::utf8::*;

use crate::error;
use crate::error::RunError;
use crate::forwarding;
use crate::headers;
use crate::logging;
use crate::net::SocketAddr;
use crate::proxy;
use crate::proxy::{Answer, Reply};
use crate::text;
use crate::uri;
use crate::uri::{Authority, Uri};

verus! {

/// One address to listen on, and the upstream that its requests go to.
#[derive(Debug, Clone)]
pub struct ListenerConfig {
    pub listen: SocketAddr,
    pub upstream: String,
}

/// What the bridge is to do.
#[derive(Debug, Clone)]
pub struct Config {
    pub access_log: bool,
    pub shutdown_timeout_secs: Option<u64>,
    pub listeners: Vec<ListenerConfig>,
}

/// A configuration document: what it leaves out is `None`.
#[derive(Debug)]
pub struct ConfigDocument {
    pub access_log: Option<bool>,
    pub shutdown_timeout_secs: Option<u64>,
    pub listeners: Vec<ListenerConfig>,
}

/// An upstream: its URL, and the authority, the host and the port in that.
#[derive(Debug, Clone)]
pub struct Upstream {
    pub base: Uri,
    pub authority: String,
    pub host: String,
    pub port: u16,
}

pub struct UpstreamView {
    pub base: uri::UriView,
    pub authority: Seq<char>,
    pub host: Seq<char>,
    pub port: u16,
}

impl View for Upstream {
    type V = UpstreamView;

    open spec fn view(&self) -> UpstreamView {
        UpstreamView {
            base: self.base@,
            authority: self.authority@,
            host: self.host@,
            port: self.port,
        }
    }
}

/// The upstream that `raw` stands for, or why it stands for none, given what it was read as.
pub open spec fn upstream_of(
    raw: Seq<char>,
    parsed: Result<uri::UriView, Seq<char>>,
) -> Result<UpstreamView, Seq<char>> {
    match parsed {
        Err(_) => Err("invalid upstream URI: "@ + raw),
        Ok(base) => if base.scheme != Some("https"@) {
            Err("upstream must use https scheme: "@ + raw)
        } else {
            match base.authority {
                None => Err("upstream missing authority: "@ + raw),
                Some(authority) => if !"https://"@.is_prefix_of(raw) {
                    Err("upstream must start with https://: "@ + raw)
                } else {
                    Ok(
                        UpstreamView {
                            base,
                            authority: authority.text,
                            host: authority.host,
                            port: match authority.port {
                                Some(port) => port,
                                None => 443,
                            },
                        },
                    )
                },
            }
        },
    }
}

/// The result is the upstream, or the fault in the configuration in its place.
pub open spec fn is_upstream_result(
    r: Result<Upstream, RunError>,
    expected: Result<UpstreamView, Seq<char>>,
) -> bool {
    match expected {
        Ok(upstream) => r is Ok && r->Ok_0@ == upstream,
        Err(message) => r is Err && r->Err_0@ == error::RunErrorView::ConfigValidation(message),
    }
}

/// A fault in the configuration: a text and the upstream that it is about.
fn upstream_error(message: &str, raw: &str) -> (r: RunError)
    ensures
        r@ == error::RunErrorView::ConfigValidation(message@ + raw@),
{
    let mut text = message.to_owned();
    text.append(raw);
    RunError::ConfigValidation(text)
}

/// The upstream that `raw` stands for, given what it was read as.
pub fn read_upstream(raw: &str, parsed: Result<Uri, String>) -> (r: Result<Upstream, RunError>)
    ensures
        is_upstream_result(r, upstream_of(raw@, uri::outcome(parsed))),
{
    let base = match parsed {
        Ok(base) => base,
        Err(_) => {
            return Err(upstream_error("invalid upstream URI: ", raw));
        },
    };
    let https = match &base.scheme {
        Some(scheme) => text::same_text(scheme.as_str(), "https"),
        None => false,
    };
    if !https {
        return Err(upstream_error("upstream must use https scheme: ", raw));
    }
    let (authority, host, port) = match &base.authority {
        Some(authority) => {
            let port: u16 = match authority.port {
                Some(port) => port,
                None => 443,
            };
            (authority.text.clone(), authority.host.clone(), port)
        },
        None => {
            return Err(upstream_error("upstream missing authority: ", raw));
        },
    };
    if !text::has_prefix(raw, "https://") {
        return Err(upstream_error("upstream must start with https://: ", raw));
    }
    Ok(Upstream { base, authority, host, port })
}

/// What holds of the upstream that `raw` stands for: `raw` is not blank, begins with `https://` and
/// spells its URL. The authority is the one in that URL and can be the value of a header; the host
/// and the port are those in it, the port 443 where it has none.
pub open spec fn is_upstream_from(raw: Seq<char>, upstream: UpstreamView) -> bool {
    &&& "https://"@.is_prefix_of(raw)
    &&& text::trimmed(raw).len() > 0
    &&& uri::spells_https(raw, upstream.base)
    &&& upstream.base.authority_text() == Some(upstream.authority)
    &&& upstream.host == uri::host_in(upstream.authority)
    &&& upstream.port == match uri::port_in(upstream.authority) {
        Some(port) => port,
        None => 443,
    }
    &&& headers::is_header_value(encode_utf8(upstream.authority))
}

/// The upstream that `raw` stands for: an `https` URL with an authority. `https://` with the name
/// of a host, and perhaps a plain path, always stands for one.
pub fn parse_upstream(raw: &str) -> (r: Result<Upstream, RunError>)
    ensures
        is_upstream_result(r, upstream_of(raw@, uri::uri_parse(raw@))),
        r matches Ok(upstream) ==> is_upstream_from(raw@, upstream@),
        uri::is_plain_https(raw@) ==> r is Ok,
{
    let parsed = uri::parse_uri(raw);
    proof {
        if proxy::has_authority(uri::outcome(parsed)) {
            proxy::lemma_authority_is_value(parsed->Ok_0@.authority->Some_0);
        }
    }
    read_upstream(raw, parsed)
}

/// The target of a request under an upstream: as asked for where the upstream has no path of its
/// own, else behind that path.
pub open spec fn target_of(base_path: Seq<char>, path_and_query: Seq<char>) -> Seq<char> {
    if base_path == "/"@ {
        path_and_query
    } else {
        forwarding::target_under(base_path, path_and_query)
    }
}

/// What a request asks for; one that names nothing asks for the root.
pub open spec fn asked_for(path_and_query: Option<Seq<char>>) -> Seq<char> {
    match path_and_query {
        Some(asked) => asked,
        None => "/"@,
    }
}

/// The URI that stands for a target that makes none.
pub open spec fn invalid_uri() -> uri::UriView {
    uri::UriView {
        scheme: Some("https"@),
        authority: Some(
            uri::AuthorityView { text: "invalid.local"@, host: "invalid.local"@, port: None },
        ),
        path: "/"@,
        query: None,
    }
}

/// The URI that was built, or the one that stands for none.
pub open spec fn built_or_invalid(built: Result<uri::UriView, Seq<char>>) -> uri::UriView {
    match built {
        Ok(u) => u,
        Err(_) => invalid_uri(),
    }
}

/// The URI that was built, or the one that stands for none.
pub fn uri_or_invalid(built: Result<Uri, String>) -> (r: Uri)
    ensures
        r@ == built_or_invalid(uri::outcome(built)),
{
    match built {
        Ok(u) => u,
        Err(_) => Uri {
            scheme: Some("https".to_owned()),
            authority: Some(
                Authority {
                    text: "invalid.local".to_owned(),
                    host: "invalid.local".to_owned(),
                    port: None,
                },
            ),
            path: "/".to_owned(),
            query: None,
        },
    }
}

/// The URI of a request at an upstream.
pub open spec fn target_uri(
    upstream: UpstreamView,
    path_and_query: Option<Seq<char>>,
) -> Result<uri::UriView, Seq<char>> {
    uri::uri_build(
        Some("https"@),
        Some(upstream.authority),
        target_of(upstream.base.path, asked_for(path_and_query)),
    )
}

/// The request is for a plain target at a plain host.
pub open spec fn is_plain_request(
    upstream: UpstreamView,
    path_and_query: Option<Seq<char>>,
) -> bool {
    &&& uri::is_plain_authority(upstream.authority)
    &&& uri::is_plain_target(target_of(upstream.base.path, asked_for(path_and_query)))
}

/// The URI of a request at an upstream. Where the upstream has a path, the path asked for stands
/// behind it. One for a plain target at a plain host is always built.
pub fn build_target_uri(upstream: &Upstream, path_and_query: Option<&str>) -> (r: Uri)
    ensures
        r@ == built_or_invalid(target_uri(upstream@, text::opt_str(path_and_query))),
        is_plain_request(upstream@, text::opt_str(path_and_query)) ==> target_uri(
            upstream@,
            text::opt_str(path_and_query),
        ) is Ok,
        target_uri(upstream@, text::opt_str(path_and_query)) is Ok ==> uri::has_parts(
            r@,
            Some("https"@),
            Some(upstream@.authority),
            target_of(upstream@.base.path, asked_for(text::opt_str(path_and_query))),
        ),
{
    let asked = match path_and_query {
        Some(asked) => asked,
        None => "/",
    };
    let target = if text::same_text(upstream.base.path.as_str(), "/") {
        asked.to_owned()
    } else {
        forwarding::join_target(upstream.base.path.as_str(), asked)
    };
    uri_or_invalid(
        uri::build_uri(Some("https"), Some(upstream.authority.as_str()), target.as_str()),
    )
}

/// A request for a path at an upstream that is written as an `https` URL goes to that URL with the
/// path behind it, joined with one slash, and with the query.
pub proof fn law_request_goes_under_the_upstream(
    raw: Seq<char>,
    upstream: UpstreamView,
    path_and_query: Seq<char>,
    u: uri::UriView,
)
    requires
        is_upstream_from(raw, upstream),
        text::starts_with_slash(path_and_query),
        uri::has_parts(
            u,
            Some("https"@),
            Some(upstream.authority),
            target_of(upstream.base.path, path_and_query),
        ),
    ensures
        u.text() == forwarding::https_url(raw, path_and_query),
{
    if upstream.base.path == "/"@ {
        forwarding::lemma_target_under_root(path_and_query);
    }
    forwarding::lemma_https_url(raw, upstream.base, path_and_query, u);
}

/// A plain path at an upstream that is written as a plain URL makes a plain request, which goes to
/// its own URI and not to the one that stands for none.
pub proof fn law_plain_request(raw: Seq<char>, upstream: UpstreamView, path_and_query: Seq<char>)
    requires
        is_upstream_from(raw, upstream),
        forwarding::are_plain(raw, path_and_query),
        text::starts_with_slash(path_and_query),
    ensures
        is_plain_request(upstream, Some(path_and_query)),
{
    uri::lemma_plain_parts(raw, upstream.base);
    forwarding::lemma_plain_target(upstream.base.path, path_and_query);
}

/// The body of an answer with a status: three of them have their own words.
pub open spec fn simple_body(status: u16, message: Seq<char>) -> Seq<char> {
    if status == 502 {
        "Bad Gateway"@
    } else if status == 503 {
        "Service Unavailable"@
    } else if status == 405 {
        "Method Not Allowed"@
    } else {
        message
    }
}

/// An answer with a status and a text.
pub fn simple_response(status: u16, message: &str) -> (r: Reply)
    ensures
        proxy::says(r, status, simple_body(status, message@)),
{
    let body = if status == 502 {
        text::bytes_of("Bad Gateway")
    } else if status == 503 {
        text::bytes_of("Service Unavailable")
    } else if status == 405 {
        text::bytes_of("Method Not Allowed")
    } else {
        text::bytes_of(message)
    };
    Reply { status, body }
}

/// What is wrong with the listener `i`, if anything is: an upstream that is empty or that stands
/// for none.
pub open spec fn listener_fault(listeners: Seq<ListenerConfig>, i: int) -> Option<Seq<char>> {
    let raw = listeners[i].upstream@;
    if text::trimmed(raw).len() == 0 {
        Some("listeners["@ + text::decimal(i as nat) + "].upstream cannot be empty"@)
    } else {
        match upstream_of(raw, uri::uri_parse(raw)) {
            Ok(_) => None,
            Err(message) => Some(message),
        }
    }
}

/// What is wrong with the first listener from `i` on with which something is.
pub open spec fn first_fault(listeners: Seq<ListenerConfig>, i: int) -> Option<Seq<char>>
    decreases listeners.len() - i,
{
    if i < 0 || i >= listeners.len() {
        None
    } else {
        match listener_fault(listeners, i) {
            Some(message) => Some(message),
            None => first_fault(listeners, i + 1),
        }
    }
}

/// What is wrong with the listeners, if anything is.
pub open spec fn config_fault(listeners: Seq<ListenerConfig>) -> Option<Seq<char>> {
    if listeners.len() == 0 {
        Some("at least one listener is required"@)
    } else {
        first_fault(listeners, 0)
    }
}

/// A configuration is without a fault if and only if it has a listener, and every upstream is more
/// than white space and stands for an upstream.
pub proof fn law_accepted_config(listeners: Seq<ListenerConfig>)
    ensures
        config_fault(listeners) is None <==> {
            &&& listeners.len() > 0
            &&& forall|k: int|
                0 <= k < listeners.len() ==> {
                    let raw = (#[trigger] listeners[k]).upstream@;
                    &&& text::trimmed(raw).len() > 0
                    &&& upstream_of(raw, uri::uri_parse(raw)) is Ok
                }
        },
{
    lemma_first_fault(listeners, 0);
    assert forall|k: int| 0 <= k < listeners.len() implies (#[trigger] listener_fault(
        listeners,
        k,
    ) is None <==> {
        let raw = listeners[k].upstream@;
        &&& text::trimmed(raw).len() > 0
        &&& upstream_of(raw, uri::uri_parse(raw)) is Ok
    }) by {}
    if config_fault(listeners) is None {
        assert forall|k: int| 0 <= k < listeners.len() implies {
            let raw = (#[trigger] listeners[k]).upstream@;
            &&& text::trimmed(raw).len() > 0
            &&& upstream_of(raw, uri::uri_parse(raw)) is Ok
        } by {
            assert(listener_fault(listeners, k) is None);
        }
    }
}

/// Every listener names an upstream.
pub open spec fn all_upstreams(listeners: Seq<ListenerConfig>) -> bool {
    forall|k: int|
        0 <= k < listeners.len() ==> {
            let raw = (#[trigger] listeners[k]).upstream@;
            upstream_of(raw, uri::uri_parse(raw)) is Ok
        }
}

/// Every listener names `https://`, the name of a host and perhaps a plain path.
pub open spec fn all_plain(listeners: Seq<ListenerConfig>) -> bool {
    forall|k: int|
        0 <= k < listeners.len() ==> uri::is_plain_https((#[trigger] listeners[k]).upstream@)
}

/// There is no first fault from `i` on if and only if no listener from there on has one.
proof fn lemma_first_fault(listeners: Seq<ListenerConfig>, i: int)
    requires
        0 <= i,
    ensures
        first_fault(listeners, i) is None <==> forall|k: int|
            i <= k < listeners.len() ==> #[trigger] listener_fault(listeners, k) is None,
    decreases listeners.len() - i,
{
    if i < listeners.len() {
        lemma_first_fault(listeners, i + 1);
    }
}

/// The configuration is what the document says; requests are logged unless it says otherwise.
pub open spec fn as_given(document: ConfigDocument, c: Config) -> bool {
    &&& c.access_log == (document.access_log matches Some(on) ==> on)
    &&& c.shutdown_timeout_secs == document.shutdown_timeout_secs
    &&& c.listeners == document.listeners
}

/// A listener and the upstream that it stands for.
#[derive(Debug)]
pub struct ListenerPlan {
    pub listen: SocketAddr,
    pub upstream: Upstream,
}

impl Config {
    /// What a document says, with the defaults for what it leaves out.
    pub fn from_document(document: ConfigDocument) -> (r: Config)
        ensures
            as_given(document, r),
    {
        Config {
            access_log: match document.access_log {
                Some(on) => on,
                None => true,
            },
            shutdown_timeout_secs: document.shutdown_timeout_secs,
            listeners: document.listeners,
        }
    }

    /// Accepts the configuration, or tells what is wrong with it. It is accepted if and only if it
    /// has a listener and every upstream stands for one.
    pub fn validate(&self) -> (r: Result<(), RunError>)
        ensures
            r is Ok <==> self.listeners@.len() > 0 && all_upstreams(self.listeners@),
            self.listeners@.len() > 0 && all_plain(self.listeners@) ==> r is Ok,
            match config_fault(self.listeners@) {
                None => r is Ok,
                Some(message) => r is Err && r->Err_0@ == error::RunErrorView::ConfigValidation(
                    message,
                ),
            },
    {
        if self.listeners.len() == 0 {
            return Err(
                RunError::ConfigValidation("at least one listener is required".to_owned()),
            );
        }
        let mut i: usize = 0;
        while i < self.listeners.len()
            invariant
                i <= self.listeners@.len(),
                self.listeners@.len() > 0,
                first_fault(self.listeners@, 0) == first_fault(self.listeners@, i as int),
            decreases self.listeners@.len() - i,
        {
            let raw = self.listeners[i].upstream.as_str();
            let parsed = parse_upstream(raw);
            assert(parsed is Err ==> !all_upstreams(self.listeners@) && !all_plain(
                self.listeners@,
            )) by {
                assert(self.listeners@[i as int].upstream@ == raw@);
            }
            if text::trim(raw).as_str().is_empty() {
                let mut message = "listeners[".to_owned();
                message.append(text::decimal_text(i as u64).as_str());
                message.append("].upstream cannot be empty");
                return Err(RunError::ConfigValidation(message));
            }
            if let Err(e) = parsed {
                return Err(e);
            }
            i += 1;
        }
        proof {
            law_accepted_config(self.listeners@);
        }
        Ok(())
    }

    /// The listeners with their upstreams, or what is wrong with the configuration.
    pub fn listener_plans(&self) -> (r: Result<Vec<ListenerPlan>, RunError>)
        ensures
            match config_fault(self.listeners@) {
                None => r is Ok && r->Ok_0@.len() == self.listeners@.len() && forall|k: int|
                    0 <= k < self.listeners@.len() ==> is_plan_of(
                        #[trigger] r->Ok_0@[k],
                        self.listeners@[k],
                    ),
                Some(message) => r is Err && r->Err_0@ == error::RunErrorView::ConfigValidation(
                    message,
                ),
            },
    {
        if let Err(e) = self.validate() {
            return Err(e);
        }
        proof {
            law_accepted_config(self.listeners@);
        }
        let mut plans: Vec<ListenerPlan> = Vec::new();
        let mut i: usize = 0;
        while i < self.listeners.len()
            invariant
                i <= self.listeners@.len(),
                config_fault(self.listeners@) is None,
                plans@.len() == i,
                forall|k: int|
                    0 <= k < i ==> is_plan_of(#[trigger] plans@[k], self.listeners@[k]),
                forall|k: int|
                    0 <= k < self.listeners@.len() ==> {
                        let raw = (#[trigger] self.listeners@[k]).upstream@;
                        upstream_of(raw, uri::uri_parse(raw)) is Ok
                    },
            decreases self.listeners@.len() - i,
        {
            let listener = &self.listeners[i];
            match parse_upstream(listener.upstream.as_str()) {
                Ok(upstream) => {
                    plans.push(ListenerPlan { listen: listener.listen.copy(), upstream });
                },
                Err(e) => {
                    assert(upstream_of(
                        self.listeners@[i as int].upstream@,
                        uri::uri_parse(self.listeners@[i as int].upstream@),
                    ) is Ok);
                    return Err(e);
                },
            }
            i += 1;
        }
        Ok(plans)
    }
}

/// The plan listens where the listener does and has the upstream that the listener names.
pub open spec fn is_plan_of(plan: ListenerPlan, listener: ListenerConfig) -> bool {
    &&& plan.listen@ == listener.listen@
    &&& is_upstream_from(listener.upstream@, plan.upstream@)
    &&& upstream_of(listener.upstream@, uri::uri_parse(listener.upstream@)) == Ok::<
        UpstreamView,
        Seq<char>,
    >(plan.upstream@)
}

/// What is done, one after the other, to forward a request.
#[derive(Debug, Clone, Copy, PartialEq, Eq, Structural)]
pub enum Phase {
    ReadBody,
    Connect,
    StartTls,
    Handshake,
    Send,
    ReadResponse,
}

/// What comes next: another phase, the response, or the failure for the reason given.
#[derive(Debug)]
pub enum Next {
    Do(Phase),
    Complete,
    Fail(String),
}

pub enum NextView {
    Do(Phase),
    Complete,
    Fail(Seq<char>),
}

impl View for Next {
    type V = NextView;

    open spec fn view(&self) -> NextView {
        match self {
            Next::Do(phase) => NextView::Do(*phase),
            Next::Complete => NextView::Complete,
            Next::Fail(reason) => NextView::Fail(reason@),
        }
    }
}

/// How a phase ended, in words where it failed.
pub open spec fn phase_end(ended: Result<(), String>) -> Result<(), Seq<char>> {
    match ended {
        Ok(_) => Ok(()),
        Err(reason) => Err(reason@),
    }
}

/// What comes after a phase. TLS is started only with a host that can be the name of a server, and
/// a failure to start it says so.
pub open spec fn next_of(
    phase: Phase,
    ended: Result<(), Seq<char>>,
    host_is_server_name: bool,
) -> NextView {
    match ended {
        Err(reason) => if phase == Phase::StartTls {
            NextView::Fail("tls connect failed: "@ + reason)
        } else {
            NextView::Fail(reason)
        },
        Ok(_) => match phase {
            Phase::ReadBody => NextView::Do(Phase::Connect),
            Phase::Connect => if host_is_server_name {
                NextView::Do(Phase::StartTls)
            } else {
                NextView::Fail("invalid dns name"@)
            },
            Phase::StartTls => NextView::Do(Phase::Handshake),
            Phase::Handshake => NextView::Do(Phase::Send),
            Phase::Send => NextView::Do(Phase::ReadResponse),
            Phase::ReadResponse => NextView::Complete,
        },
    }
}

/// Whether `ServerName::try_from` takes a host as the name of a server.
pub uninterp spec fn is_server_name(host: Seq<char>) -> bool;

/// `ServerName::try_from` takes DNS names and IP addresses as names of servers, and nothing else.
#[verifier::external_body]
pub(crate) fn host_is_server_name(host: &str) -> (r: bool)
    ensures
        r == is_server_name(host@),
{
    rustls::pki_types::ServerName::try_from(host).is_ok()
}

/// What comes after a phase, given whether the host can be the name of a server.
pub fn after_phase(
    phase: Phase,
    ended: Result<(), String>,
    host_is_server_name: bool,
) -> (r: Next)
    ensures
        r@ == next_of(phase, phase_end(ended), host_is_server_name),
{
    if let Err(reason) = ended {
        if let Phase::StartTls = phase {
            let mut text = "tls connect failed: ".to_owned();
            text.append(reason.as_str());
            return Next::Fail(text);
        }
        return Next::Fail(reason);
    }
    match phase {
        Phase::ReadBody => Next::Do(Phase::Connect),
        Phase::Connect => if host_is_server_name {
            Next::Do(Phase::StartTls)
        } else {
            Next::Fail("invalid dns name".to_owned())
        },
        Phase::StartTls => Next::Do(Phase::Handshake),
        Phase::Handshake => Next::Do(Phase::Send),
        Phase::Send => Next::Do(Phase::ReadResponse),
        Phase::ReadResponse => Next::Complete,
    }
}

/// How many phases are still to come after this one.
pub open spec fn phases_left(phase: Phase) -> nat {
    match phase {
        Phase::ReadBody => 5,
        Phase::Connect => 4,
        Phase::StartTls => 3,
        Phase::Handshake => 2,
        Phase::Send => 1,
        Phase::ReadResponse => 0,
    }
}

/// Forwarding comes to an end: each phase has fewer to come than the one before, so after six of
/// them at most there is a response or a failure. No phase follows one that failed.
pub proof fn law_forwarding_ends(
    phase: Phase,
    ended: Result<(), Seq<char>>,
    host_is_server_name: bool,
)
    ensures
        next_of(phase, ended, host_is_server_name) matches NextView::Do(next) ==> phases_left(next)
            < phases_left(phase),
        ended is Err ==> next_of(phase, ended, host_is_server_name) is Fail,
        next_of(phase, ended, host_is_server_name) is Complete <==> phase == Phase::ReadResponse
            && ended is Ok,
        phases_left(phase) <= 5,
{
}

/// A request as it goes to the upstream.
#[derive(Debug)]
pub struct Outbound {
    pub uri: Uri,
    pub headers: http::HeaderMap<http::HeaderValue>,
}

/// The bridge: it opens a connection for each request.
#[derive(Debug, Clone, Copy)]
pub struct Bridge {
    pub access_log: bool,
}

/// What the client gets, and what is logged of it.
#[derive(Debug)]
pub struct Handled {
    pub answer: Answer,
    pub error_line: Option<String>,
    pub access_line: Option<String>,
}

/// The status of an answer.
pub open spec fn status_of(answer: Answer) -> u16 {
    match answer {
        Answer::Own(reply) => reply.status,
        Answer::Upstream { status, .. } => status,
    }
}

impl Bridge {
    pub fn new(access_log: bool) -> (r: Bridge)
        ensures
            r.access_log == access_log,
    {
        Bridge { access_log }
    }

    /// What comes after a phase of forwarding a request to `upstream`.
    pub fn forward(&self, upstream: &Upstream, phase: Phase, ended: Result<(), String>) -> (r: Next)
        ensures
            r@ == next_of(phase, phase_end(ended), is_server_name(upstream@.host)),
    {
        let named = host_is_server_name(upstream.host.as_str());
        after_phase(phase, ended, named)
    }

    /// The request that is sent to `upstream`: without the headers of the client's connection,
    /// with the upstream as the host, and with the headers that tell where it came from.
    pub fn outbound(
        &self,
        upstream: &Upstream,
        path_and_query: Option<&str>,
        headers: &http::HeaderMap<http::HeaderValue>,
        client_addr: &SocketAddr,
        local_addr: &SocketAddr,
    ) -> (r: Result<Outbound, String>)
        requires
            headers::fit_together(headers::no_headers(), headers::contents(*headers), 3),
        ensures
            match r {
                Ok(out) => {
                    &&& headers::is_header_value(encode_utf8(upstream@.authority))
                    &&& out.uri@ == built_or_invalid(
                        target_uri(upstream@, text::opt_str(path_and_query)),
                    )
                    &&& is_plain_request(upstream@, text::opt_str(path_and_query)) ==> target_uri(
                        upstream@,
                        text::opt_str(path_and_query),
                    ) is Ok
                    &&& target_uri(upstream@, text::opt_str(path_and_query)) is Ok
                        ==> uri::has_parts(
                        out.uri@,
                        Some("https"@),
                        Some(upstream@.authority),
                        target_of(upstream@.base.path, asked_for(text::opt_str(path_and_query))),
                    )
                    &&& headers::contents(out.headers) == proxy::outbound_headers(
                        headers::contents(*headers),
                        upstream@.authority,
                        client_addr@,
                        local_addr@,
                    )
                    &&& headers::values_of(headers::contents(out.headers), "host"@) == seq![
                        (encode_utf8(upstream@.authority), false),
                    ]
                },
                Err(reason) => {
                    &&& !headers::is_header_value(encode_utf8(upstream@.authority))
                    &&& reason@ == "failed to parse header value"@
                },
            },
    {
        if headers::value_from_text(upstream.authority.as_str()).is_none() {
            return Err("failed to parse header value".to_owned());
        }
        let uri = build_target_uri(upstream, path_and_query);
        let mut passed = headers::empty_map();
        proof {
            proxy::lemma_passed_on_fits(headers::no_headers(), headers::contents(*headers), 3);
            headers::lemma_merged_with_none(proxy::passed_on(headers::contents(*headers)));
        }
        proxy::pass_request_headers(&mut passed, headers);
        forwarding::set_host_header(&mut passed, upstream.authority.as_str());
        let _ = proxy::apply_forwarding_headers(&mut passed, headers, client_addr, local_addr);
        proof {
            proxy::law_upstream_is_the_host(
                headers::contents(*headers),
                upstream@.authority,
                client_addr@,
                local_addr@,
            );
        }
        Ok(Outbound { uri, headers: passed })
    }

    /// What the client gets for a request, given the status and the headers of the response or
    /// why there is none, and the lines that are logged.
    pub fn handle(
        &self,
        result: Result<(u16, http::HeaderMap<http::HeaderValue>), String>,
        client_addr: &SocketAddr,
        local_addr: &SocketAddr,
        method: &str,
        path_and_query: Option<&str>,
        latency_ms: u64,
    ) -> (r: Handled)
        requires
            result matches Ok(response) ==> headers::fit_together(
                headers::no_headers(),
                headers::contents(response.1),
                0,
            ),
        ensures
            match result {
                Ok(response) => {
                    &&& r.answer matches Answer::Upstream { status, headers } && status
                        == response.0 && headers::contents(headers) == proxy::passed_back(
                        headers::contents(response.1),
                    )
                    &&& r.error_line is None
                },
                Err(reason) => {
                    &&& r.answer matches Answer::Own(reply) && proxy::says(
                        reply,
                        502,
                        "Bad Gateway"@,
                    )
                    &&& text::opt_view(r.error_line) == Some("proxy request failed: "@ + reason@)
                },
            },
            text::opt_view(r.access_line) == (if self.access_log {
                Some(
                    logging::request_line(
                        client_addr@,
                        local_addr@,
                        method@,
                        asked_for(text::opt_str(path_and_query)),
                        status_of(r.answer),
                        latency_ms,
                    ),
                )
            } else {
                None
            }),
    {
        let (answer, status, error_line) = match result {
            Ok((status, headers)) => {
                let mut passed = headers::empty_map();
                proxy::copy_response_headers(&mut passed, &headers);
                proof {
                    headers::lemma_merged_with_none(
                        proxy::passed_back(headers::contents(headers)),
                    );
                }
                (Answer::Upstream { status, headers: passed }, status, None)
            },
            Err(reason) => {
                let mut line = "proxy request failed: ".to_owned();
                line.append(reason.as_str());
                let reply = simple_response(502, "Bad Gateway");
                let status: u16 = reply.status;
                (Answer::Own(reply), status, Some(line))
            },
        };
        let path = match path_and_query {
            Some(path) => path,
            None => "/",
        };
        let access_line = if self.access_log {
            Some(
                logging::request_text(client_addr, local_addr, method, path, status, latency_ms),
            )
        } else {
            None
        };
        Handled { answer, error_line, access_line }
    }
}

/// A text stands for an upstream if it begins with `https://` and is read as an `https` URI with an
/// authority; the upstream is that URI, its authority and host, and its port or 443. Any other text
/// is refused, with words that end with the text.
pub proof fn law_what_stands_for_an_upstream(
    raw: Seq<char>,
    u: uri::UriView,
    a: uri::AuthorityView,
    message: Seq<char>,
)
    ensures
        upstream_of(raw, Err(message)) == Err::<UpstreamView, Seq<char>>(
            "invalid upstream URI: "@ + raw,
        ),
        u.scheme != Some("https"@) ==> upstream_of(raw, Ok(u)) == Err::<UpstreamView, Seq<char>>(
            "upstream must use https scheme: "@ + raw,
        ),
        u.scheme == Some("https"@) && u.authority is None ==> upstream_of(raw, Ok(u)) == Err::<
            UpstreamView,
            Seq<char>,
        >("upstream missing authority: "@ + raw),
        u.scheme == Some("https"@) && u.authority == Some(a) && !"https://"@.is_prefix_of(raw)
            ==> upstream_of(raw, Ok(u)) == Err::<UpstreamView, Seq<char>>(
            "upstream must start with https://: "@ + raw,
        ),
        u.scheme == Some("https"@) && u.authority == Some(a) && "https://"@.is_prefix_of(raw) ==> {
            &&& upstream_of(raw, Ok(u)) is Ok
            &&& upstream_of(raw, Ok(u))->Ok_0.base == u
            &&& upstream_of(raw, Ok(u))->Ok_0.authority == a.text
            &&& upstream_of(raw, Ok(u))->Ok_0.host == a.host
            &&& a.port matches Some(port) ==> upstream_of(raw, Ok(u))->Ok_0.port == port
            &&& a.port is None ==> upstream_of(raw, Ok(u))->Ok_0.port == 443
        },
{
}

/// The result of reading an upstream is that upstream, or the fault in the configuration with its
/// words.
pub proof fn law_upstream_result(r: Result<Upstream, RunError>, u: UpstreamView, message: Seq<char>)
    ensures
        is_upstream_result(r, Ok(u)) <==> (r matches Ok(upstream) && upstream.base@ == u.base
            && upstream.authority@ == u.authority && upstream.host@ == u.host && upstream.port
            == u.port),
        is_upstream_result(r, Err(message)) <==> (r matches Err(e) && (
        e matches RunError::ConfigValidation(words) && words@ == message)),
{
}

/// The path and the query that were asked for are all there in the target: where the upstream has
/// no path they are the target, and else they stand behind its path.
pub proof fn law_target_of(base_path: Seq<char>, path: Seq<char>, query: Seq<char>)
    requires
        !path.contains('?'),
        path.len() > 0 && path[0] == '/',
        base_path.len() > 0 && base_path[0] == '/',
    ensures
        base_path == "/"@ ==> target_of(base_path, path) == path,
        base_path == "/"@ ==> target_of(base_path, path + "?"@ + query) == path + "?"@ + query,
        base_path.last() != '/' ==> target_of(base_path, path) == base_path + path,
        base_path.last() != '/' ==> target_of(base_path, path + "?"@ + query) == base_path + path
            + "?"@ + query,
        path.is_suffix_of(target_of(base_path, path)),
{
    reveal_strlit("/");
    forwarding::law_target(base_path, path, query);
    forwarding::law_joined_paths(base_path, path);
    if base_path == "/"@ {
        assert(path =~= path.subrange(0, path.len() as int));
    }
}

/// A request that names nothing asks for the root, and any other for what it names; a target that
/// makes no URI has `https://invalid.local/` for one, and any other has its own.
pub proof fn law_asked_for(asked: Seq<char>, u: uri::UriView, message: Seq<char>)
    ensures
        asked_for(Some(asked)) == asked,
        asked_for(None) == seq!['/'],
        built_or_invalid(Ok(u)) == u,
        built_or_invalid(Err(message)).text() == "https://invalid.local/"@,
        built_or_invalid(Err(message)).authority matches Some(a) && a.text == "invalid.local"@
            && a.host == a.text && a.port is None,
        built_or_invalid(Err(message)).path == seq!['/'],
        built_or_invalid(Err(message)).query is None,
{
    reveal_strlit("/");
    reveal_strlit("https");
    reveal_strlit("://");
    reveal_strlit("invalid.local");
    reveal_strlit("https://invalid.local/");
    assert("/"@ =~= seq!['/']);
    assert(invalid_uri().text() =~= "https://invalid.local/"@);
}

/// The URI of a request is built with `https`, the authority of the upstream, and the target under
/// the upstream.
pub proof fn law_target_uri(upstream: UpstreamView, path_and_query: Seq<char>)
    ensures
        target_uri(upstream, Some(path_and_query)) == uri::uri_build(
            Some("https"@),
            Some(upstream.authority),
            target_of(upstream.base.path, path_and_query),
        ),
        target_uri(upstream, None) == uri::uri_build(
            Some("https"@),
            Some(upstream.authority),
            target_of(upstream.base.path, "/"@),
        ),
        uri::is_plain_authority(upstream.authority) && uri::is_plain_target(
            target_of(upstream.base.path, path_and_query),
        ) ==> is_plain_request(upstream, Some(path_and_query)),
{
}

/// Three statuses have their own words, and any other has those given.
pub proof fn law_simple_body(status: u16, message: Seq<char>)
    ensures
        simple_body(502, message) == "Bad Gateway"@,
        simple_body(503, message) == "Service Unavailable"@,
        simple_body(405, message) == "Method Not Allowed"@,
        status != 502 && status != 503 && status != 405 ==> simple_body(status, message) == message,
{
}

/// A listener is at fault for a blank upstream, with words that name its place in the list, or else
/// for what its upstream is refused with.
pub proof fn law_listener_faults(listeners: Seq<ListenerConfig>, i: int)
    requires
        0 <= i < listeners.len(),
    ensures
        text::trimmed(listeners[i].upstream@).len() == 0 ==> listener_fault(listeners, i) == Some(
            "listeners["@ + text::decimal(i as nat) + "].upstream cannot be empty"@,
        ),
        text::trimmed(listeners[i].upstream@).len() > 0 ==> {
            let raw = listeners[i].upstream@;
            &&& upstream_of(raw, uri::uri_parse(raw)) matches Err(message) ==> listener_fault(
                listeners,
                i,
            ) == Some(message)
            &&& upstream_of(raw, uri::uri_parse(raw)) is Ok ==> listener_fault(listeners, i) is None
        },
{
}

/// What is told of a configuration is that it has no listener, or the fault of the first listener
/// that has one, and nothing just where none has.
pub proof fn law_first_fault_is_told(listeners: Seq<ListenerConfig>, i: int)
    requires
        forall|k: int| 0 <= k < i ==> #[trigger] listener_fault(listeners, k) is None,
    ensures
        listeners.len() == 0 ==> config_fault(listeners) == Some(
            "at least one listener is required"@,
        ),
        0 <= i < listeners.len() && listener_fault(listeners, i) is Some ==> config_fault(listeners)
            == listener_fault(listeners, i),
        listeners.len() > 0 && i == listeners.len() ==> config_fault(listeners) is None,
{
    if 0 <= i <= listeners.len() {
        lemma_fault_from(listeners, 0, i);
    }
}

/// Listeners without a fault are passed over.
proof fn lemma_fault_from(listeners: Seq<ListenerConfig>, from: int, i: int)
    requires
        0 <= from <= i <= listeners.len(),
        forall|k: int| from <= k < i ==> #[trigger] listener_fault(listeners, k) is None,
    ensures
        first_fault(listeners, from) == first_fault(listeners, i),
    decreases i - from,
{
    if from < i {
        lemma_fault_from(listeners, from + 1, i);
    }
}

/// What the acceptance of a configuration speaks of: each listener names an upstream, or a plain
/// URL.
pub proof fn law_upstreams_of_listeners(listeners: Seq<ListenerConfig>)
    ensures
        all_upstreams(listeners) <==> forall|k: int|
            0 <= k < listeners.len() ==> {
                let raw = (#[trigger] listeners[k]).upstream@;
                upstream_of(raw, uri::uri_parse(raw)) is Ok
            },
        all_plain(listeners) <==> forall|k: int|
            0 <= k < listeners.len() ==> uri::is_plain_https((#[trigger] listeners[k]).upstream@),
{
}

/// A configuration has the listeners and the time limit of its document, and logs requests unless
/// the document says not to.
pub proof fn law_document_holds(document: ConfigDocument, c: Config)
    requires
        as_given(document, c),
    ensures
        c.listeners@ == document.listeners@,
        c.shutdown_timeout_secs == document.shutdown_timeout_secs,
        !c.access_log <==> document.access_log == Some(false),
{
}

/// The plan of a listener listens on its address and goes to its own upstream.
pub proof fn law_plan_of_a_listener(plan: ListenerPlan, listener: ListenerConfig)
    requires
        is_plan_of(plan, listener),
    ensures
        plan.listen@ == listener.listen@,
        "https://"@.is_prefix_of(listener.upstream@),
        uri::spells_https(listener.upstream@, plan.upstream.base@),
        uri::uri_parse(listener.upstream@) == Ok::<uri::UriView, Seq<char>>(plan.upstream.base@),
        plan.upstream.base@.authority_text() == Some(plan.upstream.authority@),
        plan.upstream.host@ == uri::host_in(plan.upstream.authority@),
        uri::port_in(plan.upstream.authority@) matches Some(port) ==> plan.upstream.port == port,
        uri::port_in(plan.upstream.authority@) is None ==> plan.upstream.port == 443,
{
}

/// A request is forwarded by reading its body, connecting, starting TLS, shaking hands, sending, and
/// reading the response, in this order; the response is there after the last of these alone.
pub proof fn law_order_of_phases(host_is_server_name: bool)
    ensures
        next_of(Phase::ReadBody, Ok(()), host_is_server_name) == NextView::Do(Phase::Connect),
        host_is_server_name ==> next_of(Phase::Connect, Ok(()), host_is_server_name)
            == NextView::Do(Phase::StartTls),
        !host_is_server_name ==> next_of(Phase::Connect, Ok(()), host_is_server_name)
            == NextView::Fail("invalid dns name"@),
        next_of(Phase::StartTls, Ok(()), host_is_server_name) == NextView::Do(Phase::Handshake),
        next_of(Phase::Handshake, Ok(()), host_is_server_name) == NextView::Do(Phase::Send),
        next_of(Phase::Send, Ok(()), host_is_server_name) == NextView::Do(Phase::ReadResponse),
        next_of(Phase::ReadResponse, Ok(()), host_is_server_name) == NextView::Complete,
{
}

/// A phase that fails ends the forwarding with its reason, and the start of TLS says so before it.
pub proof fn law_failed_phase(phase: Phase, reason: String, host_is_server_name: bool, next: Next)
    requires
        next@ == next_of(
            phase,
            phase_end(Err::<(), String>(reason)),
            host_is_server_name,
        ),
    ensures
        phase == Phase::StartTls ==> (next matches Next::Fail(words) && words@
            == "tls connect failed: "@ + reason@),
        phase != Phase::StartTls ==> (next matches Next::Fail(words) && words@ == reason@),
{
}

/// A phase that succeeds is seen to, and the step that comes next is the one that is shown.
pub proof fn law_steps_as_shown(next: Next)
    ensures
        phase_end(Ok::<(), String>(())) is Ok,
        next@ matches NextView::Do(phase) ==> next == Next::Do(phase),
        next@ is Complete ==> next is Complete,
{
}

/// The status of an answer is that of the reply or of the upstream.
pub proof fn law_status_of(answer: Answer)
    ensures
        answer matches Answer::Own(reply) ==> status_of(answer) == reply.status,
        answer matches Answer::Upstream { status, .. } ==> status_of(answer) == status,
{
}

/// An upstream that a text stands for has the parts that the text spells, and its authority can be
/// the value of a header; the text is not blank and begins with `https://`.
pub proof fn law_upstream_from(raw: Seq<char>, upstream: UpstreamView)
    requires
        is_upstream_from(raw, upstream),
    ensures
        raw.len() >= 8,
        raw.take(8) == "https://"@,
        text::trimmed(raw).len() > 0,
        uri::spells_https(raw, upstream.base),
        upstream.base.authority_text() == Some(upstream.authority),
        upstream.host == uri::host_in(upstream.authority),
        uri::port_in(upstream.authority) matches Some(port) ==> upstream.port == port,
        uri::port_in(upstream.authority) is None ==> upstream.port == 443,
        headers::is_header_value(encode_utf8(upstream.authority)),
{
    reveal_strlit("https://");
    assert(raw.take(8) =~= "https://"@);
}

} // verus!
