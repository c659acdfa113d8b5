//! The configuration: what a document may leave out, and what makes its listeners acceptable.

use vstd::prelude::*;
use vstd::string::*;

use crate::error;
use crate::error::AppError;
use crate::net::SocketAddr;
use crate::text;
use crate::uri;
use crate::uri::Uri;

verus! {

/// The lowest TLS version that is spoken with an upstream.
#[derive(Debug, Clone, Copy, PartialEq, Eq, Structural)]
pub enum TlsMinVersion {
    V1_2,
    V1_3,
}

/// One address to listen on, and the upstream that its requests go to.
#[derive(Debug, Clone)]
pub struct ListenerConfig {
    pub bind: SocketAddr,
    pub upstream: String,
}

#[derive(Debug, Clone)]
pub struct TlsConfig {
    pub min_version: String,
    pub insecure_skip_verify: bool,
}

/// The timeouts in milliseconds.
#[derive(Debug, Clone, Copy)]
pub struct TimeoutConfig {
    pub connect_ms: u64,
    pub request_ms: u64,
    pub idle_ms: u64,
}

#[derive(Debug, Clone)]
pub struct LoggingConfig {
    pub level: String,
    pub access_log: bool,
}

#[derive(Debug, Clone)]
pub struct Config {
    pub listeners: Vec<ListenerConfig>,
    pub tls: TlsConfig,
    pub timeouts: TimeoutConfig,
    pub logging: LoggingConfig,
}

/// The TLS section of a document.
#[derive(Debug)]
pub struct TlsSection {
    pub min_version: Option<String>,
    pub insecure_skip_verify: Option<bool>,
}

/// The timeout section of a document.
#[derive(Debug)]
pub struct TimeoutSection {
    pub connect_ms: Option<u64>,
    pub request_ms: Option<u64>,
    pub idle_ms: Option<u64>,
}

/// The logging section of a document.
#[derive(Debug)]
pub struct LoggingSection {
    pub level: Option<String>,
    pub access_log: Option<bool>,
}

/// A configuration document: what it leaves out is `None`.
#[derive(Debug)]
pub struct ConfigDocument {
    pub listeners: Vec<ListenerConfig>,
    pub tls: Option<TlsSection>,
    pub timeouts: Option<TimeoutSection>,
    pub logging: Option<LoggingSection>,
}

pub fn default_min_version() -> (r: String)
    ensures
        r@ == "1.2"@,
{
    "1.2".to_owned()
}

pub fn default_connect_ms() -> (r: u64)
    ensures
        r == 5_000,
{
    5_000
}

pub fn default_request_ms() -> (r: u64)
    ensures
        r == 30_000,
{
    30_000
}

pub fn default_idle_ms() -> (r: u64)
    ensures
        r == 60_000,
{
    60_000
}

pub fn default_log_level() -> (r: String)
    ensures
        r@ == "info"@,
{
    "info".to_owned()
}

pub fn default_access_log() -> (r: bool)
    ensures
        r,
{
    true
}

/// TLS 1.2 and later, with the certificates verified.
pub open spec fn is_default_tls(c: TlsConfig) -> bool {
    c.min_version@ == "1.2"@ && !c.insecure_skip_verify
}

pub open spec fn is_default_timeouts(c: TimeoutConfig) -> bool {
    c.connect_ms == 5_000 && c.request_ms == 30_000 && c.idle_ms == 60_000
}

pub open spec fn is_default_logging(c: LoggingConfig) -> bool {
    c.level@ == "info"@ && c.access_log
}

impl Default for TlsConfig {
    fn default() -> (r: Self)
        ensures
            is_default_tls(r),
    {
        TlsConfig { min_version: default_min_version(), insecure_skip_verify: false }
    }
}

impl Default for TimeoutConfig {
    fn default() -> (r: Self)
        ensures
            is_default_timeouts(r),
    {
        TimeoutConfig {
            connect_ms: default_connect_ms(),
            request_ms: default_request_ms(),
            idle_ms: default_idle_ms(),
        }
    }
}

impl Default for LoggingConfig {
    fn default() -> (r: Self)
        ensures
            is_default_logging(r),
    {
        LoggingConfig { level: default_log_level(), access_log: default_access_log() }
    }
}

/// `given`, or where that is missing the default.
pub open spec fn or_default<T>(given: Option<T>, default: T) -> T {
    match given {
        Some(value) => value,
        None => default,
    }
}

/// `c` is what the TLS section says, with the defaults for what it leaves out.
pub open spec fn tls_as_given(section: Option<TlsSection>, c: TlsConfig) -> bool {
    match section {
        Some(s) => {
            &&& c.min_version@ == or_default(text::opt_view(s.min_version), "1.2"@)
            &&& c.insecure_skip_verify == or_default(s.insecure_skip_verify, false)
        },
        None => is_default_tls(c),
    }
}

/// `c` is what the timeout section says, with the defaults for what it leaves out.
pub open spec fn timeouts_as_given(section: Option<TimeoutSection>, c: TimeoutConfig) -> bool {
    match section {
        Some(s) => {
            &&& c.connect_ms == or_default(s.connect_ms, 5_000)
            &&& c.request_ms == or_default(s.request_ms, 30_000)
            &&& c.idle_ms == or_default(s.idle_ms, 60_000)
        },
        None => is_default_timeouts(c),
    }
}

/// `c` is what the logging section says, with the defaults for what it leaves out.
pub open spec fn logging_as_given(section: Option<LoggingSection>, c: LoggingConfig) -> bool {
    match section {
        Some(s) => {
            &&& c.level@ == or_default(text::opt_view(s.level), "info"@)
            &&& c.access_log == or_default(s.access_log, true)
        },
        None => is_default_logging(c),
    }
}

impl TlsSection {
    fn complete(self) -> (r: TlsConfig)
        ensures
            tls_as_given(Some(self), r),
    {
        TlsConfig {
            min_version: match self.min_version {
                Some(version) => version,
                None => default_min_version(),
            },
            insecure_skip_verify: match self.insecure_skip_verify {
                Some(skip) => skip,
                None => false,
            },
        }
    }
}

impl TimeoutSection {
    fn complete(self) -> (r: TimeoutConfig)
        ensures
            timeouts_as_given(Some(self), r),
    {
        TimeoutConfig {
            connect_ms: match self.connect_ms {
                Some(ms) => ms,
                None => default_connect_ms(),
            },
            request_ms: match self.request_ms {
                Some(ms) => ms,
                None => default_request_ms(),
            },
            idle_ms: match self.idle_ms {
                Some(ms) => ms,
                None => default_idle_ms(),
            },
        }
    }
}

impl LoggingSection {
    fn complete(self) -> (r: LoggingConfig)
        ensures
            logging_as_given(Some(self), r),
    {
        LoggingConfig {
            level: match self.level {
                Some(level) => level,
                None => default_log_level(),
            },
            access_log: match self.access_log {
                Some(access_log) => access_log,
                None => default_access_log(),
            },
        }
    }
}

/// What is wrong with an upstream that begins with `https://`, given what it was read as.
pub open spec fn uri_fault(
    upstream: Seq<char>,
    parsed: Result<uri::UriView, Seq<char>>,
) -> Option<Seq<char>> {
    match parsed {
        Err(message) => Some("invalid upstream URL '"@ + upstream + "': "@ + message),
        Ok(u) => if u.authority is None {
            Some("invalid upstream URL '"@ + upstream + "': missing authority"@)
        } else if u.scheme != Some("https"@) {
            Some("listener upstream must use https scheme: "@ + upstream)
        } else {
            None
        },
    }
}

/// What is wrong with the listener `i`, if anything is: an address that an earlier one has, or an
/// upstream that is no `https` URL.
pub open spec fn listener_fault(listeners: Seq<ListenerConfig>, i: int) -> Option<Seq<char>> {
    let listener = listeners[i];
    if exists|j: int| 0 <= j < i && (#[trigger] listeners[j]).bind@ == listener.bind@ {
        Some("duplicate listener bind address: "@ + listener.bind@.text())
    } else if !"https://"@.is_prefix_of(listener.upstream@) {
        Some("listener upstream must start with https://: "@ + listener.upstream@)
    } else {
        uri_fault(listener.upstream@, uri::uri_parse(listener.upstream@))
    }
}

/// What is wrong with the first listener from `i` on with which something is.
pub open spec fn first_fault(listeners: Seq<ListenerConfig>, i: int) -> Option<Seq<char>>
    decreases listeners.len() - i,
{
    if i < 0 || i >= listeners.len() {
        None
    } else {
        match listener_fault(listeners, i) {
            Some(message) => Some(message),
            None => first_fault(listeners, i + 1),
        }
    }
}

/// What is wrong with an upstream that begins with `https://`, given what it was read as.
pub fn check_parsed_upstream(upstream: &str, parsed: &Result<Uri, String>) -> (r: Option<String>)
    ensures
        text::opt_view(r) == uri_fault(upstream@, uri::outcome(*parsed)),
{
    match parsed {
        Err(message) => {
            let mut r = "invalid upstream URL '".to_owned();
            r.append(upstream);
            r.append("': ");
            r.append(message.as_str());
            Some(r)
        },
        Ok(u) => {
            let https = match &u.scheme {
                Some(scheme) => text::same_text(scheme.as_str(), "https"),
                None => false,
            };
            if u.authority.is_none() {
                let mut r = "invalid upstream URL '".to_owned();
                r.append(upstream);
                r.append("': missing authority");
                Some(r)
            } else if !https {
                let mut r = "listener upstream must use https scheme: ".to_owned();
                r.append(upstream);
                Some(r)
            } else {
                None
            }
        },
    }
}

/// Whether a listener before the one at `i` has the same address.
fn bind_is_taken(listeners: &Vec<ListenerConfig>, i: usize) -> (r: bool)
    requires
        i < listeners@.len(),
    ensures
        r == exists|j: int|
            0 <= j < i && (#[trigger] listeners@[j]).bind@ == listeners@[i as int].bind@,
{
    let mut j: usize = 0;
    while j < i
        invariant
            j <= i < listeners@.len(),
            forall|k: int|
                0 <= k < j ==> (#[trigger] listeners@[k]).bind@ != listeners@[i as int].bind@,
        decreases i - j,
    {
        if listeners[j].bind.same(&listeners[i].bind) {
            return true;
        }
        j += 1;
    }
    false
}

/// Every listener names `https://`, the name of a host and perhaps a plain path.
pub open spec fn all_plain(listeners: Seq<ListenerConfig>) -> bool {
    forall|k: int|
        0 <= k < listeners.len() ==> uri::is_plain_https((#[trigger] listeners[k]).upstream@)
}

/// No two listeners have the same address.
pub open spec fn all_distinct(listeners: Seq<ListenerConfig>) -> bool {
    forall|j: int, k: int|
        0 <= j < k < listeners.len() ==> (#[trigger] listeners[j]).bind@ != (
        #[trigger] listeners[k]).bind@
}

/// Accepts the listeners, or tells what is wrong with the first with which something is.
pub fn validate_listeners(listeners: &Vec<ListenerConfig>) -> (r: Result<(), AppError>)
    ensures
        match first_fault(listeners@, 0) {
            None => r is Ok,
            Some(message) => r is Err && r->Err_0@ == (
            error::AppErrorView::ConfigValidationError { message }),
        },
        all_plain(listeners@) && all_distinct(listeners@) ==> r is Ok,
{
    let mut i: usize = 0;
    while i < listeners.len()
        invariant
            i <= listeners@.len(),
            first_fault(listeners@, 0) == first_fault(listeners@, i as int),
        decreases listeners@.len() - i,
    {
        let listener = &listeners[i];
        assert(listeners@[i as int] == *listener);
        if bind_is_taken(listeners, i) {
            let mut message = "duplicate listener bind address: ".to_owned();
            message.append(listener.bind.to_string().as_str());
            return Err(AppError::config_validation(message.as_str()));
        }
        if !text::has_prefix(listener.upstream.as_str(), "https://") {
            let mut message = "listener upstream must start with https://: ".to_owned();
            message.append(listener.upstream.as_str());
            return Err(AppError::config_validation(message.as_str()));
        }
        let parsed = uri::parse_uri(listener.upstream.as_str());
        if let Some(message) = check_parsed_upstream(listener.upstream.as_str(), &parsed) {
            return Err(AppError::config_validation(message.as_str()));
        }
        i += 1;
    }
    Ok(())
}

/// `c` is what the document says, with the defaults for what it leaves out.
pub open spec fn as_given(document: ConfigDocument, c: Config) -> bool {
    &&& c.listeners == document.listeners
    &&& tls_as_given(document.tls, c.tls)
    &&& timeouts_as_given(document.timeouts, c.timeouts)
    &&& logging_as_given(document.logging, c.logging)
}

impl Config {
    /// The configuration that a document read from `path` gives. A document that could not be
    /// read, for the reason given in its place, and one with unacceptable listeners give an error.
    pub fn load(path: &str, document: Result<ConfigDocument, String>) -> (r: Result<Self, AppError>)
        ensures
            match document {
                Err(source) => r is Err && r->Err_0@ == (error::AppErrorView::ConfigLoadError {
                    path: path@,
                    source: source@,
                }),
                Ok(d) => match first_fault(d.listeners@, 0) {
                    Some(message) => r is Err && r->Err_0@ == (
                    error::AppErrorView::ConfigValidationError { message }),
                    None => r is Ok && as_given(d, r->Ok_0),
                },
            },
    {
        let d = match document {
            Ok(d) => d,
            Err(source) => {
                return Err(AppError::config_load(path, source.as_str()));
            },
        };
        if let Err(e) = validate_listeners(&d.listeners) {
            return Err(e);
        }
        Ok(
            Config {
                listeners: d.listeners,
                tls: match d.tls {
                    Some(section) => section.complete(),
                    None => TlsConfig::default(),
                },
                timeouts: match d.timeouts {
                    Some(section) => section.complete(),
                    None => TimeoutConfig::default(),
                },
                logging: match d.logging {
                    Some(section) => section.complete(),
                    None => LoggingConfig::default(),
                },
            },
        )
    }

    /// The warning that the configuration calls for, if it does.
    pub fn warning(&self) -> (r: Option<String>)
        ensures
            text::opt_view(r) == (if self.tls.insecure_skip_verify {
                Some(
                    "warning: tls.insecure_skip_verify=true disables upstream certificate verification"@,
                )
            } else {
                None
            }),
    {
        if self.tls.insecure_skip_verify {
            Some(
                "warning: tls.insecure_skip_verify=true disables upstream certificate verification".to_owned(),
            )
        } else {
            None
        }
    }
}

/// Two parts of a URL with one slash between them; an empty part adds nothing.
pub open spec fn joined_paths(base: Seq<char>, path: Seq<char>) -> Seq<char> {
    if base.len() == 0 {
        path
    } else if path.len() == 0 {
        base
    } else {
        text::slash_joined(base, path)
    }
}

/// Joins two parts of a URL with one slash between them; an empty part adds nothing.
pub fn join_paths(base: &str, path: &str) -> (r: String)
    ensures
        r@ == joined_paths(base@, path@),
{
    if base.is_empty() {
        return path.to_owned();
    }
    if path.is_empty() {
        return base.to_owned();
    }
    text::join_slash(base, path)
}

/// `u` is an `https` URI with an authority.
pub open spec fn is_https_uri(u: uri::UriView) -> bool {
    u.scheme == Some("https"@) && u.authority is Some
}

/// There is no first fault from `i` on if and only if no listener from there on has one.
proof fn lemma_first_fault(listeners: Seq<ListenerConfig>, i: int)
    requires
        0 <= i,
    ensures
        first_fault(listeners, i) is None <==> forall|k: int|
            i <= k < listeners.len() ==> #[trigger] listener_fault(listeners, k) is None,
    decreases listeners.len() - i,
{
    if i < listeners.len() {
        lemma_first_fault(listeners, i + 1);
    }
}

/// Listeners are accepted if and only if their addresses differ from each other and every upstream
/// begins with `https://` and is read as an `https` URI with an authority.
pub proof fn law_accepted_listeners(listeners: Seq<ListenerConfig>)
    ensures
        first_fault(listeners, 0) is None <==> {
            &&& all_distinct(listeners)
            &&& forall|k: int|
                0 <= k < listeners.len() ==> {
                    let upstream = (#[trigger] listeners[k]).upstream@;
                    &&& "https://"@.is_prefix_of(upstream)
                    &&& uri::uri_parse(upstream) is Ok
                    &&& is_https_uri(uri::uri_parse(upstream)->Ok_0)
                }
        },
{
    lemma_first_fault(listeners, 0);
    if first_fault(listeners, 0) is None {
        assert forall|j: int, k: int| 0 <= j < k < listeners.len() implies (
        #[trigger] listeners[j]).bind@ != (#[trigger] listeners[k]).bind@ by {
            assert(listener_fault(listeners, k) is None);
        }
        assert forall|k: int| 0 <= k < listeners.len() implies {
            let upstream = (#[trigger] listeners[k]).upstream@;
            &&& "https://"@.is_prefix_of(upstream)
            &&& uri::uri_parse(upstream) is Ok
            &&& is_https_uri(uri::uri_parse(upstream)->Ok_0)
        } by {
            assert(listener_fault(listeners, k) is None);
        }
    }
}

/// The parts of a URL join to the same URL whichever of them, or both, has the slash between them,
/// and if neither has it.
pub proof fn law_join_spellings(base: Seq<char>, path: Seq<char>)
    requires
        base.len() > 0,
        !text::ends_with_slash(base),
        path.len() > 0,
        !text::starts_with_slash(path),
    ensures
        joined_paths(base, path) == base + "/"@ + path,
        joined_paths(base + "/"@, path) == base + "/"@ + path,
        joined_paths(base, "/"@ + path) == base + "/"@ + path,
        joined_paths(base + "/"@, "/"@ + path) == base + "/"@ + path,
{
    reveal_strlit("/");
    text::law_slash_spellings(base, path);
}

/// What a document says holds, and what it leaves out has its default: TLS 1.2 with verified
/// certificates, 5 seconds to connect, 30 for a request, 60 idle, the level `info`, and requests
/// logged.
pub proof fn law_document_holds(d: ConfigDocument, c: Config)
    requires
        as_given(d, c),
    ensures
        c.listeners@ == d.listeners@,
        d.tls matches Some(tls) ==> (tls.min_version matches Some(v) ==> c.tls.min_version@ == v@),
        d.tls matches Some(tls) ==> (tls.min_version is None ==> c.tls.min_version@ == "1.2"@),
        d.tls matches Some(tls) ==> (tls.insecure_skip_verify == Some(true)
            <==> c.tls.insecure_skip_verify),
        d.tls is None ==> c.tls.min_version@ == "1.2"@ && !c.tls.insecure_skip_verify,
        d.timeouts matches Some(t) ==> (t.connect_ms matches Some(ms) ==> c.timeouts.connect_ms
            == ms),
        d.timeouts matches Some(t) ==> (t.connect_ms is None ==> c.timeouts.connect_ms == 5_000),
        d.timeouts matches Some(t) ==> (t.request_ms matches Some(ms) ==> c.timeouts.request_ms
            == ms),
        d.timeouts matches Some(t) ==> (t.request_ms is None ==> c.timeouts.request_ms == 30_000),
        d.timeouts matches Some(t) ==> (t.idle_ms matches Some(ms) ==> c.timeouts.idle_ms == ms),
        d.timeouts matches Some(t) ==> (t.idle_ms is None ==> c.timeouts.idle_ms == 60_000),
        d.timeouts is None ==> c.timeouts.connect_ms == 5_000 && c.timeouts.request_ms == 30_000
            && c.timeouts.idle_ms == 60_000,
        d.logging matches Some(l) ==> (l.level matches Some(level) ==> c.logging.level@ == level@),
        d.logging matches Some(l) ==> (l.level is None ==> c.logging.level@ == "info"@),
        d.logging matches Some(l) ==> (l.access_log == Some(false) <==> !c.logging.access_log),
        d.logging is None ==> c.logging.level@ == "info"@ && c.logging.access_log,
{
}

/// The defaults of the sections.
pub proof fn law_defaults(tls: TlsConfig, timeouts: TimeoutConfig, logging: LoggingConfig)
    ensures
        is_default_tls(tls) ==> tls.min_version@ == "1.2"@ && !tls.insecure_skip_verify,
        is_default_timeouts(timeouts) ==> timeouts.connect_ms == 5_000 && timeouts.request_ms
            == 30_000 && timeouts.idle_ms == 60_000,
        is_default_logging(logging) ==> logging.level@ == "info"@ && logging.access_log,
{
}

/// A listener is at fault for an address that an earlier one has, or else for an upstream that does
/// not begin with `https://`, is read as no URI, or as one without an authority or with another
/// scheme; the words name the fault and the address or the upstream.
pub proof fn law_listener_faults(listeners: Seq<ListenerConfig>, i: int, j: int)
    requires
        0 <= i < listeners.len(),
    ensures
        0 <= j < i && listeners[j].bind@ == listeners[i].bind@ ==> listener_fault(listeners, i)
            == Some("duplicate listener bind address: "@ + listeners[i].bind@.text()),
        (forall|k: int| 0 <= k < i ==> (#[trigger] listeners[k]).bind@ != listeners[i].bind@) ==> {
            let upstream = listeners[i].upstream@;
            &&& !"https://"@.is_prefix_of(upstream) ==> listener_fault(listeners, i) == Some(
                "listener upstream must start with https://: "@ + upstream,
            )
            &&& "https://"@.is_prefix_of(upstream) ==> match uri::uri_parse(upstream) {
                Err(message) => listener_fault(listeners, i) == Some(
                    "invalid upstream URL '"@ + upstream + "': "@ + message,
                ),
                Ok(u) => {
                    &&& u.authority is None ==> listener_fault(listeners, i) == Some(
                        "invalid upstream URL '"@ + upstream + "': missing authority"@,
                    )
                    &&& u.authority is Some && u.scheme != Some("https"@) ==> listener_fault(
                        listeners,
                        i,
                    ) == Some("listener upstream must use https scheme: "@ + upstream)
                    &&& u.authority is Some && u.scheme == Some("https"@) ==> listener_fault(
                        listeners,
                        i,
                    ) is None
                },
            }
        },
{
}

/// What is told of the listeners is the fault of the first that has one, and nothing just where
/// none has.
pub proof fn law_first_fault_is_told(listeners: Seq<ListenerConfig>, i: int)
    requires
        0 <= i < listeners.len(),
        forall|k: int| 0 <= k < i ==> #[trigger] listener_fault(listeners, k) is None,
    ensures
        listener_fault(listeners, i) is Some ==> first_fault(listeners, 0) == listener_fault(
            listeners,
            i,
        ),
        i + 1 == listeners.len() && listener_fault(listeners, i) is None ==> first_fault(
            listeners,
            0,
        ) is None,
{
    lemma_fault_from(listeners, 0, i);
    lemma_first_fault(listeners, 0);
}

/// Listeners without a fault are passed over.
proof fn lemma_fault_from(listeners: Seq<ListenerConfig>, from: int, i: int)
    requires
        0 <= from <= i <= listeners.len(),
        forall|k: int| from <= k < i ==> #[trigger] listener_fault(listeners, k) is None,
    ensures
        first_fault(listeners, from) == first_fault(listeners, i),
    decreases i - from,
{
    if from < i {
        lemma_fault_from(listeners, from + 1, i);
    }
}

/// Listeners on different addresses, each with `https://` and a plain URL for an upstream, meet
/// what is asked for their acceptance.
pub proof fn law_plain_listeners(listeners: Seq<ListenerConfig>)
    ensures
        (forall|k: int|
            0 <= k < listeners.len() ==> uri::is_plain_https((#[trigger] listeners[k]).upstream@))
            ==> all_plain(listeners),
        (forall|j: int, k: int|
            0 <= j < k < listeners.len() ==> (#[trigger] listeners[j]).bind@ != (
            #[trigger] listeners[k]).bind@) ==> all_distinct(listeners),
{
}

/// Both parts of a URL are there in the join: it ends with the second and begins with the first but
/// for slashes at its end, and an empty part adds nothing.
pub proof fn law_joined_parts(base: Seq<char>, path: Seq<char>)
    ensures
        path.is_suffix_of(joined_paths(base, path)),
        base.len() == 0 ==> joined_paths(base, path) == path,
        path.len() == 0 ==> joined_paths(base, path) == base,
        base.len() > 0 && path.len() > 0 && base.last() != '/' && path[0] == '/' ==> joined_paths(
            base,
            path,
        ) == base + path,
        base.len() > 0 && path.len() > 0 && base.last() == '/' && path[0] != '/' ==> joined_paths(
            base,
            path,
        ) == base + path,
        base.len() > 0 && path.len() > 0 && base.last() != '/' && path[0] != '/' ==> joined_paths(
            base,
            path,
        ) == base + seq!['/'] + path,
        base.len() > 0 && path.len() > 0 && base.last() == '/' && path[0] == '/' ==> exists|n: int|
            0 <= n < base.len() && joined_paths(base, path) == #[trigger] base.take(n) + path && (n
                == 0 || base[n - 1] != '/') && forall|i: int|
                n <= i < base.len() ==> #[trigger] base[i] == '/',
{
    let joined = joined_paths(base, path);
    if base.len() > 0 && path.len() > 0 {
        text::law_slash_join(base, path);
    } else {
        assert(path =~= joined.subrange(joined.len() - path.len(), joined.len() as int));
    }
}

/// The listeners are plain just where each of their upstreams is.
pub proof fn law_each_listener_is_plain(listeners: Seq<ListenerConfig>, last: ListenerConfig)
    ensures
        all_plain(Seq::empty()),
        all_plain(listeners.push(last)) <==> all_plain(listeners) && uri::is_plain_https(
            last.upstream@,
        ),
{
    let more = listeners.push(last);
    if all_plain(more) {
        assert(more[listeners.len() as int] == last);
        assert forall|k: int| 0 <= k < listeners.len() implies uri::is_plain_https(
            (#[trigger] listeners[k]).upstream@,
        ) by {
            assert(more[k] == listeners[k]);
        }
    }
}

} // verus!
