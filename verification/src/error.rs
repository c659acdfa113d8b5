//! The errors of the proxy and the HTTP status with which each is answered, and the failures with
//! which the program stops.

use vstd::prelude::*;
use vstd::string::*;

use crate::net;
use crate::net::SocketAddr;
use crate::text;
use crate::uri::UriError;

verus! {

#[derive(Debug)]
pub enum AppError {
    ConfigLoadError { path: String, source: String },
    ConfigValidationError { message: String },
    UpstreamConnectionError { url: String, source: String },
    UpstreamTimeoutError { url: String },
    InvalidRequestError { message: String },
    IoError(String),
    YamlError(String),
    HttpError(UriError),
    TlsError(String),
    InternalError(String),
}

pub enum AppErrorView {
    ConfigLoadError { path: Seq<char>, source: Seq<char> },
    ConfigValidationError { message: Seq<char> },
    UpstreamConnectionError { url: Seq<char>, source: Seq<char> },
    UpstreamTimeoutError { url: Seq<char> },
    InvalidRequestError { message: Seq<char> },
    IoError(Seq<char>),
    YamlError(Seq<char>),
    HttpError(Seq<char>),
    TlsError(Seq<char>),
    InternalError(Seq<char>),
}

impl View for AppError {
    type V = AppErrorView;

    open spec fn view(&self) -> AppErrorView {
        match self {
            AppError::ConfigLoadError { path, source } => AppErrorView::ConfigLoadError {
                path: path@,
                source: source@,
            },
            AppError::ConfigValidationError { message } => AppErrorView::ConfigValidationError {
                message: message@,
            },
            AppError::UpstreamConnectionError { url, source } => {
                AppErrorView::UpstreamConnectionError { url: url@, source: source@ }
            },
            AppError::UpstreamTimeoutError { url } => AppErrorView::UpstreamTimeoutError {
                url: url@,
            },
            AppError::InvalidRequestError { message } => AppErrorView::InvalidRequestError {
                message: message@,
            },
            AppError::IoError(source) => AppErrorView::IoError(source@),
            AppError::YamlError(source) => AppErrorView::YamlError(source@),
            AppError::HttpError(source) => AppErrorView::HttpError(source.message@),
            AppError::TlsError(message) => AppErrorView::TlsError(message@),
            AppError::InternalError(message) => AppErrorView::InternalError(message@),
        }
    }
}

impl AppErrorView {
    /// The fault lies with what the user asked for.
    pub open spec fn is_user_error(self) -> bool {
        self is InvalidRequestError || self is ConfigValidationError
    }

    /// The fault lies with the server behind the proxy.
    pub open spec fn is_upstream_error(self) -> bool {
        self is UpstreamConnectionError || self is TlsError
    }

    /// 504 where the upstream was too slow, 502 where it could not be talked to, 400 where the
    /// request was wrong, else 500.
    pub open spec fn status(self) -> u16 {
        if self is UpstreamTimeoutError {
            504
        } else if self.is_upstream_error() {
            502
        } else if self is InvalidRequestError {
            400
        } else {
            500
        }
    }

    /// The error in words.
    pub open spec fn message(self) -> Seq<char> {
        match self {
            AppErrorView::ConfigLoadError { path, source } => "Failed to load config from "@ + path
                + ": "@ + source,
            AppErrorView::ConfigValidationError { message } => "Configuration validation error: "@
                + message,
            AppErrorView::UpstreamConnectionError { url, source } => {
                "Failed to connect to upstream "@ + url + ": "@ + source
            },
            AppErrorView::UpstreamTimeoutError { url } => "Upstream timeout: "@ + url,
            AppErrorView::InvalidRequestError { message } => "Invalid request: "@ + message,
            AppErrorView::IoError(source) => "IO error: "@ + source,
            AppErrorView::YamlError(source) => "YAML parsing error: "@ + source,
            AppErrorView::HttpError(source) => "HTTP error: "@ + source,
            AppErrorView::TlsError(message) => "TLS error: "@ + message,
            AppErrorView::InternalError(message) => "Internal error: "@ + message,
        }
    }
}

/// Two texts, one behind the other.
fn joined(first: &str, second: &str) -> (r: String)
    ensures
        r@ == first@ + second@,
{
    let mut r = first.to_owned();
    r.append(second);
    r
}

impl AppError {
    /// The HTTP status with which the error is answered.
    pub fn to_status_code(&self) -> (r: u16)
        ensures
            r == self@.status(),
    {
        match self {
            AppError::ConfigLoadError { .. } => 500,
            AppError::ConfigValidationError { .. } => 500,
            AppError::UpstreamConnectionError { .. } => 502,
            AppError::UpstreamTimeoutError { .. } => 504,
            AppError::InvalidRequestError { .. } => 400,
            AppError::IoError(_) => 500,
            AppError::YamlError(_) => 500,
            AppError::HttpError(_) => 500,
            AppError::TlsError(_) => 502,
            AppError::InternalError(_) => 500,
        }
    }

    /// Whether the fault lies with what the user asked for.
    pub fn is_user_error(&self) -> (r: bool)
        ensures
            r == self@.is_user_error(),
    {
        matches!(self, AppError::InvalidRequestError { .. } | AppError::ConfigValidationError { .. })
    }

    /// The error in words.
    pub fn message(&self) -> (r: String)
        ensures
            r@ == self@.message(),
    {
        match self {
            AppError::ConfigLoadError { path, source } => {
                let mut r = joined("Failed to load config from ", path.as_str());
                r.append(": ");
                r.append(source.as_str());
                r
            },
            AppError::ConfigValidationError { message } => joined(
                "Configuration validation error: ",
                message.as_str(),
            ),
            AppError::UpstreamConnectionError { url, source } => {
                let mut r = joined("Failed to connect to upstream ", url.as_str());
                r.append(": ");
                r.append(source.as_str());
                r
            },
            AppError::UpstreamTimeoutError { url } => joined("Upstream timeout: ", url.as_str()),
            AppError::InvalidRequestError { message } => joined(
                "Invalid request: ",
                message.as_str(),
            ),
            AppError::IoError(source) => joined("IO error: ", source.as_str()),
            AppError::YamlError(source) => joined("YAML parsing error: ", source.as_str()),
            AppError::HttpError(source) => joined("HTTP error: ", source.message.as_str()),
            AppError::TlsError(message) => joined("TLS error: ", message.as_str()),
            AppError::InternalError(message) => joined("Internal error: ", message.as_str()),
        }
    }

    pub fn config_load(path: &str, source: &str) -> (r: Self)
        ensures
            r@ == (AppErrorView::ConfigLoadError { path: path@, source: source@ }),
    {
        AppError::ConfigLoadError { path: path.to_owned(), source: source.to_owned() }
    }

    pub fn config_validation(message: &str) -> (r: Self)
        ensures
            r@ == (AppErrorView::ConfigValidationError { message: message@ }),
    {
        AppError::ConfigValidationError { message: message.to_owned() }
    }

    pub fn upstream_connection(url: &str, source: &str) -> (r: Self)
        ensures
            r@ == (AppErrorView::UpstreamConnectionError { url: url@, source: source@ }),
    {
        AppError::UpstreamConnectionError { url: url.to_owned(), source: source.to_owned() }
    }

    pub fn upstream_timeout(url: &str) -> (r: Self)
        ensures
            r@ == (AppErrorView::UpstreamTimeoutError { url: url@ }),
    {
        AppError::UpstreamTimeoutError { url: url.to_owned() }
    }

    pub fn invalid_request(message: &str) -> (r: Self)
        ensures
            r@ == (AppErrorView::InvalidRequestError { message: message@ }),
    {
        AppError::InvalidRequestError { message: message.to_owned() }
    }

    pub fn internal(message: &str) -> (r: Self)
        ensures
            r@ == AppErrorView::InternalError(message@),
    {
        AppError::InternalError(message.to_owned())
    }

    pub fn tls(message: &str) -> (r: Self)
        ensures
            r@ == AppErrorView::TlsError(message@),
    {
        AppError::TlsError(message.to_owned())
    }
}

impl From<UriError> for AppError {
    fn from(source: UriError) -> (r: Self) {
        AppError::HttpError(source)
    }
}

impl vstd::std_specs::convert::FromSpecImpl<UriError> for AppError {
    open spec fn obeys_from_spec() -> bool {
        true
    }

    open spec fn from_spec(source: UriError) -> Self {
        AppError::HttpError(source)
    }
}

/// Every error is answered with an error status. A 400 is answered to user errors alone; a user
/// error is never blamed on the upstream, and an upstream error never on the user.
pub proof fn law_status_tells_the_fault(e: AppErrorView)
    ensures
        400 <= e.status() < 600,
        e.status() == 400 ==> e.is_user_error(),
        e.is_user_error() ==> e.status() != 502 && e.status() != 504,
        e.status() == 502 || e.status() == 504 ==> !e.is_user_error(),
{
}

/// Why the program stops with a failure.
#[derive(Debug)]
pub enum RunError {
    ConfigNotFound { path: String },
    ConfigRead { path: String, source: String },
    ConfigParse { path: String, source: String },
    ConfigValidation(String),
    BindFailed { addr: SocketAddr, source: String },
    ListenerTask(String),
    AlreadyRunning(u32),
    NotRunning,
    Io(String),
}

pub enum RunErrorView {
    ConfigNotFound { path: Seq<char> },
    ConfigRead { path: Seq<char>, source: Seq<char> },
    ConfigParse { path: Seq<char>, source: Seq<char> },
    ConfigValidation(Seq<char>),
    BindFailed { addr: net::SocketAddrView, source: Seq<char> },
    ListenerTask(Seq<char>),
    AlreadyRunning(u32),
    NotRunning,
    Io(Seq<char>),
}

impl View for RunError {
    type V = RunErrorView;

    open spec fn view(&self) -> RunErrorView {
        match self {
            RunError::ConfigNotFound { path } => RunErrorView::ConfigNotFound { path: path@ },
            RunError::ConfigRead { path, source } => RunErrorView::ConfigRead {
                path: path@,
                source: source@,
            },
            RunError::ConfigParse { path, source } => RunErrorView::ConfigParse {
                path: path@,
                source: source@,
            },
            RunError::ConfigValidation(message) => RunErrorView::ConfigValidation(message@),
            RunError::BindFailed { addr, source } => RunErrorView::BindFailed {
                addr: addr@,
                source: source@,
            },
            RunError::ListenerTask(message) => RunErrorView::ListenerTask(message@),
            RunError::AlreadyRunning(pid) => RunErrorView::AlreadyRunning(*pid),
            RunError::NotRunning => RunErrorView::NotRunning,
            RunError::Io(source) => RunErrorView::Io(source@),
        }
    }
}

impl RunErrorView {
    /// The failure in words.
    pub open spec fn message(self) -> Seq<char> {
        match self {
            RunErrorView::ConfigNotFound { path } => "Configuration file not found: "@ + path,
            RunErrorView::ConfigRead { path, source } => "Failed to read configuration file "@
                + path + ": "@ + source,
            RunErrorView::ConfigParse { path, source } => "Failed to parse configuration file "@
                + path + ": "@ + source,
            RunErrorView::ConfigValidation(message) => "Configuration error: "@ + message,
            RunErrorView::BindFailed { addr, source } => "Failed to bind listener on "@
                + addr.text() + ": "@ + source,
            RunErrorView::ListenerTask(message) => "Listener task failed: "@ + message,
            RunErrorView::AlreadyRunning(pid) => "Daemon already running (PID: "@ + text::decimal(
                pid as nat,
            ) + ")"@,
            RunErrorView::NotRunning => "Daemon not running"@,
            RunErrorView::Io(source) => "IO error: "@ + source,
        }
    }
}

impl RunError {
    /// The failure in words.
    pub fn message(&self) -> (r: String)
        ensures
            r@ == self@.message(),
    {
        match self {
            RunError::ConfigNotFound { path } => joined(
                "Configuration file not found: ",
                path.as_str(),
            ),
            RunError::ConfigRead { path, source } => {
                let mut r = joined("Failed to read configuration file ", path.as_str());
                r.append(": ");
                r.append(source.as_str());
                r
            },
            RunError::ConfigParse { path, source } => {
                let mut r = joined("Failed to parse configuration file ", path.as_str());
                r.append(": ");
                r.append(source.as_str());
                r
            },
            RunError::ConfigValidation(message) => joined(
                "Configuration error: ",
                message.as_str(),
            ),
            RunError::BindFailed { addr, source } => {
                let mut r = joined("Failed to bind listener on ", addr.to_string().as_str());
                r.append(": ");
                r.append(source.as_str());
                r
            },
            RunError::ListenerTask(message) => joined("Listener task failed: ", message.as_str()),
            RunError::AlreadyRunning(pid) => {
                let mut r = joined(
                    "Daemon already running (PID: ",
                    text::decimal_text(*pid as u64).as_str(),
                );
                r.append(")");
                r
            },
            RunError::NotRunning => "Daemon not running".to_owned(),
            RunError::Io(source) => joined("IO error: ", source.as_str()),
        }
    }
}

/// A timeout of the upstream is answered with 504, an upstream that cannot be reached or spoken TLS
/// with with 502, a wrong request with 400, and everything else with 500; the user is at fault for a
/// wrong request and a wrong configuration alone.
pub proof fn law_each_status(e: AppError)
    ensures
        e@.status() == 504 <==> e is UpstreamTimeoutError,
        e@.status() == 502 <==> e is UpstreamConnectionError || e is TlsError,
        e@.status() == 400 <==> e is InvalidRequestError,
        e@.status() == 500 <==> e is ConfigLoadError || e is ConfigValidationError || e is IoError
            || e is YamlError || e is HttpError || e is InternalError,
        e@.is_user_error() <==> e is InvalidRequestError || e is ConfigValidationError,
{
}

/// The words of an error name what went wrong and end with all that is known of it.
pub proof fn law_error_words(e: AppError)
    ensures
        match e {
            AppError::ConfigLoadError { path, source } => e@.message()
                == "Failed to load config from "@ + path@ + ": "@ + source@,
            AppError::ConfigValidationError { message } => e@.message()
                == "Configuration validation error: "@ + message@,
            AppError::UpstreamConnectionError { url, source } => e@.message()
                == "Failed to connect to upstream "@ + url@ + ": "@ + source@,
            AppError::UpstreamTimeoutError { url } => e@.message() == "Upstream timeout: "@ + url@,
            AppError::InvalidRequestError { message } => e@.message() == "Invalid request: "@
                + message@,
            AppError::IoError(source) => e@.message() == "IO error: "@ + source@,
            AppError::YamlError(source) => e@.message() == "YAML parsing error: "@ + source@,
            AppError::HttpError(source) => e@.message() == "HTTP error: "@ + source.message@,
            AppError::TlsError(message) => e@.message() == "TLS error: "@ + message@,
            AppError::InternalError(message) => e@.message() == "Internal error: "@ + message@,
        },
{
}

/// The words of a failure name what went wrong, and where, and end with all that is known of it.
pub proof fn law_failure_words(e: RunError)
    ensures
        match e {
            RunError::ConfigNotFound { path } => e@.message() == "Configuration file not found: "@
                + path@,
            RunError::ConfigRead { path, source } => e@.message()
                == "Failed to read configuration file "@ + path@ + ": "@ + source@,
            RunError::ConfigParse { path, source } => e@.message()
                == "Failed to parse configuration file "@ + path@ + ": "@ + source@,
            RunError::ConfigValidation(message) => e@.message() == "Configuration error: "@
                + message@,
            RunError::BindFailed { addr, source } => e@.message() == "Failed to bind listener on "@
                + addr@.text() + ": "@ + source@,
            RunError::ListenerTask(message) => e@.message() == "Listener task failed: "@ + message@,
            RunError::AlreadyRunning(pid) => e@.message() == "Daemon already running (PID: "@
                + text::decimal(pid as nat) + ")"@,
            RunError::NotRunning => e@.message() == "Daemon not running"@,
            RunError::Io(source) => e@.message() == "IO error: "@ + source@,
        },
{
}

/// Two failures that differ in their kind, their place or their cause differ in their views.
pub proof fn law_failures_differ(a: RunError, b: RunError)
    requires
        a@ == b@,
    ensures
        a is NotRunning <==> b is NotRunning,
        a matches RunError::AlreadyRunning(pid) ==> b == a && b->AlreadyRunning_0 == pid,
        a matches RunError::ConfigValidation(m) ==> b is ConfigValidation
            && b->ConfigValidation_0@ == m@,
        a matches RunError::ListenerTask(m) ==> b is ListenerTask && b->ListenerTask_0@ == m@,
        a matches RunError::ConfigRead { path, source } ==> (b matches RunError::ConfigRead {
            path: path2,
            source: source2,
        } && path2@ == path@ && source2@ == source@),
        a matches RunError::ConfigParse { path, source } ==> (b matches RunError::ConfigParse {
            path: path2,
            source: source2,
        } && path2@ == path@ && source2@ == source@),
        a matches RunError::BindFailed { addr, source } ==> (b matches RunError::BindFailed {
            addr: addr2,
            source: source2,
        } && addr2@ == addr@ && source2@ == source@),
{
}

} // verus!
