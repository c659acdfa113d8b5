//! The lines that are logged.

use vstd::prelude::*;
use vstd::string::*;

use crate::filter;
use crate::net;
use crate::net::SocketAddr;
use crate::text;

verus! {

/// A moment, as seconds and nanoseconds since 1970-01-01T00:00:00Z.
#[derive(Debug, Clone, Copy)]
pub struct Timestamp {
    pub secs: i64,
    pub nanos: u32,
}

/// One request and the answer to it.
#[derive(Debug, Clone)]
pub struct AccessLogEvent {
    pub timestamp: Timestamp,
    pub client_addr: SocketAddr,
    pub local_bind: SocketAddr,
    pub method: String,
    pub path: String,
    pub upstream: String,
    pub status_code: u16,
    pub latency_ms: u64,
}

/// How logging is set up: the filter, what each line shows, and whether requests are logged.
#[derive(Debug)]
pub struct LogPlan {
    pub filter: String,
    pub with_target: bool,
    pub with_level: bool,
    pub with_ansi: bool,
    pub access_log: bool,
}

/// What `DateTime::to_rfc3339_opts` writes for a moment in UTC, in whole seconds and with a `Z`;
/// none for what `DateTime::from_timestamp` takes for no moment.
pub uninterp spec fn rfc3339(secs: int, nanos: nat) -> Option<Seq<char>>;

/// `DateTime::to_rfc3339_opts` writes a moment in UTC, in whole seconds and with a `Z`.
/// `DateTime::from_timestamp` makes that moment of the two numbers; numbers that are none, such as
/// a year beyond the calendar of `chrono`, give none.
#[verifier::external_body]
pub(crate) fn rfc3339_text(at: Timestamp) -> (r: Option<String>)
    ensures
        text::opt_view(r) == rfc3339(at.secs as int, at.nanos as nat),
{
    let moment = chrono::DateTime::from_timestamp(at.secs, at.nanos)?;
    Some(moment.to_rfc3339_opts(chrono::SecondsFormat::Secs, true))
}

/// How logging is set up where `level` is asked for and the environment has `env` for a filter.
pub fn init_logging(level: &str, access_log_enabled: bool, env: Option<&str>) -> (r: LogPlan)
    ensures
        r.filter@ == filter::chosen_filter(
            text::opt_str(env),
            filter::is_some_accepted(text::opt_str(env)),
            level@,
            filter::is_accepted(level@),
        ),
        r.with_target && r.with_level && r.with_ansi,
        r.access_log == access_log_enabled,
{
    LogPlan {
        filter: filter::filter_for(level, env),
        with_target: true,
        with_level: true,
        with_ansi: true,
        access_log: access_log_enabled,
    }
}

/// A request and the answer to it in one line, without the time.
pub open spec fn request_line(
    client: net::SocketAddrView,
    bind: net::SocketAddrView,
    method: Seq<char>,
    path: Seq<char>,
    status: u16,
    latency_ms: u64,
) -> Seq<char> {
    client.text() + " -> "@ + bind.text() + " "@ + method + " "@ + path + " "@ + text::decimal(
        status as nat,
    ) + " "@ + text::decimal(latency_ms as nat) + "ms"@
}

/// A request and the answer to it in one line, without the time.
pub fn request_text(
    client: &SocketAddr,
    bind: &SocketAddr,
    method: &str,
    path: &str,
    status: u16,
    latency_ms: u64,
) -> (r: String)
    ensures
        r@ == request_line(client@, bind@, method@, path@, status, latency_ms),
{
    let mut r = client.to_string();
    r.append(" -> ");
    r.append(bind.to_string().as_str());
    r.append(" ");
    r.append(method);
    r.append(" ");
    r.append(path);
    r.append(" ");
    r.append(text::decimal_text(status as u64).as_str());
    r.append(" ");
    r.append(text::decimal_text(latency_ms).as_str());
    r.append("ms");
    r
}

/// The line of an event: the time, the client, the address that it came to, what it asked for, the
/// status of the answer and how long that took.
pub open spec fn access_line(time: Seq<char>, event: AccessLogEvent) -> Seq<char> {
    time + " "@ + request_line(
        event.client_addr@,
        event.local_bind@,
        event.method@,
        event.path@,
        event.status_code,
        event.latency_ms,
    )
}

/// The line of an event, given its time as text.
pub fn access_text(time: &str, event: &AccessLogEvent) -> (r: String)
    ensures
        r@ == access_line(time@, *event),
{
    let mut r = time.to_owned();
    r.append(" ");
    r.append(
        request_text(
            &event.client_addr,
            &event.local_bind,
            event.method.as_str(),
            event.path.as_str(),
            event.status_code,
            event.latency_ms,
        ).as_str(),
    );
    r
}

/// The line of an event, where requests are logged.
pub fn log_access(plan: &LogPlan, event: &AccessLogEvent) -> (r: Option<String>)
    ensures
        text::opt_view(r) == match rfc3339(
            event.timestamp.secs as int,
            event.timestamp.nanos as nat,
        ) {
            Some(time) => if plan.access_log {
                Some(access_line(time, *event))
            } else {
                None
            },
            None => None,
        },
{
    if !plan.access_log {
        return None;
    }
    match rfc3339_text(event.timestamp) {
        Some(time) => Some(access_text(time.as_str(), event)),
        None => None,
    }
}

/// The line for one mapping.
pub open spec fn mapping_line(mapping: (String, String)) -> Seq<char> {
    "Upstream mapping: "@ + mapping.0@ + " -> "@ + mapping.1@
}

/// The lines of a start: the address, then one for each mapping, or one that says that there are
/// none.
pub open spec fn startup_lines(bind: Seq<char>, mappings: Seq<(String, String)>) -> Seq<Seq<char>> {
    seq!["RetroTLS starting on "@ + bind] + (if mappings.len() == 0 {
        seq!["No upstream mappings configured"@]
    } else {
        mappings.map_values(|mapping: (String, String)| mapping_line(mapping))
    })
}

/// The lines of a start.
pub fn log_startup(bind_addr: &SocketAddr, upstream_mappings: &Vec<(String, String)>) -> (r: Vec<
    String,
>)
    ensures
        text::texts(r@) == startup_lines(bind_addr@.text(), upstream_mappings@),
{
    let mut first = "RetroTLS starting on ".to_owned();
    first.append(bind_addr.to_string().as_str());
    let mut r: Vec<String> = Vec::new();
    r.push(first);
    if upstream_mappings.len() == 0 {
        r.push("No upstream mappings configured".to_owned());
        assert(text::texts(r@) =~= startup_lines(bind_addr@.text(), upstream_mappings@));
        return r;
    }
    let mut i: usize = 0;
    while i < upstream_mappings.len()
        invariant
            i <= upstream_mappings@.len(),
            upstream_mappings@.len() > 0,
            r@.len() == i + 1,
            text::texts(r@) == startup_lines(bind_addr@.text(), upstream_mappings@).take(i + 1),
        decreases upstream_mappings@.len() - i,
    {
        let ghost before = r@;
        let mut line = "Upstream mapping: ".to_owned();
        line.append(upstream_mappings[i].0.as_str());
        line.append(" -> ");
        line.append(upstream_mappings[i].1.as_str());
        assert(line@ == mapping_line(upstream_mappings@[i as int]));
        r.push(line);
        assert(text::texts(r@) =~= text::texts(before).push(line@));
        i += 1;
        assert(text::texts(r@) =~= startup_lines(bind_addr@.text(), upstream_mappings@).take(
            i + 1,
        ));
    }
    assert(startup_lines(bind_addr@.text(), upstream_mappings@).take(i + 1) =~= startup_lines(
        bind_addr@.text(),
        upstream_mappings@,
    ));
    r
}

/// The line of an error.
pub fn log_error(context: &str, err: &str) -> (r: String)
    ensures
        r@ == context@ + ": "@ + err@,
{
    let mut r = context.to_owned();
    r.append(": ");
    r.append(err);
    r
}

/// The line of a shutdown.
pub fn log_shutdown(reason: &str) -> (r: String)
    ensures
        r@ == "RetroTLS shutting down: "@ + reason@,
{
    let mut r = "RetroTLS shutting down: ".to_owned();
    r.append(reason);
    r
}

/// The line of a request names, in this order, the client, the address that it came to, the method,
/// the path, the status and the time that it took.
pub proof fn law_request_line(
    client: SocketAddr,
    bind: SocketAddr,
    method: Seq<char>,
    path: Seq<char>,
    status: u16,
    latency_ms: u64,
)
    ensures
        request_line(client@, bind@, method, path, status, latency_ms) == client@.text() + " -> "@
            + bind@.text() + " "@ + method + " "@ + path + " "@ + text::decimal(status as nat) + " "@
            + text::decimal(latency_ms as nat) + "ms"@,
{
}

/// The line of an event is its time, a space, and the line of its own request and answer.
pub proof fn law_access_line(time: Seq<char>, event: AccessLogEvent)
    ensures
        access_line(time, event) == time + " "@ + (event.client_addr@.text() + " -> "@
            + event.local_bind@.text() + " "@ + event.method@ + " "@ + event.path@ + " "@
            + text::decimal(event.status_code as nat) + " "@ + text::decimal(
            event.latency_ms as nat,
        ) + "ms"@),
{
}

/// A start is told by its address, and then by one line for each mapping, in order, or by one that
/// says that there are none.
pub proof fn law_startup_lines(bind: Seq<char>, mappings: Seq<(String, String)>)
    ensures
        startup_lines(bind, mappings)[0] == "RetroTLS starting on "@ + bind,
        mappings.len() == 0 ==> startup_lines(bind, mappings).len() == 2 && startup_lines(
            bind,
            mappings,
        )[1] == "No upstream mappings configured"@,
        mappings.len() > 0 ==> startup_lines(bind, mappings).len() == mappings.len() + 1,
        forall|i: int|
            0 <= i < mappings.len() ==> #[trigger] startup_lines(bind, mappings)[i + 1]
                == "Upstream mapping: "@ + mappings[i].0@ + " -> "@ + mappings[i].1@,
{
}

} // verus!
