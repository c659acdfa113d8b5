//! The life of the program: where it keeps its files, what the command line asks for, how it
//! starts, serves and stops.

use vstd::prelude::*;
use vstd::string::*;

use crate::bridge;
use crate::bridge::{Config, ConfigDocument, ListenerPlan};
use crate::error;
use crate::error::RunError;
use crate::filter;
use crate::net::{SocketAddr, SocketAddrView};
use crate::text;
use crate::uri;

verus! {

/// The version of the program.
pub fn version() -> (r: String)
    ensures
        r@ == "1.1.0"@,
{
    "1.1.0".to_owned()
}

/// `part` below the directory `base`.
pub open spec fn path_below(base: Seq<char>, part: Seq<char>) -> Seq<char> {
    if base.len() == 0 || text::ends_with_slash(base) {
        base + part
    } else {
        base + "/"@ + part
    }
}

/// `part` below the directory `base`.
fn join_path(base: &str, part: &str) -> (r: String)
    ensures
        r@ == path_below(base@, part@),
{
    let cs = text::chars_of(base);
    let mut r = base.to_owned();
    if cs.len() > 0 && cs[cs.len() - 1] != '/' {
        r.append("/");
    }
    r.append(part);
    assert(r@ =~= path_below(base@, part@));
    r
}

/// The directory of the program's own files: below the home, or below the working directory where
/// there is no home.
pub open spec fn home_dir(home: Option<Seq<char>>) -> Seq<char> {
    match home {
        Some(dir) => path_below(dir, ".retrotls"@),
        None => ".retrotls"@,
    }
}

/// The directory of the program's own files.
pub fn retrotls_home(home: Option<&str>) -> (r: String)
    ensures
        r@ == home_dir(text::opt_str(home)),
{
    match home {
        Some(dir) => join_path(dir, ".retrotls"),
        None => ".retrotls".to_owned(),
    }
}

/// The file that holds the process ID.
pub fn pid_file_path(home: Option<&str>) -> (r: String)
    ensures
        r@ == path_below(home_dir(text::opt_str(home)), "retrotls.pid"@),
{
    join_path(retrotls_home(home).as_str(), "retrotls.pid")
}

/// The file that is logged to.
pub fn log_file_path(home: Option<&str>) -> (r: String)
    ensures
        r@ == path_below(
            path_below(home_dir(text::opt_str(home)), "logs"@),
            "retrotls.log"@,
        ),
{
    join_path(join_path(retrotls_home(home).as_str(), "logs").as_str(), "retrotls.log")
}

/// The configuration file where none is given.
pub open spec fn config_file(home: Option<Seq<char>>) -> Seq<char> {
    match home {
        Some(dir) => path_below(
            path_below(path_below(dir, ".config"@), "retrotls"@),
            "config.yaml"@,
        ),
        None => ".retrotls/config.yaml"@,
    }
}

/// The configuration file where none is given.
pub fn default_config_path(home: Option<&str>) -> (r: String)
    ensures
        r@ == config_file(text::opt_str(home)),
{
    match home {
        Some(dir) => {
            let config = join_path(dir, ".config");
            join_path(join_path(config.as_str(), "retrotls").as_str(), "config.yaml")
        },
        None => ".retrotls/config.yaml".to_owned(),
    }
}

/// The process ID that a text holds: a decimal number in the range of one, with or without a plus
/// sign, and with any white space around it.
pub open spec fn pid_in(content: Seq<char>) -> Option<u32> {
    let digits = text::unsigned(text::trimmed(content));
    if text::all_digits(digits) && text::decimal_value(digits) <= u32::MAX {
        Some(text::decimal_value(digits) as u32)
    } else {
        None
    }
}

/// The process ID in a file that may be missing.
pub open spec fn pid_in_file(content: Option<Seq<char>>) -> Option<u32> {
    match content {
        Some(text) => pid_in(text),
        None => None,
    }
}

/// The number that characters spell, if they are digits and the number is in range.
fn parse_digits(cs: &Vec<char>, from: usize) -> (r: Option<u32>)
    requires
        from <= cs@.len(),
    ensures
        r == (if text::all_digits(cs@.skip(from as int)) && text::decimal_value(cs@.skip(from as int))
            <= u32::MAX {
            Some(text::decimal_value(cs@.skip(from as int)) as u32)
        } else {
            None
        }),
{
    let ghost digits = cs@.skip(from as int);
    if from == cs.len() {
        return None;
    }
    let mut value: u64 = 0;
    let mut in_range = true;
    let mut i: usize = from;
    assert(digits.take(0) =~= Seq::empty());
    while i < cs.len()
        invariant
            from <= i <= cs@.len(),
            digits == cs@.skip(from as int),
            forall|j: int| 0 <= j < i - from ==> text::is_digit(#[trigger] digits[j]),
            in_range ==> value == text::decimal_value(digits.take(i - from)) && value <= u32::MAX,
            !in_range ==> text::decimal_value(digits.take(i - from)) > u32::MAX,
        decreases cs@.len() - i,
    {
        let c = cs[i];
        let ghost n = i - from;
        assert(digits[n] == c);
        if c < '0' || c > '9' {
            assert(!text::is_digit(digits[n]));
            return None;
        }
        proof {
            assert(digits.take(n + 1).drop_last() =~= digits.take(n));
            assert(digits.take(n + 1).last() == c);
        }
        if in_range {
            value = value * 10 + (c as u64 - '0' as u64);
            if value > u32::MAX as u64 {
                in_range = false;
            }
        }
        i += 1;
    }
    assert(digits.take(i - from) =~= digits);
    if in_range {
        Some(value as u32)
    } else {
        None
    }
}

/// The process ID that a text holds.
pub fn parse_pid(content: &str) -> (r: Option<u32>)
    ensures
        r == pid_in(content@),
{
    let trimmed = text::trim(content);
    let cs = text::chars_of(trimmed.as_str());
    if cs.len() > 0 && cs[0] == '+' {
        assert(cs@.skip(1) =~= cs@.drop_first());
        parse_digits(&cs, 1)
    } else {
        assert(cs@.skip(0) =~= cs@);
        parse_digits(&cs, 0)
    }
}

/// The process ID in a file that may be missing.
pub fn read_pid_file(content: Option<&str>) -> (r: Option<u32>)
    ensures
        r == pid_in_file(text::opt_str(content)),
{
    match content {
        Some(content) => parse_pid(content),
        None => None,
    }
}

/// What is written to the file of the process ID.
pub fn write_pid_file(pid: u32) -> (r: String)
    ensures
        r@ == text::decimal(pid as nat),
{
    text::decimal_text(pid as u64)
}

proof fn lemma_decimal_value(n: nat)
    ensures
        text::decimal_value(text::decimal(n)) == n,
{
    text::lemma_decimal_value(n);
}

/// The process ID that is read is the one that was written.
pub proof fn law_pid_round_trip(pid: u32)
    ensures
        pid_in(text::decimal(pid as nat)) == Some(pid),
{
    let s = text::decimal(pid as nat);
    text::lemma_decimal_digits(pid as nat);
    lemma_decimal_value(pid as nat);
    assert('0' <= s[0] <= '9');
    assert('0' <= s[s.len() - 1] <= '9');
    assert(text::trim_start(s) == s);
    assert(text::trim_end(s) == s);
    assert forall|i: int| 0 <= i < s.len() implies text::is_digit(#[trigger] s[i]) by {}
}

/// `arg` does not ask for the foreground.
pub open spec fn is_passed_on(arg: Seq<char>) -> bool {
    arg != "--foreground"@ && arg != "-f"@
}

/// The arguments behind the name of the program.
pub open spec fn behind_program(args: Seq<Seq<char>>) -> Seq<Seq<char>> {
    if args.len() == 0 {
        args
    } else {
        args.drop_first()
    }
}

/// The arguments of the process in the background: those of this one, with the foreground asked
/// for once, at the end.
pub open spec fn background_args(args: Seq<Seq<char>>) -> Seq<Seq<char>> {
    behind_program(args).filter(|arg: Seq<char>| is_passed_on(arg)).push("--foreground"@)
}

/// The arguments of the process in the background, given those of this one.
pub fn daemonize(args: &Vec<String>) -> (r: Vec<String>)
    ensures
        text::texts(r@) == background_args(text::texts(args@)),
{
    let mut r: Vec<String> = Vec::new();
    let ghost keep = |arg: Seq<char>| is_passed_on(arg);
    let ghost rest = behind_program(text::texts(args@));
    if args.len() > 0 {
        let mut i: usize = 1;
        assert(rest.take(0).filter(keep) =~= Seq::empty()) by {
            reveal(Seq::filter);
        }
        assert(text::texts(r@) =~= Seq::empty());
        while i < args.len()
            invariant
                1 <= i <= args@.len(),
                rest == text::texts(args@).drop_first(),
                keep == (|arg: Seq<char>| is_passed_on(arg)),
                text::texts(r@) == rest.take(i - 1).filter(keep),
            decreases args@.len() - i,
        {
            let ghost before = r@;
            let arg = args[i].as_str();
            proof {
                assert(rest.take(i as int).drop_last() =~= rest.take(i - 1));
                assert(rest.take(i as int).last() == arg@);
                reveal(Seq::filter);
            }
            if !text::same_text(arg, "--foreground") && !text::same_text(arg, "-f") {
                r.push(args[i].clone());
                assert(text::texts(r@) =~= text::texts(before).push(arg@));
            }
            i += 1;
        }
        assert(rest.take(i - 1) =~= rest);
    } else {
        assert(rest =~= Seq::empty());
        assert(rest.filter(keep) =~= Seq::empty()) by {
            reveal(Seq::filter);
        }
        assert(text::texts(r@) =~= Seq::empty());
    }
    let ghost kept = r@;
    r.push("--foreground".to_owned());
    assert(text::texts(r@) =~= text::texts(kept).push("--foreground"@));
    r
}

/// Filtering what passes the filter changes nothing.
proof fn lemma_filter_all(s: Seq<Seq<char>>, keep: spec_fn(Seq<char>) -> bool)
    requires
        forall|i: int| 0 <= i < s.len() ==> keep(#[trigger] s[i]),
    ensures
        s.filter(keep) == s,
    decreases s.len(),
{
    reveal(Seq::filter);
    if s.len() > 0 {
        lemma_filter_all(s.drop_last(), keep);
        assert(s.drop_last().push(s.last()) =~= s);
    }
}

/// The process in the background asks for the foreground once, with its last argument, and so
/// would hand on the arguments that it has.
pub proof fn law_background_args(args: Seq<Seq<char>>, program: Seq<char>)
    ensures
        background_args(args).last() == "--foreground"@,
        forall|i: int|
            0 <= i < background_args(args).len() - 1 ==> is_passed_on(
                #[trigger] background_args(args)[i],
            ),
        background_args(seq![program] + background_args(args)) == background_args(args),
{
    let keep = |arg: Seq<char>| is_passed_on(arg);
    let kept = behind_program(args).filter(keep);
    let r = background_args(args);
    assert forall|i: int| 0 <= i < r.len() - 1 implies is_passed_on(#[trigger] r[i]) by {
        assert(kept[i] == r[i]);
        behind_program(args).lemma_filter_pred(keep, i);
    }
    assert forall|i: int| 0 <= i < kept.len() implies keep(#[trigger] kept[i]) by {
        assert(is_passed_on(r[i]));
    }
    lemma_filter_all(kept, keep);
    assert((seq![program] + r).drop_first() =~= r);
    assert(r.drop_last() =~= kept);
    reveal(Seq::filter);
    assert(r.filter(keep) == kept);
}

/// What the command line says.
#[derive(Debug)]
pub struct Cli {
    pub command: Option<String>,
    pub config: Option<String>,
    pub check: bool,
    pub version: bool,
    pub log_level: Option<String>,
    pub foreground: bool,
}

/// What the program is to do.
#[derive(Debug)]
pub enum Plan {
    PrintVersion(String),
    Stop,
    Usage(Vec<String>),
    Check { config_path: String },
    Start { config_path: String, log_level: String, foreground: bool },
}

pub enum PlanView {
    PrintVersion(Seq<char>),
    Stop,
    Usage(Seq<Seq<char>>),
    Check { config_path: Seq<char> },
    Start { config_path: Seq<char>, log_level: Seq<char>, foreground: bool },
}

impl View for Plan {
    type V = PlanView;

    open spec fn view(&self) -> PlanView {
        match self {
            Plan::PrintVersion(line) => PlanView::PrintVersion(line@),
            Plan::Stop => PlanView::Stop,
            Plan::Usage(lines) => PlanView::Usage(text::texts(lines@)),
            Plan::Check { config_path } => PlanView::Check { config_path: config_path@ },
            Plan::Start { config_path, log_level, foreground } => PlanView::Start {
                config_path: config_path@,
                log_level: log_level@,
                foreground: *foreground,
            },
        }
    }
}

/// `given`, or where that is missing the default.
pub open spec fn or_default(given: Option<Seq<char>>, default: Seq<char>) -> Seq<char> {
    match given {
        Some(value) => value,
        None => default,
    }
}

/// What the program is to do: `--version` comes before any command, a command before `--check`,
/// and with no command it starts.
pub open spec fn plan_of(cli: Cli, home: Option<Seq<char>>) -> PlanView {
    let command = text::opt_view(cli.command);
    let config_path = or_default(text::opt_view(cli.config), config_file(home));
    if cli.version {
        PlanView::PrintVersion("1.1.0"@)
    } else if command == Some("stop"@) {
        PlanView::Stop
    } else if command is Some && command != Some("start"@) {
        PlanView::Usage(
            seq![
                "Unknown command: "@ + command->Some_0,
                "Usage: retrotls [start|stop] [options]"@,
            ],
        )
    } else if cli.check {
        PlanView::Check { config_path }
    } else {
        PlanView::Start {
            config_path,
            log_level: or_default(text::opt_view(cli.log_level), "info"@),
            foreground: cli.foreground,
        }
    }
}

impl Cli {
    /// What the program is to do, with the home directory where there is one.
    pub fn plan(&self, home: Option<&str>) -> (r: Plan)
        ensures
            r@ == plan_of(*self, text::opt_str(home)),
    {
        if self.version {
            return Plan::PrintVersion(version());
        }
        if let Some(command) = &self.command {
            if text::same_text(command.as_str(), "stop") {
                return Plan::Stop;
            }
            if !text::same_text(command.as_str(), "start") {
                let mut first = "Unknown command: ".to_owned();
                first.append(command.as_str());
                let lines: Vec<String> = vec![
                    first,
                    "Usage: retrotls [start|stop] [options]".to_owned(),
                ];
                assert(text::texts(lines@) =~= seq![
                    "Unknown command: "@ + command@,
                    "Usage: retrotls [start|stop] [options]"@,
                ]);
                return Plan::Usage(lines);
            }
        }
        let config_path = match &self.config {
            Some(path) => path.clone(),
            None => default_config_path(home),
        };
        if self.check {
            return Plan::Check { config_path };
        }
        let log_level = match &self.log_level {
            Some(level) => level.clone(),
            None => "info".to_owned(),
        };
        Plan::Start { config_path, log_level, foreground: self.foreground }
    }
}

/// What comes next in a start.
#[derive(Debug)]
pub enum StartStep {
    AskWhetherRunning(u32),
    Refuse(RunError),
    Go { remove_pid_file: bool, daemonize: bool },
}

/// What comes next in a start, given what the file of the process ID holds and, once that is
/// known, whether that process runs: a running one forbids the start, and the file of one that does
/// not run is removed.
pub open spec fn is_start_step(
    step: StartStep,
    pid_file: Option<Seq<char>>,
    running: Option<bool>,
    foreground: bool,
) -> bool {
    match (pid_in_file(pid_file), running) {
        (None, _) => step == (StartStep::Go { remove_pid_file: false, daemonize: !foreground }),
        (Some(pid), None) => step == StartStep::AskWhetherRunning(pid),
        (Some(pid), Some(true)) => step is Refuse && step->Refuse_0@
            == error::RunErrorView::AlreadyRunning(pid),
        (Some(_), Some(false)) => step == (StartStep::Go {
            remove_pid_file: true,
            daemonize: !foreground,
        }),
    }
}

/// What comes next in a start.
pub fn start_step(pid_file: Option<&str>, running: Option<bool>, foreground: bool) -> (r: StartStep)
    ensures
        is_start_step(r, text::opt_str(pid_file), running, foreground),
{
    match read_pid_file(pid_file) {
        None => StartStep::Go { remove_pid_file: false, daemonize: !foreground },
        Some(pid) => match running {
            None => StartStep::AskWhetherRunning(pid),
            Some(true) => StartStep::Refuse(RunError::AlreadyRunning(pid)),
            Some(false) => StartStep::Go { remove_pid_file: true, daemonize: !foreground },
        },
    }
}

/// After a process has written its ID, no other starts while that process runs.
pub proof fn law_one_daemon_at_a_time(pid: u32, step: StartStep, foreground: bool)
    requires
        is_start_step(step, Some(text::decimal(pid as nat)), Some(true), foreground),
    ensures
        step is Refuse,
        step->Refuse_0@ == error::RunErrorView::AlreadyRunning(pid),
{
    law_pid_round_trip(pid);
}

/// What comes next in a stop.
#[derive(Debug)]
pub enum StopStep {
    AskWhetherRunning(u32),
    SendSignal(u32),
    Finish { remove_pid_file: bool, result: Result<String, RunError> },
}

/// The stop ends in a failure.
pub open spec fn stop_fails(
    step: StopStep,
    remove_pid_file: bool,
    failure: error::RunErrorView,
) -> bool {
    step matches StopStep::Finish { remove_pid_file: remove, result } && remove == remove_pid_file
        && result is Err && result->Err_0@ == failure
}

/// What comes next in a stop, given what the file of the process ID holds and, once that is known,
/// whether that process runs and whether the signal could be sent to it.
pub open spec fn is_stop_step(
    step: StopStep,
    pid_file: Option<Seq<char>>,
    running: Option<bool>,
    signalled: Option<bool>,
) -> bool {
    match (pid_in_file(pid_file), running, signalled) {
        (None, _, _) => stop_fails(step, false, error::RunErrorView::NotRunning),
        (Some(pid), None, _) => step == StopStep::AskWhetherRunning(pid),
        (Some(_), Some(false), _) => stop_fails(step, true, error::RunErrorView::NotRunning),
        (Some(pid), Some(true), None) => step == StopStep::SendSignal(pid),
        (Some(pid), Some(true), Some(false)) => stop_fails(
            step,
            false,
            error::RunErrorView::ConfigValidation(
                "Failed to send signal to process "@ + text::decimal(pid as nat),
            ),
        ),
        (Some(pid), Some(true), Some(true)) => {
            step matches StopStep::Finish { remove_pid_file, result } && remove_pid_file
                && result is Ok && result->Ok_0@ == "RetroTLS daemon stopped (PID: "@
                + text::decimal(pid as nat) + ")"@
        },
    }
}

/// What comes next in a stop.
pub fn stop_daemon(
    pid_file: Option<&str>,
    running: Option<bool>,
    signalled: Option<bool>,
) -> (r: StopStep)
    ensures
        is_stop_step(r, text::opt_str(pid_file), running, signalled),
{
    let pid = match read_pid_file(pid_file) {
        Some(pid) => pid,
        None => {
            return StopStep::Finish {
                remove_pid_file: false,
                result: Err(RunError::NotRunning),
            };
        },
    };
    match (running, signalled) {
        (None, _) => StopStep::AskWhetherRunning(pid),
        (Some(false), _) => StopStep::Finish {
            remove_pid_file: true,
            result: Err(RunError::NotRunning),
        },
        (Some(true), None) => StopStep::SendSignal(pid),
        (Some(true), Some(false)) => {
            let mut message = "Failed to send signal to process ".to_owned();
            message.append(text::decimal_text(pid as u64).as_str());
            StopStep::Finish {
                remove_pid_file: false,
                result: Err(RunError::ConfigValidation(message)),
            }
        },
        (Some(true), Some(true)) => {
            let mut line = "RetroTLS daemon stopped (PID: ".to_owned();
            line.append(text::decimal_text(pid as u64).as_str());
            line.append(")");
            StopStep::Finish { remove_pid_file: true, result: Ok(line) }
        },
    }
}

/// What the configuration file is filled with where there is none.
pub fn default_config_content() -> (r: String)
    ensures
        r@
            == "access_log: true\nlisteners:\n  - listen: \"127.0.0.1:8080\"\n    upstream: \"https://api.example.com\"\n"@,
{
    "access_log: true\nlisteners:\n  - listen: \"127.0.0.1:8080\"\n    upstream: \"https://api.example.com\"\n".to_owned()
}

/// What came of reading the configuration file.
#[derive(Debug)]
pub enum ConfigRead {
    Missing,
    Failed(String),
    Unparsable(String),
    Document(ConfigDocument),
}

/// What comes next: the file is created, with the lines given, or the configuration is there or
/// cannot be had.
#[derive(Debug)]
pub enum LoadStep {
    CreateDefault { lines: Vec<String> },
    Done(Result<Config, RunError>),
}

/// The configuration from the file at `path`, given what came of reading it.
pub fn load_config(path: &str, read: ConfigRead) -> (r: LoadStep)
    ensures
        r is CreateDefault <==> read is Missing,
        match read {
            ConfigRead::Missing => r matches LoadStep::CreateDefault { lines } && text::texts(
                lines@,
            ) == seq![
                "Configuration file not found: "@ + path@,
                "Creating default configuration file..."@,
            ],
            ConfigRead::Failed(source) => {
                r matches LoadStep::Done(result) && result is Err && result->Err_0@ == (
                error::RunErrorView::ConfigRead { path: path@, source: source@ })
            },
            ConfigRead::Unparsable(source) => {
                r matches LoadStep::Done(result) && result is Err && result->Err_0@ == (
                error::RunErrorView::ConfigParse { path: path@, source: source@ })
            },
            ConfigRead::Document(document) => {
                r matches LoadStep::Done(result) && result is Ok && bridge::as_given(
                    document,
                    result->Ok_0,
                )
            },
        },
{
    match read {
        ConfigRead::Missing => {
            let mut first = "Configuration file not found: ".to_owned();
            first.append(path);
            let lines: Vec<String> = vec![
                first,
                "Creating default configuration file...".to_owned(),
            ];
            assert(text::texts(lines@) =~= seq![
                "Configuration file not found: "@ + path@,
                "Creating default configuration file..."@,
            ]);
            LoadStep::CreateDefault { lines }
        },
        ConfigRead::Failed(source) => LoadStep::Done(
            Err(RunError::ConfigRead { path: path.to_owned(), source }),
        ),
        ConfigRead::Unparsable(source) => LoadStep::Done(
            Err(RunError::ConfigParse { path: path.to_owned(), source }),
        ),
        ConfigRead::Document(document) => LoadStep::Done(Ok(Config::from_document(document))),
    }
}

/// The document is what `default_config_content` says: requests to 127.0.0.1:8080 go to
/// `https://api.example.com`, and are logged.
pub open spec fn is_default_document(document: ConfigDocument) -> bool {
    &&& document.access_log == Some(true)
    &&& document.shutdown_timeout_secs is None
    &&& document.listeners@.len() == 1
    &&& document.listeners@[0].listen@ == (SocketAddrView {
        ip: "127.0.0.1"@,
        port: 8080,
        v6: None,
    })
    &&& document.listeners@[0].upstream@ == "https://api.example.com"@
}

/// The configuration that the default document gives logs requests, has the one listener, and is
/// one that `Config::validate` accepts.
pub proof fn law_default_document_is_accepted(document: ConfigDocument, c: Config)
    requires
        is_default_document(document),
        bridge::as_given(document, c),
    ensures
        c.access_log,
        c.listeners@ == document.listeners@,
        c.listeners@.len() > 0 && bridge::all_plain(c.listeners@),
        c.listeners@.len() == 1,
        c.listeners@[0].listen.ip@ == "127.0.0.1"@,
        c.listeners@[0].listen.port == 8080,
        c.listeners@[0].listen.v6 is None,
        c.listeners@[0].upstream@ == "https://api.example.com"@,
{
    reveal_strlit("https://");
    reveal_strlit("https://api.example.com");
    let raw = "https://api.example.com"@;
    assert("https://"@ =~= raw.subrange(0, "https://"@.len() as int));
    assert(uri::is_plain_https(raw));
}

/// What came of creating the configuration file.
#[derive(Debug)]
pub enum Created {
    Done,
    DirectoryFailed { directory: String, source: String },
    WriteFailed(String),
}

/// The lines that tell of the new configuration file at `path`, or why there is none.
pub fn create_default_config(path: &str, created: Created) -> (r: Result<Vec<String>, RunError>)
    ensures
        match created {
            Created::Done => r is Ok && text::texts(r->Ok_0@) == seq![
                "Created: "@ + path@,
                "Please edit the configuration file and restart RetroTLS."@,
            ],
            Created::DirectoryFailed { directory, source } => r is Err && r->Err_0@
                == error::RunErrorView::ConfigValidation(
                "Failed to create config directory "@ + directory@ + ": "@ + source@,
            ),
            Created::WriteFailed(source) => r is Err && r->Err_0@
                == error::RunErrorView::ConfigValidation(
                "Failed to write default config to "@ + path@ + ": "@ + source@,
            ),
        },
{
    match created {
        Created::Done => {
            let mut first = "Created: ".to_owned();
            first.append(path);
            let lines: Vec<String> = vec![
                first,
                "Please edit the configuration file and restart RetroTLS.".to_owned(),
            ];
            assert(text::texts(lines@) =~= seq![
                "Created: "@ + path@,
                "Please edit the configuration file and restart RetroTLS."@,
            ]);
            Ok(lines)
        },
        Created::DirectoryFailed { directory, source } => {
            let mut message = "Failed to create config directory ".to_owned();
            message.append(directory.as_str());
            message.append(": ");
            message.append(source.as_str());
            Err(RunError::ConfigValidation(message))
        },
        Created::WriteFailed(source) => {
            let mut message = "Failed to write default config to ".to_owned();
            message.append(path);
            message.append(": ");
            message.append(source.as_str());
            Err(RunError::ConfigValidation(message))
        },
    }
}

/// Where the log goes.
#[derive(Debug)]
pub enum LogSink {
    File,
    Stdout { complaint: String },
}

/// How the log of the bridge is set up.
#[derive(Debug)]
pub struct FileLogPlan {
    pub filter: String,
    pub with_target: bool,
    pub with_level: bool,
    pub sink: LogSink,
}

/// How the log of the bridge is set up where `level` is asked for, the environment has `env` for a
/// filter, and opening the file at `path` gave `opened`: one that cannot be opened is complained of
/// and the log goes to the standard output.
pub fn init_logging(
    level: &str,
    env: Option<&str>,
    path: &str,
    opened: Result<(), String>,
) -> (r: FileLogPlan)
    ensures
        r.filter@ == filter::chosen_filter(
            text::opt_str(env),
            filter::is_some_accepted(text::opt_str(env)),
            level@,
            filter::is_accepted(level@),
        ),
        r.with_target && r.with_level,
        match opened {
            Ok(_) => r.sink is File,
            Err(source) => r.sink matches LogSink::Stdout { complaint } && complaint@
                == "Failed to open log file "@ + path@ + ": "@ + source@,
        },
{
    let sink = match opened {
        Ok(_) => LogSink::File,
        Err(source) => {
            let mut complaint = "Failed to open log file ".to_owned();
            complaint.append(path);
            complaint.append(": ");
            complaint.append(source.as_str());
            LogSink::Stdout { complaint }
        },
    };
    FileLogPlan {
        filter: filter::filter_for(level, env),
        with_target: true,
        with_level: true,
        sink,
    }
}

/// What is done, one after the other, from the start in the foreground to the end.
#[derive(Debug, Clone, Copy, PartialEq, Eq, Structural)]
pub enum RunPhase {
    WritePidFile,
    InitLogging,
    LoadConfig,
    Bind(usize),
    AwaitSignal,
    Join(usize),
    Drain,
    RemovePidFile,
}

/// What comes next: another phase, or the end.
#[derive(Debug)]
pub enum RunStep {
    Do(RunPhase),
    Finish(Result<(), RunError>),
}

/// The phase that follows on success, where there is one: every listener is bound, in order, before
/// the signal is awaited, and every one has ended before the requests in flight are awaited.
pub open spec fn phase_after(phase: RunPhase, listeners: usize) -> Option<RunPhase> {
    match phase {
        RunPhase::WritePidFile => Some(RunPhase::InitLogging),
        RunPhase::InitLogging => Some(RunPhase::LoadConfig),
        RunPhase::LoadConfig => if listeners > 0 {
            Some(RunPhase::Bind(0))
        } else {
            Some(RunPhase::AwaitSignal)
        },
        RunPhase::Bind(i) => if i + 1 < listeners {
            Some(RunPhase::Bind((i + 1) as usize))
        } else {
            Some(RunPhase::AwaitSignal)
        },
        RunPhase::AwaitSignal => if listeners > 0 {
            Some(RunPhase::Join(0))
        } else {
            Some(RunPhase::Drain)
        },
        RunPhase::Join(i) => if i + 1 < listeners {
            Some(RunPhase::Join((i + 1) as usize))
        } else {
            Some(RunPhase::Drain)
        },
        RunPhase::Drain => Some(RunPhase::RemovePidFile),
        RunPhase::RemovePidFile => None,
    }
}

/// What comes after a phase that ended so.
pub open spec fn is_run_step(
    step: RunStep,
    phase: RunPhase,
    ended: Result<(), RunError>,
    listeners: usize,
) -> bool {
    match ended {
        Err(e) => step == RunStep::Finish(Err(e)),
        Ok(_) => match phase_after(phase, listeners) {
            Some(next) => step == RunStep::Do(next),
            None => step == RunStep::Finish(Ok(())),
        },
    }
}

/// What comes after a phase that ended so, with this many listeners.
pub fn run(phase: RunPhase, ended: Result<(), RunError>, listeners: usize) -> (r: RunStep)
    ensures
        is_run_step(r, phase, ended, listeners),
{
    if let Err(e) = ended {
        return RunStep::Finish(Err(e));
    }
    match phase {
        RunPhase::WritePidFile => RunStep::Do(RunPhase::InitLogging),
        RunPhase::InitLogging => RunStep::Do(RunPhase::LoadConfig),
        RunPhase::LoadConfig => if listeners > 0 {
            RunStep::Do(RunPhase::Bind(0))
        } else {
            RunStep::Do(RunPhase::AwaitSignal)
        },
        RunPhase::Bind(i) => if i < listeners && i + 1 < listeners {
            RunStep::Do(RunPhase::Bind(i + 1))
        } else {
            RunStep::Do(RunPhase::AwaitSignal)
        },
        RunPhase::AwaitSignal => if listeners > 0 {
            RunStep::Do(RunPhase::Join(0))
        } else {
            RunStep::Do(RunPhase::Drain)
        },
        RunPhase::Join(i) => if i < listeners && i + 1 < listeners {
            RunStep::Do(RunPhase::Join(i + 1))
        } else {
            RunStep::Do(RunPhase::Drain)
        },
        RunPhase::Drain => RunStep::Do(RunPhase::RemovePidFile),
        RunPhase::RemovePidFile => RunStep::Finish(Ok(())),
    }
}

/// How many phases are still to come, at most.
pub open spec fn run_phases_left(phase: RunPhase, listeners: usize) -> int {
    match phase {
        RunPhase::WritePidFile => 2 * listeners + 5,
        RunPhase::InitLogging => 2 * listeners + 4,
        RunPhase::LoadConfig => 2 * listeners + 3,
        RunPhase::Bind(i) => 2 * listeners + 2 - i,
        RunPhase::AwaitSignal => listeners + 2,
        RunPhase::Join(i) => listeners + 1 - i,
        RunPhase::Drain => 1,
        RunPhase::RemovePidFile => 0,
    }
}

/// The phase speaks of no listener that is not there.
pub open spec fn is_phase_of(phase: RunPhase, listeners: usize) -> bool {
    match phase {
        RunPhase::Bind(i) => i < listeners,
        RunPhase::Join(i) => i < listeners,
        _ => true,
    }
}

/// A run goes forward: the phase that follows speaks of a listener that is there and has fewer
/// phases to come. It ends well only by removing the file of the process ID, and that comes only
/// after the requests in flight were awaited.
pub proof fn law_run_goes_forward(phase: RunPhase, listeners: usize)
    requires
        is_phase_of(phase, listeners),
    ensures
        phase_after(phase, listeners) matches Some(next) ==> {
            &&& is_phase_of(next, listeners)
            &&& 0 <= run_phases_left(next, listeners) < run_phases_left(phase, listeners)
        },
        phase_after(phase, listeners) is None <==> phase == RunPhase::RemovePidFile,
        phase_after(phase, listeners) == Some(RunPhase::RemovePidFile) <==> phase
            == RunPhase::Drain,
{
}

/// The line of a start.
pub fn starting_line() -> (r: String)
    ensures
        r@ == "RetroTLS v"@ + "1.1.0"@ + " starting..."@,
{
    let mut r = "RetroTLS v".to_owned();
    r.append(version().as_str());
    r.append(" starting...");
    r
}

/// The line for a failure with which the program stops.
pub fn fatal_line(e: &RunError) -> (r: String)
    ensures
        r@ == "Fatal error: "@ + e@.message(),
{
    let mut r = "Fatal error: ".to_owned();
    r.append(e.message().as_str());
    r
}

/// How long the requests in flight are awaited, in seconds.
pub fn shutdown_timeout(config: &Config) -> (r: u64)
    ensures
        r == (match config.shutdown_timeout_secs {
            Some(secs) => secs,
            None => 30,
        }),
{
    match config.shutdown_timeout_secs {
        Some(secs) => secs,
        None => 30,
    }
}

/// The line for a listener that is bound, or why it is not.
pub fn spawn_listener(
    plan: &ListenerPlan,
    bound: Result<(), String>,
) -> (r: Result<String, RunError>)
    ensures
        match bound {
            Ok(_) => r is Ok && r->Ok_0@ == "Listening on "@ + plan.listen@.text() + " -> "@
                + plan.upstream@.base.text(),
            Err(source) => r is Err && r->Err_0@ == (error::RunErrorView::BindFailed {
                addr: plan.listen@,
                source: source@,
            }),
        },
{
    match bound {
        Ok(_) => {
            let mut line = "Listening on ".to_owned();
            line.append(plan.listen.to_string().as_str());
            line.append(" -> ");
            line.append(plan.upstream.base.to_string().as_str());
            Ok(line)
        },
        Err(source) => Err(RunError::BindFailed { addr: plan.listen.copy(), source }),
    }
}

/// What happens to a listener: the word of the shutdown changed, or can change no more; a
/// connection came, or could not be taken.
#[derive(Debug)]
pub enum ListenerEvent {
    ShutdownChanged { shutdown: bool },
    ShutdownClosed,
    Accepted,
    AcceptFailed(String),
}

/// What a listener does then.
#[derive(Debug)]
pub enum ListenerStep {
    Stop,
    GoOn,
    Serve,
    Warn(String),
}

/// What the listener on `addr` does: it stops just when it is told to shut down.
pub fn listener_step(addr: &SocketAddr, event: ListenerEvent) -> (r: ListenerStep)
    ensures
        match event {
            ListenerEvent::ShutdownChanged { shutdown } => r == (if shutdown {
                ListenerStep::Stop
            } else {
                ListenerStep::GoOn
            }),
            ListenerEvent::ShutdownClosed => r == ListenerStep::GoOn,
            ListenerEvent::Accepted => r == ListenerStep::Serve,
            ListenerEvent::AcceptFailed(source) => r matches ListenerStep::Warn(line) && line@
                == "accept failed on "@ + addr@.text() + ": "@ + source@,
        },
        r is Stop <==> event == (ListenerEvent::ShutdownChanged { shutdown: true }),
{
    match event {
        ListenerEvent::ShutdownChanged { shutdown } => if shutdown {
            ListenerStep::Stop
        } else {
            ListenerStep::GoOn
        },
        ListenerEvent::ShutdownClosed => ListenerStep::GoOn,
        ListenerEvent::Accepted => ListenerStep::Serve,
        ListenerEvent::AcceptFailed(source) => {
            let mut line = "accept failed on ".to_owned();
            line.append(addr.to_string().as_str());
            line.append(": ");
            line.append(source.as_str());
            ListenerStep::Warn(line)
        },
    }
}

/// The line for a connection that failed.
pub fn connection_error_line(peer: &SocketAddr, source: &str) -> (r: String)
    ensures
        r@ == "connection error from "@ + peer@.text() + ": "@ + source@,
{
    let mut r = "connection error from ".to_owned();
    r.append(peer.to_string().as_str());
    r.append(": ");
    r.append(source);
    r
}

/// How a listener ended: by itself, or because its task failed.
#[derive(Debug)]
pub enum ListenerEnd {
    Returned(Result<(), RunError>),
    TaskFailed(String),
}

/// What the end of a listener means for the run.
pub fn listener_result(end: ListenerEnd) -> (r: Result<(), RunError>)
    ensures
        match end {
            ListenerEnd::Returned(result) => r == result,
            ListenerEnd::TaskFailed(message) => r is Err && r->Err_0@
                == error::RunErrorView::ListenerTask(message@),
        },
{
    match end {
        ListenerEnd::Returned(result) => result,
        ListenerEnd::TaskFailed(message) => Err(RunError::ListenerTask(message)),
    }
}

/// The number of connections that are being served.
#[derive(Debug, Clone, Copy)]
pub struct InFlight {
    pub count: usize,
}

/// One more, where the largest number is followed by zero.
pub open spec fn one_more(count: usize) -> usize {
    if count == usize::MAX {
        0
    } else {
        (count + 1) as usize
    }
}

/// One less, where zero is preceded by the largest number.
pub open spec fn one_less(count: usize) -> usize {
    if count == 0 {
        usize::MAX
    } else {
        (count - 1) as usize
    }
}

impl InFlight {
    /// No connection is being served.
    pub fn new() -> (r: InFlight)
        ensures
            r.count == 0,
    {
        InFlight { count: 0 }
    }

    /// A connection begins to be served.
    pub fn enter(&mut self)
        ensures
            final(self).count == one_more(old(self).count),
    {
        self.count = self.count.wrapping_add(1);
    }

    /// A connection is served no more; whoever waits is to look again.
    pub fn leave(&mut self)
        ensures
            final(self).count == one_less(old(self).count),
    {
        self.count = self.count.wrapping_sub(1);
    }

    /// Whether there is nothing to wait for.
    pub fn is_idle(&self) -> (r: bool)
        ensures
            r == (self.count == 0),
    {
        self.count == 0
    }
}

/// A connection begins to be served, or is served no more.
pub enum Flight {
    Enter,
    Leave,
}

/// The count after these, from zero on.
pub open spec fn count_after(flights: Seq<Flight>) -> usize
    decreases flights.len(),
{
    if flights.len() == 0 {
        0
    } else if flights.last() is Enter {
        one_more(count_after(flights.drop_last()))
    } else {
        one_less(count_after(flights.drop_last()))
    }
}

/// How many began.
pub open spec fn entered(flights: Seq<Flight>) -> nat
    decreases flights.len(),
{
    if flights.len() == 0 {
        0
    } else {
        entered(flights.drop_last()) + (if flights.last() is Enter {
            1nat
        } else {
            0nat
        })
    }
}

/// How many ended.
pub open spec fn left(flights: Seq<Flight>) -> nat
    decreases flights.len(),
{
    if flights.len() == 0 {
        0
    } else {
        left(flights.drop_last()) + (if flights.last() is Leave {
            1nat
        } else {
            0nat
        })
    }
}

/// Each connection that begins ends at most once, so at the end there is nothing to wait for just
/// when all that began have ended. No more of them may be open at once than can be counted.
pub proof fn law_idle_when_all_have_left(flights: Seq<Flight>)
    requires
        forall|i: int|
            0 <= i <= flights.len() ==> left(#[trigger] flights.take(i)) <= entered(
                flights.take(i),
            ) <= left(flights.take(i)) + usize::MAX,
    ensures
        count_after(flights) == entered(flights) - left(flights),
        count_after(flights) == 0 <==> entered(flights) == left(flights),
    decreases flights.len(),
{
    assert(flights.take(flights.len() as int) =~= flights);
    if flights.len() > 0 {
        let before = flights.drop_last();
        assert(flights.take(flights.len() - 1) =~= before);
        assert forall|i: int| 0 <= i <= before.len() implies left(#[trigger] before.take(i))
            <= entered(before.take(i)) <= left(before.take(i)) + usize::MAX by {
            assert(before.take(i) =~= flights.take(i));
        }
        law_idle_when_all_have_left(before);
    }
}

/// A connection that begins and ends leaves the count as it was.
pub proof fn law_leaving_undoes_entering(count: usize)
    ensures
        one_less(one_more(count)) == count,
{
}

/// The program's files are below the home: its own in `.retrotls`, its configuration in
/// `.config/retrotls`; without a home they are below the working directory.
pub proof fn law_where_files_are(home: Seq<char>, part: Seq<char>)
    ensures
        home.len() > 0 && home.last() != '/' ==> path_below(home, part) == home + seq!['/'] + part,
        home.len() == 0 || home.last() == '/' ==> path_below(home, part) == home + part,
        home.len() > 0 && home.last() != '/' ==> home_dir(Some(home)) == home + "/.retrotls"@,
        home.len() > 0 && home.last() != '/' ==> config_file(Some(home)) == home
            + "/.config/retrotls/config.yaml"@,
        home_dir(None) == ".retrotls"@,
        config_file(None) == ".retrotls/config.yaml"@,
{
    reveal_strlit("/");
    reveal_strlit("/.retrotls");
    reveal_strlit(".retrotls");
    reveal_strlit(".config");
    reveal_strlit("retrotls");
    reveal_strlit("config.yaml");
    reveal_strlit("/.config/retrotls/config.yaml");
    assert("/"@ =~= seq!['/']);
    if home.len() > 0 && home.last() != '/' {
        assert(home_dir(Some(home)) =~= home + "/.retrotls"@);
        let config = path_below(home, ".config"@);
        assert(config.last() == 'g');
        let below = path_below(config, "retrotls"@);
        assert(below.last() == 's');
        assert(config_file(Some(home)) =~= home + "/.config/retrotls/config.yaml"@);
    }
}

/// A text holds a process ID if, without the white space around it, it is the decimal digits of one,
/// with or without a plus sign; it holds no other, and a missing file holds none.
pub proof fn law_pid_in_a_text(content: Seq<char>, pid: u32)
    ensures
        text::trimmed(content) == text::decimal(pid as nat) ==> pid_in(content) == Some(pid),
        text::trimmed(content) == seq!['+'] + text::decimal(pid as nat) ==> pid_in(content) == Some(
            pid,
        ),
        pid_in(content) is Some ==> {
            let core = text::trimmed(content);
            let digits = if core.len() > 0 && core[0] == '+' {
                core.skip(1)
            } else {
                core
            };
            &&& digits.len() > 0
            &&& forall|i: int| 0 <= i < digits.len() ==> '0' <= #[trigger] digits[i] <= '9'
            &&& text::decimal_value(digits) == pid_in(content)->Some_0
        },
        pid_in_file(Some(content)) == pid_in(content),
        pid_in_file(None) is None,
{
    let digits = text::decimal(pid as nat);
    text::lemma_decimal_digits(pid as nat);
    text::lemma_decimal_value(pid as nat);
    assert('0' <= digits[0] <= '9');
    assert(text::all_digits(digits)) by {
        assert forall|i: int| 0 <= i < digits.len() implies text::is_digit(
            #[trigger] digits[i],
        ) by {}
    }
    assert((seq!['+'] + digits).drop_first() =~= digits);
    let core = text::trimmed(content);
    if core.len() > 0 && core[0] == '+' {
        assert(core.drop_first() =~= core.skip(1));
    }
    if pid_in(content) is Some {
        let d = text::unsigned(core);
        assert forall|i: int| 0 <= i < d.len() implies '0' <= #[trigger] d[i] <= '9' by {
            assert(text::is_digit(d[i]));
        }
    }
}

/// Each argument behind the program's name but `--foreground` and `-f` is handed on, in its place,
/// and `--foreground` comes last.
pub proof fn law_arguments_handed_on(program: Seq<char>, args: Seq<Seq<char>>, arg: Seq<char>)
    ensures
        background_args(seq![program]) == seq!["--foreground"@],
        arg != "--foreground"@ && arg != "-f"@ ==> background_args(
            seq![program] + args + seq![arg],
        ) == background_args(seq![program] + args).drop_last() + seq![arg, "--foreground"@],
        arg == "--foreground"@ || arg == "-f"@ ==> background_args(
            seq![program] + args + seq![arg],
        ) == background_args(seq![program] + args),
        background_args(Seq::empty()) == seq!["--foreground"@],
{
    let keep = |a: Seq<char>| is_passed_on(a);
    reveal(Seq::filter);
    assert(seq![program].drop_first() =~= Seq::empty());
    assert((seq![program] + args).drop_first() =~= args);
    let longer = args + seq![arg];
    assert((seq![program] + args + seq![arg]).drop_first() =~= longer);
    assert(longer.drop_last() =~= args);
    assert(longer.last() == arg);
    assert(background_args(seq![program]) =~= seq!["--foreground"@]);
    assert(background_args(Seq::empty()) =~= seq!["--foreground"@]);
    let kept = args.filter(keep);
    assert(background_args(seq![program] + args).drop_last() =~= kept);
    if arg != "--foreground"@ && arg != "-f"@ {
        assert(longer.filter(keep) == kept.push(arg));
        assert(background_args(seq![program] + args + seq![arg]) =~= kept + seq![
            arg,
            "--foreground"@,
        ]);
    }
}

/// A configuration file that is given is the one that is checked and the one that is started with,
/// and the default one is named just where none is given.
pub proof fn law_given_config_is_used(cli: Cli, home: Option<Seq<char>>, plan: Plan)
    requires
        plan@ == plan_of(cli, home),
    ensures
        plan matches Plan::Check { config_path } ==> (cli.config matches Some(given)
            ==> config_path@ == given@),
        plan matches Plan::Start { config_path, .. } ==> (cli.config matches Some(given)
            ==> config_path@ == given@),
        plan matches Plan::Check { config_path } ==> (cli.config is None ==> config_path@
            == config_file(home)),
        plan matches Plan::Start { config_path, .. } ==> (cli.config is None ==> config_path@
            == config_file(home)),
{
}

/// What the command line asks for: the version before all else; then `stop`; any command but these
/// two and `start` is unknown; then the check; and else a start, in the foreground just where that
/// is asked for, with the level that is asked for or `info`.
pub proof fn law_command_line(cli: Cli, home: Option<Seq<char>>, plan: Plan)
    requires
        plan@ == plan_of(cli, home),
    ensures
        plan is PrintVersion <==> cli.version,
        plan matches Plan::PrintVersion(line) ==> line@ == "1.1.0"@,
        plan is Stop <==> !cli.version && cli.command is Some && cli.command->Some_0@ == "stop"@,
        plan is Usage <==> !cli.version && cli.command is Some && cli.command->Some_0@ != "stop"@
            && cli.command->Some_0@ != "start"@,
        plan matches Plan::Usage(lines) ==> lines@.len() == 2 && lines@[0]@ == "Unknown command: "@
            + cli.command->Some_0@ && lines@[1]@ == "Usage: retrotls [start|stop] [options]"@,
        plan is Check <==> !cli.version && cli.check && (cli.command is None
            || cli.command->Some_0@ == "start"@),
        plan is Start <==> !cli.version && !cli.check && (cli.command is None
            || cli.command->Some_0@ == "start"@),
        plan matches Plan::Start { foreground, .. } ==> foreground == cli.foreground,
        plan matches Plan::Start { log_level, .. } ==> (cli.log_level matches Some(level)
            ==> log_level@ == level@),
        plan matches Plan::Start { log_level, .. } ==> (cli.log_level is None ==> log_level@
            == "info"@),
{
    reveal_strlit("stop");
    reveal_strlit("start");
    assert("stop"@.len() != "start"@.len());
    if let Plan::Usage(lines) = plan {
        assert(text::texts(lines@).len() == 2);
        assert(text::texts(lines@)[0] == lines@[0]@);
        assert(text::texts(lines@)[1] == lines@[1]@);
    }
}

/// A start goes on unless a process that runs has written its ID: whether it runs is asked first, a
/// stale file is removed and no other, and the program goes to the background just where the
/// foreground was not asked for.
pub proof fn law_start(
    step: StartStep,
    pid_file: Option<Seq<char>>,
    running: Option<bool>,
    foreground: bool,
)
    requires
        is_start_step(step, pid_file, running, foreground),
    ensures
        pid_in_file(pid_file) is None ==> step == (StartStep::Go {
            remove_pid_file: false,
            daemonize: !foreground,
        }),
        pid_in_file(pid_file) matches Some(pid) ==> (running is None ==> step
            == StartStep::AskWhetherRunning(pid)),
        pid_in_file(pid_file) matches Some(pid) ==> (running == Some(true) ==> (
        step matches StartStep::Refuse(RunError::AlreadyRunning(other)) && other == pid)),
        pid_in_file(pid_file) is Some && running == Some(false) ==> step == (StartStep::Go {
            remove_pid_file: true,
            daemonize: !foreground,
        }),
{
}

/// A stop asks whether the process in the file runs, then sends it the signal, and ends well with
/// the file removed; without such a process the daemon is not running, and a stale file is removed
/// too; a signal that cannot be sent leaves the file.
pub proof fn law_stop(
    step: StopStep,
    pid_file: Option<Seq<char>>,
    running: Option<bool>,
    signalled: Option<bool>,
)
    requires
        is_stop_step(step, pid_file, running, signalled),
    ensures
        pid_in_file(pid_file) is None ==> (step matches StopStep::Finish {
            remove_pid_file,
            result: Err(RunError::NotRunning),
        } && !remove_pid_file),
        pid_in_file(pid_file) matches Some(pid) ==> (running is None ==> step
            == StopStep::AskWhetherRunning(pid)),
        pid_in_file(pid_file) is Some && running == Some(false) ==> (step matches StopStep::Finish {
            remove_pid_file,
            result: Err(RunError::NotRunning),
        } && remove_pid_file),
        pid_in_file(pid_file) matches Some(pid) ==> (running == Some(true) && signalled is None
            ==> step == StopStep::SendSignal(pid)),
        pid_in_file(pid_file) matches Some(pid) ==> (running == Some(true) && signalled == Some(
            false,
        ) ==> (step matches StopStep::Finish {
            remove_pid_file,
            result: Err(RunError::ConfigValidation(words)),
        } && !remove_pid_file && words@ == "Failed to send signal to process "@ + text::decimal(
            pid as nat,
        ))),
        pid_in_file(pid_file) matches Some(pid) ==> (running == Some(true) && signalled == Some(
            true,
        ) ==> (step matches StopStep::Finish { remove_pid_file, result: Ok(line) }
            && remove_pid_file && line@ == "RetroTLS daemon stopped (PID: "@ + text::decimal(
            pid as nat,
        ) + ")"@)),
{
}

/// Every listener is bound before the signal is awaited, one after the other from the first to the
/// last, and every one is awaited before the requests in flight are: a listener is followed by the
/// next one wherever there is one, and what comes behind them follows the last alone.
pub proof fn law_every_listener_is_bound(i: usize, listeners: usize)
    requires
        i < listeners,
    ensures
        phase_after(RunPhase::LoadConfig, listeners) == Some(RunPhase::Bind(0)),
        i + 1 < listeners ==> phase_after(RunPhase::Bind(i), listeners) == Some(
            RunPhase::Bind((i + 1) as usize),
        ),
        phase_after(RunPhase::Bind(i), listeners) == Some(RunPhase::AwaitSignal) <==> i + 1
            == listeners,
        phase_after(RunPhase::AwaitSignal, listeners) == Some(RunPhase::Join(0)),
        i + 1 < listeners ==> phase_after(RunPhase::Join(i), listeners) == Some(
            RunPhase::Join((i + 1) as usize),
        ),
        phase_after(RunPhase::Join(i), listeners) == Some(RunPhase::Drain) <==> i + 1 == listeners,
{
}

/// The rest of a run: the process ID is written first, then logging is set up and the configuration
/// loaded; after the requests in flight the file of the process ID is removed, and the run ends.
pub proof fn law_order_of_a_run(listeners: usize)
    ensures
        phase_after(RunPhase::WritePidFile, listeners) == Some(RunPhase::InitLogging),
        phase_after(RunPhase::InitLogging, listeners) == Some(RunPhase::LoadConfig),
        listeners == 0 ==> phase_after(RunPhase::LoadConfig, listeners) == Some(
            RunPhase::AwaitSignal,
        ),
        listeners == 0 ==> phase_after(RunPhase::AwaitSignal, listeners) == Some(RunPhase::Drain),
        phase_after(RunPhase::Drain, listeners) == Some(RunPhase::RemovePidFile),
        phase_after(RunPhase::RemovePidFile, listeners) is None,
{
}

/// A phase that fails ends the run with its failure; one that succeeds is followed by the next, and
/// the last by a good end.
pub proof fn law_run_step(
    step: RunStep,
    phase: RunPhase,
    ended: Result<(), RunError>,
    listeners: usize,
)
    requires
        is_run_step(step, phase, ended, listeners),
    ensures
        ended matches Err(e) ==> step == RunStep::Finish(Err(e)),
        ended is Ok ==> (phase_after(phase, listeners) matches Some(next) ==> step == RunStep::Do(
            next,
        )),
        ended is Ok && phase_after(phase, listeners) is None ==> step == RunStep::Finish(Ok(())),
{
}

/// The count of connections goes up by one and down by one, and goes round at its ends.
pub proof fn law_counting(count: usize)
    ensures
        count < usize::MAX ==> one_more(count) == count + 1,
        one_more(usize::MAX) == 0,
        count > 0 ==> one_less(count) == count - 1,
        one_less(0) == usize::MAX,
{
}

/// A connection that begins is counted once, and one that ends is.
pub proof fn law_flights(flights: Seq<Flight>)
    ensures
        entered(flights.push(Flight::Enter)) == entered(flights) + 1,
        left(flights.push(Flight::Enter)) == left(flights),
        entered(flights.push(Flight::Leave)) == entered(flights),
        left(flights.push(Flight::Leave)) == left(flights) + 1,
        entered(Seq::empty()) == 0,
        left(Seq::empty()) == 0,
{
    assert(flights.push(Flight::Enter).drop_last() =~= flights);
    assert(flights.push(Flight::Leave).drop_last() =~= flights);
}

/// A run without failure from the loading of the configuration to the signal binds every listener,
/// each once and in their order, and does nothing else in between.
pub proof fn law_a_run_binds_every_listener(phases: Seq<RunPhase>, listeners: usize)
    requires
        phases.len() > 0,
        phases[0] == RunPhase::LoadConfig,
        phases.last() == RunPhase::AwaitSignal,
        forall|k: int|
            0 < k < phases.len() ==> is_run_step(
                RunStep::Do(#[trigger] phases[k]),
                phases[k - 1],
                Ok(()),
                listeners,
            ),
        forall|k: int|
            0 <= k < phases.len() - 1 ==> #[trigger] phases[k] != RunPhase::AwaitSignal,
    ensures
        phases.len() == listeners + 2,
        forall|k: int|
            1 <= k <= listeners ==> #[trigger] phases[k] == RunPhase::Bind((k - 1) as usize),
{
    let reached: int = if phases.len() - 1 < listeners {
        phases.len() - 1
    } else {
        listeners as int
    };
    lemma_bound_in_order(phases, listeners, reached);
    if phases.len() - 1 <= listeners {
        assert(phases[phases.len() - 1] == phases.last());
    } else {
        assert(phases[reached + 1] == RunPhase::AwaitSignal);
    }
}

/// The listeners before the place `n` stand there in their order.
proof fn lemma_bound_in_order(phases: Seq<RunPhase>, listeners: usize, n: int)
    requires
        phases.len() > 0,
        phases[0] == RunPhase::LoadConfig,
        forall|k: int|
            0 < k < phases.len() ==> is_run_step(
                RunStep::Do(#[trigger] phases[k]),
                phases[k - 1],
                Ok(()),
                listeners,
            ),
        0 <= n <= listeners,
        n < phases.len(),
    ensures
        forall|k: int| 1 <= k <= n ==> #[trigger] phases[k] == RunPhase::Bind((k - 1) as usize),
    decreases n,
{
    if n > 0 {
        lemma_bound_in_order(phases, listeners, n - 1);
        assert(is_run_step(RunStep::Do(phases[n]), phases[n - 1], Ok(()), listeners));
    }
}

/// A run without failure from the signal to the wait for the requests in flight waits for the task
/// of every listener, each once and in their order, and does nothing else in between.
pub proof fn law_a_run_joins_every_listener(phases: Seq<RunPhase>, listeners: usize)
    requires
        phases.len() > 0,
        phases[0] == RunPhase::AwaitSignal,
        phases.last() == RunPhase::Drain,
        forall|k: int|
            0 < k < phases.len() ==> is_run_step(
                RunStep::Do(#[trigger] phases[k]),
                phases[k - 1],
                Ok(()),
                listeners,
            ),
        forall|k: int| 0 <= k < phases.len() - 1 ==> #[trigger] phases[k] != RunPhase::Drain,
    ensures
        phases.len() == listeners + 2,
        forall|k: int|
            1 <= k <= listeners ==> #[trigger] phases[k] == RunPhase::Join((k - 1) as usize),
{
    let reached: int = if phases.len() - 1 < listeners {
        phases.len() - 1
    } else {
        listeners as int
    };
    lemma_joined_in_order(phases, listeners, reached);
    if phases.len() - 1 <= listeners {
        assert(phases[phases.len() - 1] == phases.last());
    } else {
        assert(phases[reached + 1] == RunPhase::Drain);
    }
}

/// The tasks of the listeners before the place `n` stand there in their order.
proof fn lemma_joined_in_order(phases: Seq<RunPhase>, listeners: usize, n: int)
    requires
        phases.len() > 0,
        phases[0] == RunPhase::AwaitSignal,
        forall|k: int|
            0 < k < phases.len() ==> is_run_step(
                RunStep::Do(#[trigger] phases[k]),
                phases[k - 1],
                Ok(()),
                listeners,
            ),
        0 <= n <= listeners,
        n < phases.len(),
    ensures
        forall|k: int| 1 <= k <= n ==> #[trigger] phases[k] == RunPhase::Join((k - 1) as usize),
    decreases n,
{
    if n > 0 {
        lemma_joined_in_order(phases, listeners, n - 1);
        assert(is_run_step(RunStep::Do(phases[n]), phases[n - 1], Ok(()), listeners));
    }
}

} // verus!
