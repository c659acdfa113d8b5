use retrotls::bridge::{Config, ConfigDocument, ListenerConfig, ListenerPlan};
use retrotls::daemon::{
    connection_error_line, create_default_config, daemonize, default_config_content,
    default_config_path, fatal_line, init_logging, listener_result, listener_step, load_config,
    log_file_path, parse_pid, pid_file_path, read_pid_file, retrotls_home, run, shutdown_timeout,
    spawn_listener, start_step, starting_line, stop_daemon, write_pid_file, Cli, ConfigRead,
    Created, InFlight, ListenerEnd, ListenerEvent, ListenerStep, LoadStep, LogSink, Plan, RunPhase,
    RunStep, StartStep, StopStep,
};
use retrotls::error::RunError;
use retrotls::net::SocketAddr;

fn addr() -> SocketAddr {
    SocketAddr::v4("127.0.0.1", 8080)
}

fn cli() -> Cli {
    Cli {
        command: None,
        config: None,
        check: false,
        version: false,
        log_level: None,
        foreground: false,
    }
}

fn strings(words: &[&str]) -> Vec<String> {
    words.iter().map(|word| word.to_string()).collect()
}

#[test]
fn where_the_files_are() {
    assert_eq!(retrotls_home(Some("/home/a")), "/home/a/.retrotls");
    assert_eq!(retrotls_home(Some("/")), "/.retrotls");
    assert_eq!(retrotls_home(Some("")), ".retrotls");
    assert_eq!(retrotls_home(None), ".retrotls");
    assert_eq!(pid_file_path(Some("/home/a")), "/home/a/.retrotls/retrotls.pid");
    assert_eq!(log_file_path(Some("/home/a")), "/home/a/.retrotls/logs/retrotls.log");
    assert_eq!(log_file_path(None), ".retrotls/logs/retrotls.log");
    assert_eq!(default_config_path(Some("/home/a")), "/home/a/.config/retrotls/config.yaml");
    assert_eq!(default_config_path(None), ".retrotls/config.yaml");
}

#[test]
fn process_ids_as_text() {
    assert_eq!(parse_pid("4242\n"), Some(4242));
    assert_eq!(parse_pid(" +7\t"), Some(7));
    assert_eq!(parse_pid("0000000000000000000000012"), Some(12));
    assert_eq!(parse_pid("4294967295"), Some(u32::MAX));
    assert_eq!(parse_pid("4294967296"), None);
    assert_eq!(parse_pid("99999999999999999999999999"), None);
    for text in ["", "+", "-1", "++1", "12a", "1 2", "0x1", "\u{664}"] {
        assert_eq!(parse_pid(text), None);
        assert_eq!(text.trim().parse::<u32>().ok(), None);
    }
    for pid in [0, 9, 10, 65_535, u32::MAX] {
        assert_eq!(write_pid_file(pid), pid.to_string());
        assert_eq!(read_pid_file(Some(&write_pid_file(pid))), Some(pid));
    }
    assert_eq!(read_pid_file(None), None);
}

#[test]
fn the_arguments_of_the_background() {
    let args = strings(&["retrotls", "-f", "--config", "c.yaml", "--foreground", "start"]);
    let passed = daemonize(&args);
    assert_eq!(passed, strings(&["--config", "c.yaml", "start", "--foreground"]));
    let mut again = strings(&["retrotls"]);
    again.extend(passed.clone());
    assert_eq!(daemonize(&again), passed);
    assert_eq!(daemonize(&vec![]), strings(&["--foreground"]));
}

#[test]
fn what_the_command_line_asks_for() {
    let mut asked = cli();
    match asked.plan(Some("/home/a")) {
        Plan::Start { config_path, log_level, foreground } => {
            assert_eq!(config_path, "/home/a/.config/retrotls/config.yaml");
            assert_eq!(log_level, "info");
            assert!(!foreground);
        }
        other => panic!("{other:?}"),
    }
    asked.command = Some("start".to_string());
    asked.foreground = true;
    asked.log_level = Some("debug".to_string());
    asked.config = Some("c.yaml".to_string());
    match asked.plan(None) {
        Plan::Start { config_path, log_level, foreground } => {
            assert_eq!((config_path.as_str(), log_level.as_str(), foreground), ("c.yaml", "debug", true));
        }
        other => panic!("{other:?}"),
    }
    asked.check = true;
    assert!(matches!(asked.plan(None), Plan::Check { .. }));
    asked.command = Some("stop".to_string());
    assert!(matches!(asked.plan(None), Plan::Stop));
    asked.command = Some("restart".to_string());
    match asked.plan(None) {
        Plan::Usage(lines) => assert_eq!(
            lines,
            strings(&["Unknown command: restart", "Usage: retrotls [start|stop] [options]"])
        ),
        other => panic!("{other:?}"),
    }
    asked.version = true;
    match asked.plan(None) {
        Plan::PrintVersion(line) => assert_eq!(line, "1.1.0"),
        other => panic!("{other:?}"),
    }
}

#[test]
fn a_start_beside_another() {
    assert!(matches!(
        start_step(None, None, true),
        StartStep::Go { remove_pid_file: false, daemonize: false }
    ));
    assert!(matches!(
        start_step(Some("garbage"), None, false),
        StartStep::Go { remove_pid_file: false, daemonize: true }
    ));
    assert!(matches!(start_step(Some("42"), None, true), StartStep::AskWhetherRunning(42)));
    assert!(matches!(
        start_step(Some("42"), Some(false), false),
        StartStep::Go { remove_pid_file: true, daemonize: true }
    ));
    match start_step(Some("42"), Some(true), true) {
        StartStep::Refuse(error) => assert_eq!(error.message(), "Daemon already running (PID: 42)"),
        other => panic!("{other:?}"),
    }
}

#[test]
fn the_steps_of_a_stop() {
    let finish = |step: StopStep| match step {
        StopStep::Finish { remove_pid_file, result } => {
            (remove_pid_file, result.map_err(|error| error.message()))
        }
        other => panic!("{other:?}"),
    };
    assert_eq!(finish(stop_daemon(None, None, None)), (false, Err("Daemon not running".to_string())));
    assert!(matches!(stop_daemon(Some("42"), None, None), StopStep::AskWhetherRunning(42)));
    assert_eq!(
        finish(stop_daemon(Some("42"), Some(false), None)),
        (true, Err("Daemon not running".to_string()))
    );
    assert!(matches!(stop_daemon(Some("42"), Some(true), None), StopStep::SendSignal(42)));
    assert_eq!(
        finish(stop_daemon(Some("42"), Some(true), Some(false))),
        (false, Err("Configuration error: Failed to send signal to process 42".to_string()))
    );
    assert_eq!(
        finish(stop_daemon(Some("42"), Some(true), Some(true))),
        (true, Ok("RetroTLS daemon stopped (PID: 42)".to_string()))
    );
}

#[test]
fn the_default_configuration() {
    let content = default_config_content();
    let value: serde_yaml::Value = serde_yaml::from_str(&content).expect("yaml");
    assert_eq!(value["access_log"].as_bool(), Some(true));
    assert_eq!(value["listeners"][0]["listen"].as_str(), Some("127.0.0.1:8080"));
    assert_eq!(value["listeners"][0]["upstream"].as_str(), Some("https://api.example.com"));
    assert_eq!(content.lines().count(), 4);

    let (ip, port) = value["listeners"][0]["listen"].as_str().unwrap().split_once(':').unwrap();
    let document = ConfigDocument {
        access_log: value["access_log"].as_bool(),
        shutdown_timeout_secs: value["shutdown_timeout_secs"].as_u64(),
        listeners: vec![ListenerConfig {
            listen: SocketAddr::v4(ip, port.parse().unwrap()),
            upstream: value["listeners"][0]["upstream"].as_str().unwrap().to_string(),
        }],
    };
    match load_config("c.yaml", ConfigRead::Document(document)) {
        LoadStep::Done(Ok(config)) => {
            assert!(config.validate().is_ok());
            assert!(config.access_log);
            assert_eq!(config.listeners[0].listen.to_string(), "127.0.0.1:8080");
        }
        other => panic!("{other:?}"),
    }
}

#[test]
fn what_comes_of_reading_the_configuration() {
    let failure = |read: ConfigRead| match load_config("c.yaml", read) {
        LoadStep::Done(Err(error)) => error.message(),
        other => panic!("{other:?}"),
    };
    assert_eq!(
        failure(ConfigRead::Failed("denied".to_string())),
        "Failed to read configuration file c.yaml: denied"
    );
    assert_eq!(
        failure(ConfigRead::Unparsable("tab".to_string())),
        "Failed to parse configuration file c.yaml: tab"
    );
    match load_config("c.yaml", ConfigRead::Missing) {
        LoadStep::CreateDefault { lines } => assert_eq!(
            lines,
            strings(&["Configuration file not found: c.yaml", "Creating default configuration file..."])
        ),
        other => panic!("{other:?}"),
    }
    let document = ConfigDocument { access_log: None, shutdown_timeout_secs: Some(9), listeners: vec![] };
    match load_config("c.yaml", ConfigRead::Document(document)) {
        LoadStep::Done(Ok(config)) => {
            assert!(config.access_log);
            assert_eq!(shutdown_timeout(&config), 9);
        }
        other => panic!("{other:?}"),
    }
}

#[test]
fn what_comes_of_creating_the_configuration() {
    assert_eq!(
        create_default_config("d/c.yaml", Created::Done).unwrap(),
        strings(&["Created: d/c.yaml", "Please edit the configuration file and restart RetroTLS."])
    );
    let failed = Created::DirectoryFailed { directory: "d".to_string(), source: "denied".to_string() };
    assert_eq!(
        create_default_config("d/c.yaml", failed).unwrap_err().message(),
        "Configuration error: Failed to create config directory d: denied"
    );
    assert_eq!(
        create_default_config("d/c.yaml", Created::WriteFailed("full".to_string())).unwrap_err().message(),
        "Configuration error: Failed to write default config to d/c.yaml: full"
    );
}

#[test]
fn where_the_log_goes() {
    let plan = init_logging("debug", Some("warn"), "l.log", Ok(()));
    assert_eq!(plan.filter, "warn");
    assert!(matches!(plan.sink, LogSink::File));
    let plan = init_logging("debug", None, "l.log", Err("denied".to_string()));
    assert_eq!(plan.filter, "debug");
    match plan.sink {
        LogSink::Stdout { complaint } => assert_eq!(complaint, "Failed to open log file l.log: denied"),
        LogSink::File => panic!("a file"),
    }
}

#[test]
fn the_phases_of_a_run() {
    let mut phase = RunPhase::WritePidFile;
    let mut seen = vec![phase];
    loop {
        match run(phase, Ok(()), 2) {
            RunStep::Do(next) => {
                phase = next;
                seen.push(next);
            }
            RunStep::Finish(result) => {
                assert!(result.is_ok());
                break;
            }
        }
    }
    assert_eq!(
        seen,
        vec![
            RunPhase::WritePidFile,
            RunPhase::InitLogging,
            RunPhase::LoadConfig,
            RunPhase::Bind(0),
            RunPhase::Bind(1),
            RunPhase::AwaitSignal,
            RunPhase::Join(0),
            RunPhase::Join(1),
            RunPhase::Drain,
            RunPhase::RemovePidFile,
        ]
    );
    assert!(matches!(run(RunPhase::LoadConfig, Ok(()), 0), RunStep::Do(RunPhase::AwaitSignal)));
    match run(RunPhase::LoadConfig, Err(RunError::NotRunning), 2) {
        RunStep::Finish(Err(error)) => assert_eq!(fatal_line(&error), "Fatal error: Daemon not running"),
        other => panic!("{other:?}"),
    }
}

#[test]
fn a_listener_is_bound_or_not() {
    let config = Config::from_document(ConfigDocument {
        access_log: None,
        shutdown_timeout_secs: None,
        listeners: vec![ListenerConfig { listen: addr(), upstream: "https://a/b".to_string() }],
    });
    assert_eq!(shutdown_timeout(&config), 30);
    let plans: Vec<ListenerPlan> = config.listener_plans().unwrap();
    assert_eq!(
        spawn_listener(&plans[0], Ok(())).unwrap(),
        "Listening on 127.0.0.1:8080 -> https://a/b"
    );
    assert_eq!(
        spawn_listener(&plans[0], Err("in use".to_string())).unwrap_err().message(),
        "Failed to bind listener on 127.0.0.1:8080: in use"
    );
}

#[test]
fn what_a_listener_does() {
    let step = |event: ListenerEvent| listener_step(&addr(), event);
    assert!(matches!(step(ListenerEvent::ShutdownChanged { shutdown: true }), ListenerStep::Stop));
    assert!(matches!(step(ListenerEvent::ShutdownChanged { shutdown: false }), ListenerStep::GoOn));
    assert!(matches!(step(ListenerEvent::ShutdownClosed), ListenerStep::GoOn));
    assert!(matches!(step(ListenerEvent::Accepted), ListenerStep::Serve));
    match step(ListenerEvent::AcceptFailed("too many files".to_string())) {
        ListenerStep::Warn(line) => assert_eq!(line, "accept failed on 127.0.0.1:8080: too many files"),
        other => panic!("{other:?}"),
    }
    assert_eq!(connection_error_line(&addr(), "reset"), "connection error from 127.0.0.1:8080: reset");
}

#[test]
fn how_a_listener_ends() {
    assert!(listener_result(ListenerEnd::Returned(Ok(()))).is_ok());
    assert!(listener_result(ListenerEnd::Returned(Err(RunError::NotRunning))).is_err());
    assert_eq!(
        listener_result(ListenerEnd::TaskFailed("panicked".to_string())).unwrap_err().message(),
        "Listener task failed: panicked"
    );
}

#[test]
fn connections_in_flight() {
    let mut in_flight = InFlight::new();
    assert!(in_flight.is_idle());
    in_flight.enter();
    in_flight.enter();
    in_flight.leave();
    assert!(!in_flight.is_idle());
    assert_eq!(in_flight.count, 1);
    in_flight.leave();
    assert!(in_flight.is_idle());
    let mut full = InFlight { count: usize::MAX };
    full.enter();
    assert_eq!(full.count, 0);
    full.leave();
    assert_eq!(full.count, usize::MAX);
}

#[test]
fn the_line_of_a_start() {
    assert_eq!(starting_line(), "RetroTLS v1.1.0 starting...");
}
