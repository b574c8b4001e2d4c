use inboxhunter::config::{APIKeys, BotConfig, Credentials, Settings};
use inboxhunter::locator::{script_launch, sidecar_launch, LaunchMode, Os};
use inboxhunter::supervisor::{
    build_args, command_line, determine_log_level, escalation, isolates_process_group,
    plan_launch, spawn_error_message, stderr_event, stdout_event, worker_environment, KillStep,
    PollOutcome, RunState, StopStep, StopWatch, Supervisor, SupervisorError, WorkerEvent,
    MAX_WAIT_MS, POLL_INTERVAL_MS,
};

#[test]
fn new_supervisor_is_idle() {
    let s = Supervisor::new();
    assert_eq!(s.state(), RunState::Idle);
    assert!(!s.is_running());
}

#[test]
fn start_then_run() {
    let mut s = Supervisor::new();
    assert_eq!(s.begin_start(), Ok(()));
    assert_eq!(s.state(), RunState::Starting);
    assert!(s.is_running());
    assert!(s.spawn_succeeded(4711));
    assert_eq!(s.state(), RunState::Running { pid: 4711 });
    assert!(s.is_running());
}

#[test]
fn start_while_running_is_refused() {
    let mut s = Supervisor::new();
    s.begin_start().unwrap();
    assert_eq!(s.begin_start(), Err(SupervisorError::AlreadyRunning));
    assert_eq!(s.state(), RunState::Starting);
    s.spawn_succeeded(1);
    assert_eq!(s.begin_start(), Err(SupervisorError::AlreadyRunning));
    assert_eq!(s.state(), RunState::Running { pid: 1 });
    s.begin_stop();
    assert_eq!(s.begin_start(), Err(SupervisorError::AlreadyRunning));
    assert_eq!(s.state(), RunState::Stopping);
    assert_eq!(SupervisorError::AlreadyRunning.message(), "Bot is already running");
}

#[test]
fn failed_spawn_leaves_the_supervisor_idle() {
    let mut s = Supervisor::new();
    s.begin_start().unwrap();
    assert!(s.spawn_failed());
    assert_eq!(s.state(), RunState::Idle);
    assert_eq!(s.begin_start(), Ok(()));
}

#[test]
fn spawn_reports_without_a_start_change_nothing() {
    let mut s = Supervisor::new();
    assert!(!s.spawn_succeeded(9));
    assert_eq!(s.state(), RunState::Idle);
    assert!(!s.spawn_failed());
    assert_eq!(s.state(), RunState::Idle);
    s.begin_start().unwrap();
    s.spawn_succeeded(1);
    assert!(!s.spawn_succeeded(2));
    assert_eq!(s.state(), RunState::Running { pid: 1 });
    assert!(!s.spawn_failed());
    assert_eq!(s.state(), RunState::Running { pid: 1 });
}

#[test]
fn stop_on_idle_does_nothing() {
    let mut s = Supervisor::new();
    assert_eq!(s.begin_stop(), None);
    assert_eq!(s.state(), RunState::Idle);
    assert!(!s.finish_stop());
    assert_eq!(s.state(), RunState::Idle);
    // and again
    assert_eq!(s.begin_stop(), None);
    assert_eq!(s.state(), RunState::Idle);
}

#[test]
fn stop_of_a_running_worker() {
    let mut s = Supervisor::new();
    s.begin_start().unwrap();
    s.spawn_succeeded(77);
    assert_eq!(s.begin_stop(), Some(77));
    assert_eq!(s.state(), RunState::Stopping);
    assert_eq!(s.begin_stop(), None);
    assert_eq!(s.state(), RunState::Stopping);
    assert!(s.finish_stop());
    assert_eq!(s.state(), RunState::Idle);
    assert!(!s.finish_stop());
}

#[test]
fn worker_that_closes_its_output_is_gone() {
    let mut s = Supervisor::new();
    s.begin_start().unwrap();
    s.spawn_succeeded(5);
    assert!(matches!(s.output_closed(), WorkerEvent::Stopped));
    assert_eq!(s.state(), RunState::Idle);
    assert_eq!(s.begin_start(), Ok(()));
}

#[test]
fn lines_then_closed_output_give_one_stop() {
    let lines = ["starting", "2024 ERROR boom", "done \u{2705}", "plain"];
    let mut s = Supervisor::new();
    s.begin_start().unwrap();
    s.spawn_succeeded(5);
    let mut events: Vec<WorkerEvent> = Vec::new();
    for l in lines {
        events.push(WorkerEvent::Log(stdout_event(l.to_string())));
    }
    events.push(s.output_closed());
    assert_eq!(s.state(), RunState::Idle);
    assert_eq!(events.len(), lines.len() + 1);
    let stops = events.iter().filter(|e| matches!(e, WorkerEvent::Stopped)).count();
    assert_eq!(stops, 1);
    assert!(matches!(events.last(), Some(WorkerEvent::Stopped)));
    let levels = ["info", "error", "success", "info"];
    for i in 0..lines.len() {
        match &events[i] {
            WorkerEvent::Log(e) => {
                assert_eq!(e.message, lines[i]);
                assert_eq!(e.level, levels[i]);
            }
            WorkerEvent::Stopped => panic!("stopped too early"),
        }
    }
}

#[test]
fn log_levels_by_marker() {
    assert_eq!(determine_log_level("an ERROR occurred"), "error");
    assert_eq!(determine_log_level("\u{274c} failed"), "error");
    assert_eq!(determine_log_level("WARNING: slow"), "warning");
    assert_eq!(determine_log_level("\u{26a0}\u{fe0f} careful"), "warning");
    assert_eq!(determine_log_level("SUCCESS"), "success");
    assert_eq!(determine_log_level("\u{2705} signed up"), "success");
    assert_eq!(determine_log_level("\u{1f389} all done"), "success");
    assert_eq!(determine_log_level("DEBUG x=1"), "debug");
    assert_eq!(determine_log_level("just a line"), "info");
    assert_eq!(determine_log_level(""), "info");
}

#[test]
fn log_levels_in_order_of_priority() {
    assert_eq!(determine_log_level("DEBUG WARNING ERROR"), "error");
    assert_eq!(determine_log_level("SUCCESS after WARNING"), "warning");
    assert_eq!(determine_log_level("DEBUG: SUCCESS"), "success");
    assert_eq!(determine_log_level("\u{2705} \u{274c}"), "error");
}

#[test]
fn log_levels_need_the_whole_marker() {
    assert_eq!(determine_log_level("error in lower case"), "info");
    assert_eq!(determine_log_level("ERRO"), "info");
    // the warning sign without its variation selector is no marker
    assert_eq!(determine_log_level("\u{26a0} careful"), "info");
    assert_eq!(determine_log_level("xERRORx"), "error");
}

#[test]
fn error_stream_is_always_an_error() {
    let e = stderr_event("SUCCESS".to_string());
    assert_eq!(e.level, "error");
    assert_eq!(e.message, "SUCCESS");
    let e = stdout_event("SUCCESS".to_string());
    assert_eq!(e.level, "success");
    assert_eq!(e.message, "SUCCESS");
}

#[test]
fn stop_watch_gives_the_worker_its_time() {
    assert_eq!(MAX_WAIT_MS, 10000);
    assert_eq!(POLL_INTERVAL_MS, 500);
    let mut w = StopWatch::new();
    assert_eq!(w.waited(), 0);
    let mut slept = 0;
    let mut looks = 0;
    loop {
        looks += 1;
        match w.on_poll(PollOutcome::StillRunning) {
            StopStep::Sleep { ms } => slept += ms,
            StopStep::Escalate => break,
            StopStep::Done => panic!("a worker that runs is not done"),
        }
        assert!(looks <= 100);
    }
    assert_eq!(slept, 10000);
    assert_eq!(looks, 21);
    assert_eq!(w.waited(), 10000);
    assert_eq!(w.on_poll(PollOutcome::StillRunning), StopStep::Escalate);
}

#[test]
fn stop_watch_ends_when_the_worker_exits() {
    let mut w = StopWatch::new();
    assert_eq!(w.on_poll(PollOutcome::Exited), StopStep::Done);
    assert_eq!(w.waited(), 0);
    let mut w = StopWatch::new();
    assert_eq!(w.on_poll(PollOutcome::StillRunning), StopStep::Sleep { ms: 500 });
    assert_eq!(w.on_poll(PollOutcome::StillRunning), StopStep::Sleep { ms: 500 });
    assert_eq!(w.waited(), 1000);
    assert_eq!(w.on_poll(PollOutcome::Exited), StopStep::Done);
    assert_eq!(w.waited(), 1000);
    let mut w = StopWatch::new();
    assert_eq!(w.on_poll(PollOutcome::Failed), StopStep::Done);
}

fn step_text(k: &KillStep) -> String {
    match k {
        KillStep::SignalGroup { pgid } => format!("signal {}", pgid),
        KillStep::Run { program, args } => format!("{} {}", program, args.join(" ")),
        KillStep::KillChild => "kill".to_string(),
        KillStep::WaitChild => "wait".to_string(),
    }
}

#[test]
fn escalation_on_each_platform() {
    let steps: Vec<_> = escalation(Os::Linux, 1234).iter().map(step_text).collect();
    assert_eq!(steps, vec!["signal 1234", "pkill -KILL -P 1234", "kill", "wait"]);
    let steps: Vec<_> = escalation(Os::MacOs, 7).iter().map(step_text).collect();
    assert_eq!(steps, vec!["signal 7", "pkill -KILL -P 7", "kill", "wait"]);
    let steps: Vec<_> = escalation(Os::Windows, 4294967295).iter().map(step_text).collect();
    assert_eq!(steps, vec!["taskkill /F /T /PID 4294967295", "kill", "wait"]);
    let steps: Vec<_> = escalation(Os::Other, 0).iter().map(step_text).collect();
    assert_eq!(steps, vec!["kill", "wait"]);
}

#[test]
fn process_groups_where_the_platform_has_them() {
    assert!(isolates_process_group(Os::Linux));
    assert!(isolates_process_group(Os::MacOs));
    assert!(!isolates_process_group(Os::Windows));
    assert!(!isolates_process_group(Os::Other));
}

#[test]
fn worker_arguments() {
    assert_eq!(build_args("/d/c.json", false, false), vec!["--config", "/d/c.json"]);
    assert_eq!(build_args("/d/c.json", true, false), vec!["--config", "/d/c.json", "--debug"]);
    assert_eq!(
        build_args("/d/c.json", false, true),
        vec!["--config", "/d/c.json", "--headless"]
    );
    assert_eq!(
        build_args("/d/c.json", true, true),
        vec!["--config", "/d/c.json", "--debug", "--headless"]
    );
}

fn config(debug: bool, headless: bool) -> BotConfig {
    BotConfig {
        credentials: Credentials {
            first_name: "A".to_string(),
            last_name: "B".to_string(),
            email: "a@b.c".to_string(),
            country_code: "+1".to_string(),
            phone: "555".to_string(),
        },
        api_keys: APIKeys { openai: "k".to_string(), captcha: "c".to_string() },
        settings: Settings {
            data_source: "csv".to_string(),
            csv_path: "x.csv".to_string(),
            meta_keywords: "".to_string(),
            ad_limit: 1,
            max_signups: 2,
            headless,
            debug,
            min_delay: 1,
            max_delay: 2,
            llm_model: "gpt-4".to_string(),
            batch_planning: false,
        },
    }
}

#[test]
fn worker_arguments_from_the_configuration() {
    assert_eq!(config(false, false).launch_args("c.json"), vec!["--config", "c.json"]);
    assert_eq!(
        config(true, true).launch_args("c.json"),
        vec!["--config", "c.json", "--debug", "--headless"]
    );
}

#[test]
fn command_line_puts_the_script_first() {
    let spec = script_launch(Some("py".to_string()), "/t".to_string(), "/t/main.py".to_string())
        .unwrap();
    let args = build_args("c.json", true, false);
    assert_eq!(command_line(&spec, &args), vec!["/t/main.py", "--config", "c.json", "--debug"]);
    let spec = sidecar_launch("/w".to_string());
    assert_eq!(command_line(&spec, &args), vec!["--config", "c.json", "--debug"]);
}

#[test]
fn environment_of_the_worker() {
    let env = worker_environment("1.2.3");
    let pairs: Vec<(&str, &str)> =
        env.iter().map(|e| (e.name.as_str(), e.value.as_str())).collect();
    assert_eq!(
        pairs,
        vec![("PYTHONIOENCODING", "utf-8"), ("PYTHONUTF8", "1"), ("INBOXHUNTER_VERSION", "1.2.3")]
    );
}

#[test]
fn launch_plan_of_a_script_on_linux() {
    let spec = script_launch(Some("py".to_string()), "/t".to_string(), "/t/main.py".to_string())
        .unwrap();
    let plan = plan_launch(&spec, "/d/c.json", false, true, "0.9", Os::Linux);
    assert_eq!(plan.executable, "py");
    assert_eq!(plan.args, vec!["/t/main.py", "--config", "/d/c.json", "--headless"]);
    assert_eq!(plan.working_dir, Some("/t".to_string()));
    assert_eq!(plan.env.len(), 3);
    assert_eq!(plan.env[2].value, "0.9");
    assert!(plan.own_process_group);
    assert!(!plan.hide_window);
}

#[test]
fn launch_plan_of_a_sidecar_on_windows() {
    let spec = sidecar_launch("C:\\w.exe".to_string());
    let plan = plan_launch(&spec, "c.json", true, false, "1.0", Os::Windows);
    assert_eq!(plan.executable, "C:\\w.exe");
    assert_eq!(plan.args, vec!["--config", "c.json", "--debug"]);
    assert_eq!(plan.working_dir, None);
    assert!(!plan.own_process_group);
    assert!(plan.hide_window);
}

#[test]
fn spawn_error_messages() {
    assert_eq!(
        spawn_error_message(LaunchMode::Script, "No such file"),
        "Failed to start bot: No such file"
    );
    assert_eq!(
        spawn_error_message(LaunchMode::Sidecar, "denied"),
        "Failed to start sidecar: denied"
    );
}

#[test]
fn at_most_one_worker_over_a_long_life() {
    let mut s = Supervisor::new();
    let mut live = 0;
    for round in 0..50u32 {
        if s.begin_start().is_ok() {
            live += 1;
        }
        assert!(s.begin_start().is_err());
        if round % 3 == 0 {
            if s.spawn_failed() {
                live -= 1;
            }
        } else {
            assert!(s.spawn_succeeded(round));
            assert!(s.begin_start().is_err());
            if round % 2 == 0 {
                assert_eq!(s.begin_stop(), Some(round));
                assert!(s.begin_start().is_err());
                if s.finish_stop() {
                    live -= 1;
                }
            } else {
                s.output_closed();
                live -= 1;
            }
        }
        assert_eq!(live, 0);
        assert_eq!(s.state(), RunState::Idle);
    }
}
