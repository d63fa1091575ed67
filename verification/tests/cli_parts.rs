use agent_procs::cli::logs::{
    check_log_args, follow_line_text, follow_warnings, keep_last, log_owner_of, log_process_names, search_exit_code,
};
use agent_procs::cli::status::{format_uptime, status_table};
use agent_procs::cli::up::{
    ready_outcome, ready_request, resolve_cwd, select_group, split_only, start_outcome, start_request, started_line,
    UpOutcome,
};
use agent_procs::config::ProcessDef;
use agent_procs::protocol::{ErrorCode, ProcessInfo, ProcessState, Request, Response};

#[test]
fn uptimes() {
    assert_eq!(format_uptime(42), "42s");
    assert_eq!(format_uptime(303), "5m3s");
    assert_eq!(format_uptime(7620), "2h7m");
    assert_eq!(format_uptime(60), "1m0s");
}

#[test]
fn status_table_columns() {
    let p = ProcessInfo {
        name: "web".into(),
        id: "p1".into(),
        pid: 42,
        state: ProcessState::Running,
        exit_code: None,
        uptime_secs: Some(5),
        command: "x".into(),
        port: None,
        url: None,
        restart_count: None,
        max_restarts: None,
        restart_policy: None,
        watched: None,
    };
    let t = status_table(&vec![p]);
    assert_eq!(t[0], "NAME         PID      STATE      EXIT   UPTIME");
    assert_eq!(t[1], "web          42       running    -      5s");
}

#[test]
fn log_arguments() {
    assert_eq!(check_log_args(true, false, false).unwrap_err(), "--context requires --grep");
    assert_eq!(check_log_args(false, false, true).unwrap_err(), "--regex requires --grep");
    assert!(check_log_args(true, true, true).is_ok());
    assert_eq!(follow_warnings(true, true).len(), 2);
    assert_eq!(log_owner_of("web.stdout").as_deref(), Some("web"));
    assert_eq!(log_owner_of("web.stdout.idx"), None);
    let names = log_process_names(&vec!["a.stdout".into(), "a.stderr".into(), "b.stderr".into(), "x.idx".into()]);
    assert_eq!(names, vec!["a", "b"]);
    assert_eq!(follow_line_text("a", "hi", true), "[a] hi");
    assert_eq!(follow_line_text("a", "hi", false), "hi");
    assert_eq!(keep_last(vec!["1".into(), "2".into(), "3".into()], 2), vec!["2", "3"]);
    assert!(keep_last(vec!["1".into()], 0).is_empty());
}

#[test]
fn up_plan() {
    assert_eq!(split_only("a,b,,c"), vec!["a", "b", "", "c"]);
    let group = vec!["a".to_string(), "b".to_string(), "c".to_string()];
    assert_eq!(select_group(&group, &None), group);
    assert_eq!(select_group(&group, &Some(vec!["c".into(), "a".into()])), vec!["a", "c"]);
    assert_eq!(resolve_cwd("/proj", "backend"), "/proj/backend");
    assert_eq!(resolve_cwd("/proj", "/abs"), "/abs");
    let def = ProcessDef {
        cmd: "run".into(),
        cwd: Some("sub".into()),
        env: vec![],
        ready: None,
        depends_on: vec![],
        port: Some(8080),
        autorestart: None,
        max_restarts: None,
        restart_delay: None,
        watch: None,
        watch_ignore: None,
    };
    match start_request("api", &def, "/proj") {
        Request::Run { command, name, cwd, env, port, .. } => {
            assert_eq!(command, "run");
            assert_eq!(name.as_deref(), Some("api"));
            assert_eq!(cwd.as_deref(), Some("/proj/sub"));
            assert!(env.is_none());
            assert_eq!(port, Some(8080));
        },
        _ => panic!(),
    }
    match ready_request("api", "Listening") {
        Request::Wait { target, until, timeout_secs, .. } => {
            assert_eq!(target, "api");
            assert_eq!(until.as_deref(), Some("Listening"));
            assert_eq!(timeout_secs, Some(30));
        },
        _ => panic!(),
    }
    assert_eq!(started_line("api", "p1", 7), "started api (id: p1, pid: 7)");
}

#[test]
fn logs_exit_codes() {
    assert_eq!(search_exit_code(true, true), 0);
    assert_eq!(search_exit_code(true, false), 2);
    assert_eq!(search_exit_code(false, true), 1);
    assert_eq!(search_exit_code(false, false), 1);
}

#[test]
fn up_outcomes() {
    let ok = Response::RunOk { name: "web".into(), id: "p1".into(), pid: 42, port: None, url: None };
    assert_eq!(start_outcome("web", Some(&ok)), UpOutcome::Say("started web (id: p1, pid: 42)".into()));
    let err = Response::Error { code: ErrorCode::NotFound, message: "gone".into() };
    assert_eq!(start_outcome("web", Some(&err)), UpOutcome::Stop { message: "error starting web: gone".into(), code: 2 });
    assert_eq!(start_outcome("web", None), UpOutcome::Exit { code: 1 });
    let m = Response::WaitMatch { line: "ready".into() };
    assert_eq!(ready_outcome("web", Some(&m)), UpOutcome::Say("web is ready".into()));
    assert_eq!(
        ready_outcome("web", Some(&Response::WaitTimeout)),
        UpOutcome::Warn("warning: web did not become ready within 30s".into())
    );
    assert_eq!(ready_outcome("web", Some(&err)), UpOutcome::Stop { message: "error waiting for web: gone".into(), code: 1 });
    assert_eq!(ready_outcome("web", None), UpOutcome::Continue);
}
