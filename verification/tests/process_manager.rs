use agent_procs::daemon::process_manager::{
    ProcessManager, all_stopped_response, exhausted_message, is_unsafe_name, is_valid_dns_label,
    manual_restart_message, restarted_message, rewrite_urls, spawn_env, stopped_response,
};
use agent_procs::protocol::{ErrorCode, ProcessState, Response, RestartMode, RestartPolicy};

#[test]
fn process_manager_test_valid_dns_labels() {
    assert!(is_valid_dns_label("api"));
    assert!(is_valid_dns_label("my-app"));
    assert!(is_valid_dns_label("a"));
    assert!(is_valid_dns_label("a1"));
    assert!(is_valid_dns_label("123"));
}

#[test]
fn process_manager_test_invalid_dns_labels() {
    assert!(!is_valid_dns_label(""));
    assert!(!is_valid_dns_label("-start"));
    assert!(!is_valid_dns_label("end-"));
    assert!(!is_valid_dns_label("UPPER"));
    assert!(!is_valid_dns_label("has.dot"));
    assert!(!is_valid_dns_label("has space"));
    assert!(!is_valid_dns_label(&"a".repeat(64)));
    assert!(!is_valid_dns_label("has_underscore"));
}

fn spawn(pm: &mut ProcessManager, name: Option<&str>, port: Option<u16>, pid: u32) -> Response {
    match pm.prepare_spawn("echo hi", name.map(String::from), None, None, port, |_| true) {
        Ok(plan) => pm.register_spawned(plan, pid, 1000),
        Err(e) => e,
    }
}

#[test]
fn spawn_names_ids_and_refusals() {
    let mut pm = ProcessManager::new("s");
    assert_eq!(pm.session_name(), "s");
    match spawn(&mut pm, None, None, 10) {
        Response::RunOk { name, id, pid, port, url } => {
            assert_eq!((name.as_str(), id.as_str(), pid, port, url), ("p1", "p1", 10, None, None));
        },
        _ => panic!("expected RunOk"),
    }
    match spawn(&mut pm, Some("web"), Some(8080), 11) {
        Response::RunOk { name, id, url, .. } => {
            assert_eq!(name, "web");
            assert_eq!(id, "p2");
            assert_eq!(url.as_deref(), Some("http://127.0.0.1:8080"));
        },
        _ => panic!("expected RunOk"),
    }
    match spawn(&mut pm, Some("web"), None, 12) {
        Response::Error { code, message } => {
            assert_eq!(code, ErrorCode::General);
            assert_eq!(message, "process already exists: web");
        },
        _ => panic!("expected an error"),
    }
    match spawn(&mut pm, Some("../etc"), None, 13) {
        Response::Error { message, .. } => assert_eq!(message, "invalid process name: ../etc"),
        _ => panic!("expected an error"),
    }
    assert!(pm.has_process("web"));
    assert!(pm.has_process("p2"));
    assert!(!pm.has_process("nope"));
}

#[test]
fn proxy_requires_dns_names_and_assigns_ports() {
    let mut pm = ProcessManager::new("s");
    pm.enable_proxy();
    match spawn(&mut pm, Some("Web"), None, 1) {
        Response::Error { message, .. } => assert_eq!(
            message,
            "invalid process name for proxy: 'Web' (must be lowercase alphanumeric/hyphens, max 63 chars)"
        ),
        _ => panic!("expected an error"),
    }
    match spawn(&mut pm, Some("api"), None, 2) {
        Response::RunOk { port, .. } => assert_eq!(port, Some(4000)),
        _ => panic!("expected RunOk"),
    }
    match spawn(&mut pm, Some("db"), None, 3) {
        Response::RunOk { port, .. } => assert_eq!(port, Some(4001)),
        _ => panic!("expected RunOk"),
    }
    let ports = pm.running_ports();
    assert_eq!(ports, vec![("api".to_string(), 4000), ("db".to_string(), 4001)]);
}

#[test]
fn stop_and_exit_states() {
    let mut pm = ProcessManager::new("s");
    spawn(&mut pm, Some("b"), None, 5);
    spawn(&mut pm, Some("a"), None, 6);
    match pm.begin_stop("nope") {
        Err(Response::Error { code, message }) => {
            assert_eq!(code, ErrorCode::NotFound);
            assert_eq!(message, "process not found: nope");
        },
        _ => panic!("expected not found"),
    }
    let t = pm.begin_stop("b").ok().unwrap();
    assert_eq!((t.name.as_str(), t.pid, t.running), ("b", 5, true));
    pm.finish_stop("b", Some(-9));
    assert_eq!(pm.is_process_exited("b"), Some(Some(-9)));
    assert_eq!(pm.is_process_exited("a"), None);
    assert!(pm.record_exit("a", Some(0)));
    assert!(!pm.record_exit("a", Some(1)));
    let infos = pm.build_process_infos(5000);
    assert_eq!(infos.len(), 2);
    assert_eq!(infos[0].name, "a");
    assert_eq!(infos[1].name, "b");
    assert_eq!(infos[0].state, ProcessState::Exited);
    assert_eq!(infos[1].exit_code, Some(-9));
    match stopped_response("b") {
        Response::Success { message } => assert_eq!(message, "stopped b"),
        _ => panic!(),
    }
    match all_stopped_response() {
        Response::Success { message } => assert_eq!(message, "all processes stopped"),
        _ => panic!(),
    }
}

#[test]
fn status_reports_uptime_and_sorted_names() {
    let mut pm = ProcessManager::new("s");
    spawn(&mut pm, Some("zeta"), None, 1);
    spawn(&mut pm, Some("alpha"), Some(3000), 2);
    let infos = pm.build_process_infos(1000 + 61_500);
    assert_eq!(infos[0].name, "alpha");
    assert_eq!(infos[0].uptime_secs, Some(61));
    assert_eq!(infos[0].url.as_deref(), Some("http://127.0.0.1:3000"));
    assert_eq!(infos[1].name, "zeta");
    let rewritten = rewrite_urls(pm.status_snapshot(1000), Some(9090));
    match rewritten {
        Response::Status { processes } => {
            assert_eq!(processes[0].url.as_deref(), Some("http://alpha.localhost:9090"));
            assert_eq!(processes[1].url, None);
        },
        _ => panic!(),
    }
}

#[test]
fn test_respawn_in_place_preserves_metadata() {
    let mut pm = ProcessManager::new("test-respawn");
    spawn(&mut pm, Some("worker"), None, 7);
    let policy = RestartPolicy { mode: RestartMode::OnFailure, max_restarts: Some(5), restart_delay_ms: 1000 };
    pm.set_supervision("worker", Some(policy), None);
    assert!(pm.record_exit("worker", Some(1)));
    let (restart, exhausted) = pm.classify_restart_candidates();
    assert_eq!(restart, vec!["worker"]);
    assert!(exhausted.is_empty());
    let (delayed, notes) = pm.schedule_restarts();
    assert_eq!(delayed, vec![("worker".to_string(), 1000)]);
    assert!(notes.is_empty());
    assert_eq!(pm.begin_auto_restart("worker"), Some(Some(1)));
    let spec = pm.respawn_spec("worker").ok().unwrap();
    assert_eq!(spec.restart_count, 1);
    pm.remove("worker");
    let plan = pm.prepare_spawn(&spec.command, Some(spec.name.clone()), None, None, spec.port, |_| true).ok().unwrap();
    pm.register_spawned(plan, 8, 2000);
    assert!(pm.finish_respawn(spec, Ok(())).is_ok());
    let i = pm.find("worker").unwrap();
    let p = pm.record(i);
    assert!(p.running);
    assert_eq!(p.restart_count, 1);
    assert_eq!(p.restart_policy.map(|r| r.mode), Some(RestartMode::OnFailure));
    assert!(!p.failed);
}

#[test]
fn test_respawn_in_place_tombstone_on_failure() {
    let mut pm = ProcessManager::new("test-tombstone");
    spawn(&mut pm, Some("worker"), None, 7);
    let policy = RestartPolicy { mode: RestartMode::Always, max_restarts: Some(3), restart_delay_ms: 1000 };
    pm.set_supervision("worker", Some(policy), None);
    let spec = pm.respawn_spec("worker").ok().unwrap();
    pm.remove("worker");
    assert!(!pm.has_process("worker"));
    assert_eq!(pm.finish_respawn(spec, Err("failed to spawn: boom".into())), Err("failed to spawn: boom".to_string()));
    let i = pm.find("worker").unwrap();
    let p = pm.record(i);
    assert!(!p.running);
    assert!(p.failed);
    assert_eq!(p.id, "tombstone");
    assert_eq!(p.restart_policy, Some(policy));
    assert_eq!(p.command, "echo hi");
}

#[test]
fn exhausted_processes_are_marked_failed() {
    let mut pm = ProcessManager::new("s");
    spawn(&mut pm, Some("w"), None, 7);
    let policy = RestartPolicy { mode: RestartMode::Always, max_restarts: Some(0), restart_delay_ms: 5 };
    pm.set_supervision("w", Some(policy), None);
    pm.record_exit("w", Some(0));
    let (delayed, notes) = pm.schedule_restarts();
    assert!(delayed.is_empty());
    assert_eq!(notes, vec![("w".to_string(), "[agent-procs] Max restarts (0) exhausted".to_string())]);
    let infos = pm.build_process_infos(0);
    assert_eq!(infos[0].state, ProcessState::Failed);
    assert_eq!(exhausted_message(3), "[agent-procs] Max restarts (3) exhausted");
}

#[test]
fn restart_notes_and_env() {
    assert_eq!(restarted_message(Some(1), 2, Some(5)), "[agent-procs] Restarted (exit 1, attempt 2/5)");
    assert_eq!(restarted_message(None, 1, None), "[agent-procs] Restarted (exit signal, attempt 1)");
    let env = spawn_env(Some(3000), Some(vec![("PORT".into(), "1".into())]));
    assert_eq!(env, vec![
        ("PORT".to_string(), "3000".to_string()),
        ("HOST".to_string(), "127.0.0.1".to_string()),
        ("PORT".to_string(), "1".to_string()),
    ]);
    assert!(spawn_env(None, None).is_empty());
    assert!(is_unsafe_name("a/b"));
    assert!(is_unsafe_name("a\\b"));
    assert!(is_unsafe_name("a..b"));
    assert!(!is_unsafe_name("a.b"));
}

#[test]
fn manual_restart_resets_supervision() {
    let mut pm = ProcessManager::new("s");
    spawn(&mut pm, Some("w"), None, 7);
    let spec = pm.begin_restart("w").ok().unwrap();
    assert_eq!(spec.name, "w");
    assert_eq!(spec.command, "echo hi");
    match pm.begin_restart("zz") {
        Err(Response::Error { code, .. }) => assert_eq!(code, ErrorCode::NotFound),
        _ => panic!(),
    }
    assert!(pm.watch_restart_allowed("w"));
    pm.begin_stop("w").ok();
    assert!(!pm.watch_restart_allowed("w"));
    pm.reset_for_watch_restart("w");
    assert!(pm.watch_restart_allowed("w"));
    pm.mark_failed("w");
    pm.clear_restart_pending("w");
    assert_eq!(pm.names(), vec!["w"]);
    pm.clear();
    assert!(pm.names().is_empty());
}

#[test]
fn stopped_by_hand_is_never_restarted() {
    let mut pm = ProcessManager::new("s");
    spawn(&mut pm, Some("w"), None, 7);
    let policy = RestartPolicy { mode: RestartMode::Always, max_restarts: None, restart_delay_ms: 5 };
    pm.set_supervision("w", Some(policy), None);
    pm.begin_stop("w").ok();
    pm.finish_stop("w", Some(1));
    assert_eq!(pm.classify_restart_candidates(), (Vec::<String>::new(), Vec::<String>::new()));
    let (delayed, notes) = pm.schedule_restarts();
    assert!(delayed.is_empty());
    assert!(notes.is_empty());
    // A restart by hand re-enables the supervisor.
    pm.begin_restart("w").ok();
    assert_eq!(pm.classify_restart_candidates().0, vec!["w".to_string()]);
}

#[test]
fn restarts_stop_at_the_limit() {
    let mut pm = ProcessManager::new("s");
    spawn(&mut pm, Some("w"), None, 7);
    let policy = RestartPolicy { mode: RestartMode::OnFailure, max_restarts: Some(1), restart_delay_ms: 5 };
    pm.set_supervision("w", Some(policy), None);
    pm.record_exit("w", Some(3));
    let (delayed, _) = pm.schedule_restarts();
    assert_eq!(delayed, vec![("w".to_string(), 5)]);
    assert_eq!(pm.begin_auto_restart("w"), Some(Some(3)));
    // The process was restarted once and crashed again: out of restarts.
    pm.clear_restart_pending("w");
    let (restartable, exhausted) = pm.classify_restart_candidates();
    assert!(restartable.is_empty());
    assert_eq!(exhausted, vec!["w".to_string()]);
}

#[test]
fn user_env_overrides_injected_port() {
    // The last entry for a variable wins when the child's environment is set.
    let env = spawn_env(Some(3000), Some(vec![("HOST".into(), "0.0.0.0".into())]));
    let value = |k: &str| env.iter().rev().find(|(n, _)| n == k).map(|(_, v)| v.clone());
    assert_eq!(value("HOST").as_deref(), Some("0.0.0.0"));
    assert_eq!(value("PORT").as_deref(), Some("3000"));
}

#[test]
fn manual_restart_note() {
    assert_eq!(manual_restart_message(), "[agent-procs] Restarted (manual)");
}

#[test]
fn record_keeps_requested_env_only() {
    let mut pm = ProcessManager::new("s");
    pm.enable_proxy();
    let plan = pm
        .prepare_spawn("echo hi", Some("api".into()), None, Some(vec![("A".into(), "1".into())]), None, |_| true)
        .ok()
        .unwrap();
    assert_eq!(plan.env, vec![
        ("PORT".to_string(), "4000".to_string()),
        ("HOST".to_string(), "127.0.0.1".to_string()),
        ("A".to_string(), "1".to_string()),
    ]);
    pm.register_spawned(plan, 5, 0);
    let i = pm.find("api").unwrap();
    assert_eq!(pm.record(i).env, vec![("A".to_string(), "1".to_string())]);
}

#[test]
fn no_free_auto_port_is_refused() {
    let mut pm = ProcessManager::new("s");
    pm.enable_proxy();
    match pm.prepare_spawn("echo hi", Some("api".into()), None, None, None, |_| false) {
        Err(Response::Error { code, message }) => {
            assert_eq!(code, ErrorCode::General);
            assert_eq!(message, "no free port available in range 4000-4999 (started at 4000)");
        }
        _ => panic!("expected a refusal"),
    }
    // A port refused by the probe is passed over for the next one.
    match spawn_with(&mut pm, |p| p != 4000) {
        Response::RunOk { port, .. } => assert_eq!(port, Some(4001)),
        _ => panic!("expected a spawn"),
    }
}

fn spawn_with<F: Fn(u16) -> bool>(pm: &mut ProcessManager, probe: F) -> Response {
    match pm.prepare_spawn("echo hi", Some("web".into()), None, None, None, probe) {
        Ok(plan) => pm.register_spawned(plan, 9, 0),
        Err(e) => e,
    }
}
