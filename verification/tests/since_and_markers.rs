use agent_procs::daemon::watch_patterns::{check_watch_patterns, default_ignore_patterns};
use agent_procs::daemon::log_writer::rotated_log_name;
use agent_procs::daemon::proxy::bind_failure;
use agent_procs::cli::log_search::{
    after_marker, duration_in_range, expand_context, first_after_seq, last_restart_marker, parse_since,
    restart_marker, since_start_line, SinceSpec,
};
use agent_procs::daemon::process_manager::{file_changed_message, proxied_run_ok, spawn_failed_response};
use agent_procs::matching::{matching_line_numbers, MatchMode};
use agent_procs::paths::pid_file_session;
use agent_procs::protocol::{ErrorCode, Response};

#[test]
fn since_values() {
    assert_eq!(parse_since("start"), Ok(SinceSpec::Start));
    assert_eq!(parse_since("restart"), Ok(SinceSpec::Restart));
    assert_eq!(parse_since("5m"), Ok(SinceSpec::Duration(300)));
    assert_eq!(parse_since("2h"), Ok(SinceSpec::Duration(7200)));
    assert_eq!(parse_since("30d").unwrap_err(), "unknown duration suffix 'd' (expected s/m/h)");
    assert_eq!(parse_since("").unwrap_err(), "empty duration");
    assert_eq!(parse_since("0s").unwrap_err(), "duration must be positive");
}

#[test]
fn duration_ranges() {
    assert!(duration_in_range("30s"));
    assert!(duration_in_range("restart"));
    assert!(duration_in_range(""));
    assert!(duration_in_range("18446744073709551615s"));
    assert!(!duration_in_range("18446744073709551615m"));
    assert!(!duration_in_range("5124095576030432h"));
    assert!(duration_in_range("5124095576030431h"));
}

#[test]
fn since_start_lines() {
    assert_eq!(since_start_line(SinceSpec::Start, 100, Some(10), 40), (0, false));
    assert_eq!(since_start_line(SinceSpec::Restart, 100, Some(10), 40), (40, false));
    // 100 lines over 100 seconds: the last 30 seconds are the last 30 lines.
    assert_eq!(since_start_line(SinceSpec::Duration(30), 100, Some(100), 0), (70, false));
    // Never before the incarnation start.
    assert_eq!(since_start_line(SinceSpec::Duration(30), 100, Some(100), 80), (80, false));
    // A window longer than the uptime reaches back to the start.
    assert_eq!(since_start_line(SinceSpec::Duration(300), 100, Some(100), 0), (0, false));
    // Without an uptime: the incarnation start, with a warning.
    assert_eq!(since_start_line(SinceSpec::Duration(30), 100, None, 12), (12, true));
    assert_eq!(since_start_line(SinceSpec::Duration(30), 100, Some(0), 12), (12, true));
    // An empty log starts at 0.
    assert_eq!(since_start_line(SinceSpec::Duration(30), 0, None, 12), (0, false));
}

#[test]
fn restart_markers() {
    assert!(restart_marker("[agent-procs] Restarted (exit 1, attempt 1/3)"));
    assert!(restart_marker("[agent-procs] Restarted"));
    assert!(restart_marker(&file_changed_message()));
    assert!(!restart_marker("[agent-procs] Max restarts (3) exhausted"));
    assert!(!restart_marker("server Restarted"));
    let lines: Vec<String> = vec![
        "boot".into(),
        "[agent-procs] Restarted (exit 1, attempt 1)".into(),
        "up".into(),
        "[agent-procs] File changed, restarted".into(),
        "up again".into(),
    ];
    assert_eq!(last_restart_marker(&lines), Some(3));
    assert_eq!(after_marker(last_restart_marker(&lines)), 4);
    let plain: Vec<String> = vec!["a".into(), "b".into()];
    assert_eq!(last_restart_marker(&plain), None);
    assert_eq!(after_marker(None), 0);
}

#[test]
fn cross_stream_positions() {
    // stderr lines were written with sequence numbers 1, 3, 6, 8.
    let seqs = [1u64, 3, 6, 8];
    assert_eq!(first_after_seq(&seqs, 4), 2);
    assert_eq!(first_after_seq(&seqs, 0), 0);
    assert_eq!(first_after_seq(&seqs, 8), 4);
    assert_eq!(first_after_seq(&[], 5), 0);
}

#[test]
fn matching_numbers_of_a_window() {
    let lines: Vec<String> = vec!["ok".into(), "error: a".into(), "fine".into(), "error: b".into()];
    let sub = MatchMode::new("error", false).unwrap();
    assert_eq!(matching_line_numbers(&lines, &sub, 10), vec![11, 13]);
    let re = MatchMode::new("^(ok|fine)$", true).unwrap();
    assert_eq!(matching_line_numbers(&lines, &re, 0), vec![0, 2]);
    assert!(matching_line_numbers(&Vec::new(), &sub, 5).is_empty());
}

#[test]
fn pid_file_sessions() {
    assert_eq!(pid_file_session("default.pid"), Some("default".to_string()));
    assert_eq!(pid_file_session("my.app.pid"), Some("my.app".to_string()));
    assert_eq!(pid_file_session("default.sock"), None);
    assert_eq!(pid_file_session(".pid"), None);
}

#[test]
fn spawn_answers() {
    match spawn_failed_response("No such file or directory") {
        Response::Error { code, message } => {
            assert_eq!(code, ErrorCode::General);
            assert_eq!(message, "failed to spawn: No such file or directory");
        }
        other => panic!("unexpected {:?}", other),
    }
    let ok = Response::RunOk { name: "api".into(), id: "p1".into(), pid: 7, port: Some(4000), url: None };
    assert_eq!(
        proxied_run_ok(ok.clone(), Some(9090)),
        Response::RunOk {
            name: "api".into(),
            id: "p1".into(),
            pid: 7,
            port: Some(4000),
            url: Some("http://api.localhost:9090".into()),
        }
    );
    assert_eq!(proxied_run_ok(ok.clone(), None), ok);
    let no_port = Response::RunOk { name: "w".into(), id: "p2".into(), pid: 8, port: None, url: None };
    assert_eq!(proxied_run_ok(no_port.clone(), Some(9090)), no_port);
}

#[test]
fn context_lines_are_ascending_and_complete() {
    // Matches 2 and 8 with one line of context in a 10-line log: every
    // line near a match once, in order, the matches not marked as context.
    let out = expand_context(&[2, 8], 1, 10);
    assert_eq!(out, vec![(1, true), (2, false), (3, true), (7, true), (8, false), (9, true)]);
    // Adjacent ranges merge into one.
    let out = expand_context(&[2, 4], 1, 10);
    assert_eq!(out, vec![(1, true), (2, false), (3, true), (4, false), (5, true)]);
}

#[test]
fn rotated_names_and_bind_failures() {
    assert_eq!(rotated_log_name("/logs/web.stdout", 0), "/logs/web.stdout");
    assert_eq!(rotated_log_name("/logs/web.stdout", 3), "/logs/web.stdout.3");
    assert_eq!(
        bind_failure(Some(9095), "Address in use".into()).message(),
        "requested proxy port 9095 is not available: Address in use"
    );
    assert_eq!(bind_failure(None, String::new()).message(), "no free proxy port available in range 9090-9190");
}

#[test]
fn watch_patterns_are_checked() {
    assert_eq!(default_ignore_patterns().len(), 6);
    assert!(check_watch_patterns(&vec!["src/**".to_string(), "config/*".to_string()], &None).is_ok());
    assert!(check_watch_patterns(&vec!["src/**".to_string()], &Some(vec!["*.log".to_string()])).is_ok());
    let bad_path = check_watch_patterns(&vec!["src/[".to_string()], &None).unwrap_err();
    assert!(bad_path.contains("src/["), "{}", bad_path);
    // A bad ignore pattern is reported before the watched paths.
    let bad_ignore = check_watch_patterns(&vec!["a[".to_string()], &Some(vec!["b{".to_string()])).unwrap_err();
    assert!(bad_ignore.contains("b{"), "{}", bad_ignore);
}
