use agent_procs::daemon::log_writer::{LogCounters, rotation_renames};
use agent_procs::daemon::server::{
    admit_connection, follow_done, follow_wants, immediate_response, invalid_request_response, is_too_large,
    not_found_response, proxy_enabled_response, shutdown_response, too_large_response,
};
use agent_procs::daemon::wait_engine::{WaitSpec, find_in_history, history_mode, wait_timeout_secs};
use agent_procs::disk_log_reader::{DiskLogReader, LineSource, locate_line, merge_by_seq, segment_reads};
use agent_procs::matching::{MatchMode, split_lines};
use agent_procs::protocol::{ErrorCode, Request, Response};

#[test]
fn segment_reads_span_rotations() {
    // Rotated .2 and .1 of two lines each, then the current file.
    assert_eq!(segment_reads(&[2, 2, 2], 1, 4), vec![(0, 1, 1), (1, 0, 2), (2, 0, 1)]);
    assert_eq!(segment_reads(&[3], 1, 3), vec![(0, 1, 2)]);
    assert!(segment_reads(&[3], 5, 2).is_empty());
    assert_eq!(locate_line(&[2, 2, 2], 3), Some((1, 1)));
    assert_eq!(locate_line(&[2, 2, 2], 6), None);
}

#[test]
fn test_read_interleaved() {
    // stdout lines have sequence numbers 0, 2, 4 and stderr lines 1, 3.
    let entries = vec![
        (0u64, LineSource::Stdout, 0usize),
        (2, LineSource::Stdout, 1),
        (4, LineSource::Stdout, 2),
        (1, LineSource::Stderr, 0),
        (3, LineSource::Stderr, 1),
    ];
    let merged = merge_by_seq(&entries);
    let order: Vec<(LineSource, usize)> = merged.iter().map(|e| (e.1, e.2)).collect();
    assert_eq!(order, vec![
        (LineSource::Stdout, 0),
        (LineSource::Stderr, 0),
        (LineSource::Stdout, 1),
        (LineSource::Stderr, 1),
        (LineSource::Stdout, 2),
    ]);
    // Lines without an index sort last, in their order.
    let merged = merge_by_seq(&vec![(u64::MAX, LineSource::Stdout, 0), (5, LineSource::Stderr, 0), (u64::MAX, LineSource::Stdout, 1)]);
    assert_eq!(merged[0].1, LineSource::Stderr);
    assert_eq!(merged[1].2, 0);
    assert_eq!(merged[2].2, 1);
}

#[test]
fn test_line_count_single_file() {
    let mut reader = DiskLogReader::new("/tmp/logs".into(), "test".into());
    assert!(reader.is_stale(0));
    assert_eq!(reader.line_count(LineSource::Stdout), 0);
    reader.refresh(vec![3], vec![], 100);
    assert_eq!(reader.line_count(LineSource::Stdout), 3);
    assert_eq!(reader.line_count(LineSource::Stderr), 0);
    assert!(!reader.is_stale(600));
    assert!(reader.is_stale(601));
    reader.refresh(vec![2, 2, 2], vec![1, 1], 0);
    assert_eq!(reader.line_count_both(), 8);
}

#[test]
fn lines_split_like_str_lines() {
    assert_eq!(split_lines("a\nb\r\n\nc"), vec!["a", "b", "", "c"]);
    assert_eq!(split_lines("a\n"), vec!["a"]);
    assert!(split_lines("").is_empty());
}

#[test]
fn match_modes() {
    let m = MatchMode::new("a+b", true).unwrap();
    assert!(m.matches("xaaab"));
    assert!(!m.matches("xb"));
    let s = MatchMode::new("a+b", false).unwrap();
    assert!(s.matches("1a+b2"));
    assert!(!s.matches("aab"));
    assert!(MatchMode::new("(", true).is_err());
}

#[test]
fn waits_end_on_match_or_exit() {
    let w = WaitSpec::new("web", Some("ready"), false, true).ok().unwrap();
    assert_eq!(w.on_line("db", "ready"), None);
    assert_eq!(w.on_line("web", "starting"), None);
    assert_eq!(w.on_line("web", "now ready!"), Some(Response::WaitMatch { line: "now ready!".into() }));
    assert_eq!(w.on_exit_poll(None), None);
    assert_eq!(w.on_exit_poll(Some(Some(3))), Some(Response::WaitExited { exit_code: Some(3) }));
    let w2 = WaitSpec::new("web", None, false, false).ok().unwrap();
    match w2.on_closed(Some(None)) {
        Response::Error { message, .. } => assert_eq!(message, "output channel closed"),
        _ => panic!(),
    }
    match WaitSpec::new("web", Some("("), true, false) {
        Err(Response::Error { message, .. }) => assert!(message.starts_with("invalid regex: ")),
        _ => panic!(),
    }
    assert_eq!(wait_timeout_secs(None), 30);
    assert_eq!(wait_timeout_secs(Some(5)), 5);
}

#[test]
fn history_search() {
    let log = "boot\nListening on 8080\nmore";
    assert_eq!(find_in_history(log, "Listening", false).as_deref(), Some("Listening on 8080"));
    assert_eq!(find_in_history(log, "on \\d+", true).as_deref(), Some("Listening on 8080"));
    assert_eq!(find_in_history(log, "absent", false), None);
    // An invalid regex is looked for as a substring.
    assert_eq!(find_in_history("a(b", "(", true).as_deref(), Some("a(b"));
    assert!(matches!(history_mode("(", true), MatchMode::Substring(_)));
}

#[test]
fn server_answers() {
    assert!(admit_connection(63));
    assert!(!admit_connection(64));
    assert!(is_too_large(1048576));
    assert!(!is_too_large(1048575));
    match too_large_response(2000000) {
        Response::Error { message, .. } => assert_eq!(message, "message too large: 2000000 bytes (max 1048576)"),
        _ => panic!(),
    }
    match invalid_request_response("eof") {
        Response::Error { message, .. } => assert_eq!(message, "invalid request: eof"),
        _ => panic!(),
    }
    match not_found_response("x") {
        Response::Error { code, message } => {
            assert_eq!(code, ErrorCode::NotFound);
            assert_eq!(message, "process not found: x");
        },
        _ => panic!(),
    }
    assert_eq!(immediate_response(&Request::Hello { version: 9 }), Some(Response::Hello { version: 1 }));
    assert_eq!(immediate_response(&Request::Status), None);
    assert_eq!(
        immediate_response(&Request::Unknown),
        Some(Response::Error { code: ErrorCode::General, message: "unknown request type".into() })
    );
    assert_eq!(shutdown_response(), Response::Success { message: "daemon shutting down".into() });
    assert_eq!(proxy_enabled_response(Some(9091), 9090), Response::Success { message: "Proxy already listening on http://localhost:9091".into() });
    assert_eq!(proxy_enabled_response(None, 9090), Response::Success { message: "Proxy listening on http://localhost:9090".into() });
    assert!(follow_wants(&Some("a".into()), false, "a"));
    assert!(!follow_wants(&Some("a".into()), false, "b"));
    assert!(follow_wants(&Some("a".into()), true, "b"));
    assert!(follow_wants(&None, false, "b"));
    assert!(follow_done(3, Some(3)));
    assert!(!follow_done(3, None));
}

#[test]
fn log_writer_bookkeeping() {
    let mut c = LogCounters::new(0, 10);
    let s = c.plan_write(3);
    assert!(!s.rotate);
    assert_eq!(s.byte_offset, 0);
    let s = c.plan_write(3);
    assert_eq!(s.byte_offset, 4);
    let s = c.plan_write(3);
    assert!(s.rotate);
    assert_eq!(s.byte_offset, 0);
    assert_eq!(c.bytes_written, 4);
    let mut never = LogCounters::new(0, 0);
    for _ in 0..63 {
        assert!(!never.plan_write(1).flush_index);
    }
    assert!(never.plan_write(1).flush_index);
    assert_eq!(rotation_renames(3), vec![(2, 3), (1, 2), (0, 1)]);
    assert_eq!(rotation_renames(0), vec![(0, 1)]);
}

#[test]
fn test_empty_dir() {
    // A log directory with no files of the process: no segments of either stream.
    let mut reader = DiskLogReader::new("/tmp/empty-logs".into(), "test".into());
    reader.refresh(vec![], vec![], 0);
    assert_eq!(reader.line_count(LineSource::Stdout), 0);
    assert_eq!(reader.line_count_both(), 0);
}
