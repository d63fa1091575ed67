use agent_procs::cli::log_search::{
    SearchLine, SearchParams, SearchResult, assemble_result, expand_context, format_results_text, parse_duration,
    search_begin, search_selection, select_lines, source_name,
};
use agent_procs::disk_log_reader::{LineSource, StreamMode};

#[test]
fn test_parse_duration_seconds() {
    assert_eq!(parse_duration("30s").unwrap(), 30);
    assert_eq!(parse_duration("1s").unwrap(), 1);
    assert_eq!(parse_duration("120s").unwrap(), 120);
}

#[test]
fn test_parse_duration_minutes() {
    assert_eq!(parse_duration("5m").unwrap(), 300);
    assert_eq!(parse_duration("1m").unwrap(), 60);
}

#[test]
fn test_parse_duration_hours() {
    assert_eq!(parse_duration("2h").unwrap(), 7200);
    assert_eq!(parse_duration("1h").unwrap(), 3600);
}

#[test]
fn test_parse_duration_invalid() {
    assert!(parse_duration("").is_err());
    assert!(parse_duration("30").is_err());
    assert!(parse_duration("abc").is_err());
    assert!(parse_duration("30d").is_err());
    assert!(parse_duration("0s").is_err());
    assert!(parse_duration("-5s").is_err());
}

#[test]
fn parse_duration_error_messages() {
    assert_eq!(parse_duration("").unwrap_err(), "empty duration");
    assert_eq!(parse_duration("30d").unwrap_err(), "unknown duration suffix 'd' (expected s/m/h)");
    assert_eq!(parse_duration("xs").unwrap_err(), "invalid number in duration 'xs'");
    assert_eq!(parse_duration("0m").unwrap_err(), "duration must be positive");
}

#[test]
fn test_expand_context_no_context() {
    let matches = vec![3, 7, 12];
    let result = expand_context(&matches, 0, 20);
    assert_eq!(result, vec![(3, false), (7, false), (12, false)]);
}

#[test]
fn test_expand_context_with_context() {
    let matches = vec![5];
    let result = expand_context(&matches, 1, 10);
    assert_eq!(result, vec![(4, true), (5, false), (6, true)]);
}

#[test]
fn test_expand_context_merge_overlapping() {
    let matches = vec![3, 5];
    let result = expand_context(&matches, 1, 10);
    assert_eq!(result, vec![(2, true), (3, false), (4, true), (5, false), (6, true),]);
}

#[test]
fn test_expand_context_clamps_to_bounds() {
    let matches = vec![0];
    let result = expand_context(&matches, 3, 5);
    assert_eq!(result, vec![(0, false), (1, true), (2, true), (3, true),]);

    let matches = vec![4];
    let result = expand_context(&matches, 3, 5);
    assert_eq!(result, vec![(1, true), (2, true), (3, true), (4, false),]);
}

#[test]
fn test_expand_context_empty_matches() {
    let result = expand_context(&[], 2, 10);
    assert!(result.is_empty());
}

#[test]
fn test_expand_context_zero_total() {
    let result = expand_context(&[0], 2, 0);
    assert!(result.is_empty());
}

#[test]
fn expand_context_adjacent_ranges_merge() {
    // 1..3 and 3..5 touch: one group, no gap.
    let result = expand_context(&[1, 4], 1, 10);
    assert_eq!(result, vec![(0, true), (1, false), (2, true), (3, true), (4, false), (5, true)]);
}

#[test]
fn select_lines_keeps_last_tail_matches() {
    assert_eq!(select_lines(vec![1, 2, 3, 4], 2, None, 10), vec![(3, false), (4, false)]);
    assert_eq!(select_lines(vec![1, 2, 3, 4], 0, None, 10), vec![(1, false), (2, false), (3, false), (4, false)]);
    assert_eq!(select_lines(vec![8], 1, Some(1), 10), vec![(7, true), (8, false), (9, true)]);
}

#[test]
fn search_params_modes() {
    let p = SearchParams { grep: None, regex: false, since: None, tail: 0, context: None, stderr: true };
    assert!(matches!(p.stream_mode(), StreamMode::Stderr));
    assert!(p.match_mode().unwrap().is_none());
    let p = SearchParams { grep: Some("(".into()), regex: true, since: None, tail: 0, context: None, stderr: false };
    let err = p.match_mode().unwrap_err();
    assert!(err.starts_with("invalid regex '(': "));
    let p = SearchParams { grep: Some("ab".into()), regex: false, since: None, tail: 0, context: None, stderr: false };
    assert!(p.match_mode().unwrap().is_some());
}

#[test]
fn assemble_and_format_results() {
    let read = vec![(LineSource::Stdout, "a".to_string()), (LineSource::Stdout, "b".to_string())];
    let r = assemble_result("web", &vec![(1, false), (2, true), (5, false)], &read, StreamMode::Stdout);
    assert_eq!(r.process, "web");
    assert_eq!(r.lines.len(), 3);
    assert_eq!(r.lines[2].text, "");
    assert!(matches!(r.lines[2].source, LineSource::Stdout));
    assert!(r.lines[1].is_context);
    let text = format_results_text(&vec![r]);
    assert_eq!(text, vec!["a", "b", "--", ""]);

    let one = SearchResult {
        process: "x".into(),
        lines: vec![SearchLine { line_number: 0, source: LineSource::Stderr, text: "e".into(), is_context: false }],
    };
    let two = SearchResult {
        process: "y".into(),
        lines: vec![SearchLine { line_number: 3, source: LineSource::Stdout, text: "o".into(), is_context: false }],
    };
    assert_eq!(format_results_text(&vec![one, two]), vec!["[x] e", "", "[y] o"]);
    assert_eq!(source_name(LineSource::Stderr), "stderr");
}

#[test]
fn search_selection_pipeline() {
    let window: Vec<String> = vec!["ok".into(), "error one".into(), "fine".into(), "error two".into()];
    // Lines 6..10 of a 10-line log; the pattern matches lines 7 and 9.
    let p = SearchParams { grep: Some("error".into()), regex: false, since: None, tail: 0, context: None, stderr: false };
    assert_eq!(search_selection(&p, 10, Ok(6), &window).unwrap(), vec![(7, false), (9, false)]);
    // --tail keeps the last match; --context widens it.
    let p = SearchParams { grep: Some("error".into()), regex: false, since: None, tail: 1, context: Some(1), stderr: false };
    assert_eq!(search_selection(&p, 10, Ok(6), &window).unwrap(), vec![(8, true), (9, false)]);
    // Without a pattern every line from the start is kept.
    let p = SearchParams { grep: None, regex: false, since: None, tail: 0, context: None, stderr: false };
    assert_eq!(search_selection(&p, 4, Ok(2), &Vec::new()).unwrap(), vec![(2, false), (3, false)]);
    // The --since error comes through.
    assert_eq!(search_selection(&p, 4, Err("bad since".into()), &Vec::new()).unwrap_err(), "bad since");
    // A bad regex is reported before a --since error.
    let p = SearchParams { grep: Some("(".into()), regex: true, since: None, tail: 0, context: None, stderr: false };
    let err = search_selection(&p, 4, Err("bad since".into()), &Vec::new()).unwrap_err();
    assert!(err.starts_with("invalid regex '(': "));
}

#[test]
fn search_begin_errors_and_start() {
    let mk = |grep: Option<&str>, regex: bool, since: Option<&str>| SearchParams {
        grep: grep.map(String::from),
        regex,
        since: since.map(String::from),
        tail: 0,
        context: None,
        stderr: false,
    };
    // A bad regex is reported before a bad --since.
    let err = search_begin(&mk(Some("("), true, Some("xx")), 10, None, Ok(0)).unwrap_err();
    assert!(err.starts_with("invalid regex '(': "));
    // Then the --since error, as parse_duration words it.
    let err = search_begin(&mk(Some("a"), false, Some("5x")), 10, None, Ok(0)).unwrap_err();
    assert_eq!(Err(err), parse_duration("5x").map(|_| ()));
    // No --since: from the first line.
    assert_eq!(search_begin(&mk(None, false, None), 10, None, Ok(4)), Ok((0, false)));
    // restart: after the last restart, or the error reading it.
    assert_eq!(search_begin(&mk(None, false, Some("restart")), 10, None, Ok(4)), Ok((4, false)));
    assert_eq!(search_begin(&mk(None, false, Some("restart")), 10, None, Err("cross".into())), Err("cross".to_string()));
    assert_eq!(search_begin(&mk(None, false, Some("start")), 10, None, Err("cross".into())), Ok((0, false)));
    // A duration without an uptime starts at the incarnation, with a warning.
    assert_eq!(search_begin(&mk(None, false, Some("5m")), 10, None, Ok(3)), Ok((3, true)));
}
