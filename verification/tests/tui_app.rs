use agent_procs::protocol::{ProcessInfo, ProcessState, Stream};
use agent_procs::tui::app::{App, DiskCounts, InputMode, LineSource, OutputBuffer, StreamMode, WindowPlan};

fn make_process(name: &str, state: ProcessState) -> ProcessInfo {
    let exit_code = if state == ProcessState::Exited { Some(0) } else { None };
    let uptime_secs = if state == ProcessState::Running { Some(10) } else { None };
    ProcessInfo {
        name: name.into(),
        id: format!("p-{}", name),
        pid: 100,
        state,
        exit_code,
        uptime_secs,
        command: "true".into(),
        port: None,
        url: None,
        restart_count: None,
        max_restarts: None,
        restart_policy: None,
        watched: None,
    }
}

fn buffer<'a>(app: &'a App, name: &str) -> Option<&'a OutputBuffer> {
    app.buffers.iter().find(|(n, _)| n == name).map(|(_, b)| b)
}

#[test]
fn test_select_next_wraps() {
    let mut app = App::new();
    app.update_processes(vec![
        make_process("a", ProcessState::Running),
        make_process("b", ProcessState::Running),
        make_process("c", ProcessState::Running),
    ]);
    app.selected = 2;
    app.select_next();
    assert_eq!(app.selected, 0);
}

#[test]
fn test_select_prev_wraps() {
    let mut app = App::new();
    app.update_processes(vec![
        make_process("a", ProcessState::Running),
        make_process("b", ProcessState::Running),
        make_process("c", ProcessState::Running),
    ]);
    app.selected = 0;
    app.select_prev();
    assert_eq!(app.selected, 2);
}

#[test]
fn test_cycle_stream_mode() {
    let mut app = App::new();
    assert_eq!(app.stream_mode, StreamMode::Stdout);
    app.cycle_stream_mode();
    assert_eq!(app.stream_mode, StreamMode::Stderr);
    app.cycle_stream_mode();
    assert_eq!(app.stream_mode, StreamMode::Both);
    app.cycle_stream_mode();
    assert_eq!(app.stream_mode, StreamMode::Stdout);
}

#[test]
fn test_toggle_pause() {
    let mut app = App::new();
    assert!(!app.paused);
    app.toggle_pause();
    assert!(app.paused);
    app.toggle_pause();
    assert!(!app.paused);
}

#[test]
fn test_push_output() {
    let mut app = App::new();
    app.push_output("web", Stream::Stdout, "hello world");
    let buf = buffer(&app, "web").unwrap();
    assert_eq!(buf.stdout_lines().len(), 1);
    assert_eq!(buf.stdout_lines()[0], "hello world");
}

#[test]
fn test_running_count() {
    let mut app = App::new();
    app.update_processes(vec![
        make_process("a", ProcessState::Running),
        make_process("b", ProcessState::Exited),
        make_process("c", ProcessState::Running),
    ]);
    assert_eq!(app.running_count(), 2);
}

#[test]
fn test_exited_count() {
    let mut app = App::new();
    app.update_processes(vec![
        make_process("a", ProcessState::Running),
        make_process("b", ProcessState::Exited),
        make_process("c", ProcessState::Exited),
    ]);
    assert_eq!(app.exited_count(), 2);
    assert_eq!(app.failed_count(), 0);
}

#[test]
fn test_output_buffer_counters() {
    let mut buf = OutputBuffer::new(5);
    assert_eq!(buf.len(), 0);
    assert_eq!(buf.stdout_count(), 0);
    assert_eq!(buf.stderr_count(), 0);
    assert!(buf.is_empty());

    buf.push(LineSource::Stdout, "a".into());
    buf.push(LineSource::Stderr, "b".into());
    buf.push(LineSource::Stdout, "c".into());
    assert_eq!(buf.len(), 3);
    assert_eq!(buf.stdout_count(), 2);
    assert_eq!(buf.stderr_count(), 1);

    buf.push(LineSource::Stdout, "d".into());
    buf.push(LineSource::Stderr, "e".into());
    assert_eq!(buf.len(), 5);
    assert_eq!(buf.stdout_count(), 3);
    assert_eq!(buf.stderr_count(), 2);

    buf.push(LineSource::Stderr, "f".into());
    assert_eq!(buf.len(), 5);
    assert_eq!(buf.stdout_count(), 2);
    assert_eq!(buf.stderr_count(), 3);
}

#[test]
fn test_visible_lines_hot_buffer_only() {
    let mut app = App::new();
    for i in 0..20 {
        app.push_output("web", Stream::Stdout, &format!("line {}", i));
    }
    app.update_processes(vec![make_process("web", ProcessState::Running)]);
    app.visible_height = 10;

    let lines = app.visible_lines("web", 10).unwrap();
    assert_eq!(lines.len(), 10);
    assert_eq!(lines[0].1, "line 10");
    assert_eq!(lines[9].1, "line 19");
}

#[test]
fn test_visible_lines_paused_scrolled() {
    let mut app = App::new();
    for i in 0..50 {
        app.push_output("web", Stream::Stdout, &format!("line {}", i));
    }
    app.update_processes(vec![make_process("web", ProcessState::Running)]);
    app.visible_height = 10;
    app.paused = true;
    app.scroll_offsets.push(("web".into(), 20));

    let lines = app.visible_lines("web", 10).unwrap();
    assert_eq!(lines.len(), 10);
    assert_eq!(lines[0].1, "line 20");
    assert_eq!(lines[9].1, "line 29");
}

#[test]
fn test_visible_lines_with_disk_reader() {
    let mut app = App::new();
    app.set_disk_counts("web", DiskCounts::new(100, 0));
    for i in 90..100 {
        app.push_output("web", Stream::Stdout, &format!("disk line {}", i));
    }
    app.update_processes(vec![make_process("web", ProcessState::Running)]);
    app.visible_height = 10;
    assert_eq!(app.total_line_count("web"), 100);

    let lines = app.visible_lines("web", 10).unwrap();
    assert_eq!(lines.len(), 10);
    assert_eq!(lines[0].1, "disk line 90");
    assert_eq!(lines[9].1, "disk line 99");

    app.paused = true;
    app.scroll_offsets.push(("web".into(), 90));
    assert!(app.visible_lines("web", 10).is_none());
    assert_eq!(app.visible_plan("web", 10), WindowPlan::Disk { start: 0, count: 10 });
    let top: Vec<(LineSource, String)> = (0..10).map(|i| (LineSource::Stdout, format!("disk line {}", i))).collect();
    let lines = app.window_with_disk("web", top, 0);
    assert_eq!(lines.len(), 10);
    assert_eq!(lines[0].1, "disk line 0");
    assert_eq!(lines[9].1, "disk line 9");

    app.scroll_offsets.clear();
    app.scroll_offsets.push(("web".into(), 5));
    assert_eq!(app.visible_plan("web", 10), WindowPlan::Split { disk_start: 85, disk_count: 5, hot_count: 5 });
    let disk: Vec<(LineSource, String)> = (85..90).map(|i| (LineSource::Stdout, format!("disk line {}", i))).collect();
    let lines = app.window_with_disk("web", disk, 5);
    assert_eq!(lines.len(), 10);
    assert_eq!(lines[0].1, "disk line 85");
    assert_eq!(lines[4].1, "disk line 89");
    assert_eq!(lines[5].1, "disk line 90");
    assert_eq!(lines[9].1, "disk line 94");
}

#[test]
fn test_visible_lines_with_filter_uses_filtered_index() {
    let mut app = App::new();
    app.push_output("web", Stream::Stdout, "hello");
    app.filter = Some("hello".into());
    let lines = app.visible_lines("web", 10).unwrap();
    assert!(lines.is_empty());
}

#[test]
fn test_hot_line_count_with_and_without_filter() {
    let mut app = App::new();
    app.push_output("web", Stream::Stdout, "hello world");
    app.push_output("web", Stream::Stdout, "goodbye world");
    app.push_output("web", Stream::Stdout, "hello again");
    assert_eq!(app.hot_line_count("web", None), 3);
    assert_eq!(app.hot_line_count("web", Some("hello")), 2);
    assert_eq!(app.hot_line_count("web", Some("xyz")), 0);
}

#[test]
fn test_output_buffer_ring_behavior() {
    let mut buf = OutputBuffer::new(5);
    for i in 0..8 {
        buf.push(LineSource::Stdout, format!("line {}", i));
    }
    let lines = buf.stdout_lines();
    assert_eq!(lines.len(), 5);
    assert_eq!(lines[0], "line 3");
    assert_eq!(lines[4], "line 7");
}

#[test]
fn test_output_buffer_stderr() {
    let mut buf = OutputBuffer::new(100);
    buf.push(LineSource::Stdout, "out1".into());
    buf.push(LineSource::Stderr, "err1".into());
    buf.push(LineSource::Stdout, "out2".into());
    assert_eq!(buf.stdout_lines().len(), 2);
    assert_eq!(buf.stderr_lines().len(), 1);
    assert_eq!(buf.all_lines().len(), 3);
    assert_eq!(buf.all_lines()[1].0, LineSource::Stderr);
}

fn make_info(name: &str, state: ProcessState) -> ProcessInfo {
    ProcessInfo {
        name: name.into(),
        id: "p1".into(),
        pid: 1234,
        state,
        exit_code: None,
        uptime_secs: Some(10),
        command: "test".into(),
        port: None,
        url: None,
        restart_count: None,
        max_restarts: None,
        restart_policy: None,
        watched: None,
    }
}

#[test]
fn test_app_select_next_wraps() {
    let mut app = App::new();
    app.update_processes(vec![make_info("alpha", ProcessState::Running), make_info("beta", ProcessState::Running)]);
    assert_eq!(app.selected, 0);
    app.select_next();
    assert_eq!(app.selected, 1);
    app.select_next();
    assert_eq!(app.selected, 0);
}

#[test]
fn test_app_select_prev_wraps() {
    let mut app = App::new();
    app.update_processes(vec![make_info("alpha", ProcessState::Running), make_info("beta", ProcessState::Running)]);
    assert_eq!(app.selected, 0);
    app.select_prev();
    assert_eq!(app.selected, 1);
}

#[test]
fn test_stream_mode_cycles() {
    let mut app = App::new();
    assert!(matches!(app.stream_mode, StreamMode::Stdout));
    app.cycle_stream_mode();
    assert!(matches!(app.stream_mode, StreamMode::Stderr));
    app.cycle_stream_mode();
    assert!(matches!(app.stream_mode, StreamMode::Both));
    app.cycle_stream_mode();
    assert!(matches!(app.stream_mode, StreamMode::Stdout));
}

#[test]
fn test_pause_toggle() {
    let mut app = App::new();
    assert!(!app.paused);
    app.toggle_pause();
    assert!(app.paused);
    app.toggle_pause();
    assert!(!app.paused);
}

#[test]
fn test_push_output_creates_buffer() {
    let mut app = App::new();
    app.push_output("server", Stream::Stdout, "hello");
    assert!(app.buffers.iter().any(|(n, _)| n == "server"));
    let buf = buffer(&app, "server").unwrap();
    assert_eq!(buf.stdout_lines().len(), 1);
}

#[test]
fn scrolling_clamps_and_unpauses() {
    let mut app = App::new();
    for i in 0..30 {
        app.push_output("web", Stream::Stdout, &format!("l{}", i));
    }
    app.update_processes(vec![make_info("web", ProcessState::Running)]);
    app.visible_height = 10;
    app.scroll_up_by(100);
    assert!(app.paused);
    assert_eq!(app.scroll_offsets, vec![("web".to_string(), 20)]);
    app.scroll_down_by(5);
    assert_eq!(app.scroll_offsets, vec![("web".to_string(), 15)]);
    assert!(app.paused);
    app.scroll_down();
    app.scroll_down();
    app.scroll_down();
    assert_eq!(app.scroll_offsets, vec![("web".to_string(), 0)]);
    assert!(!app.paused);
    app.scroll_to_top();
    assert_eq!(app.scroll_offsets, vec![("web".to_string(), 20)]);
    assert_eq!(app.visible_plan("web", 10), WindowPlan::Hot { start: 0, count: 10 });
    app.scroll_to_bottom();
    assert!(app.scroll_offsets.is_empty());
    assert!(!app.paused);
}

#[test]
fn filter_prompt_lifecycle() {
    let mut app = App::new();
    app.set_disk_counts("web", DiskCounts::new(3, 1));
    app.start_filter();
    assert_eq!(app.input_mode, InputMode::FilterInput);
    app.filter_buf = "err".into();
    let rescan = app.confirm_filter();
    assert_eq!(rescan, vec!["web"]);
    assert_eq!(app.filter.as_deref(), Some("err"));
    app.install_filtered_index("web", vec![1, 2], 3);
    assert_eq!(app.line_count_for("web"), 2);
    app.update_processes(vec![make_info("web", ProcessState::Running)]);
    match app.visible_plan("web", 10) {
        WindowPlan::Scattered { line_numbers } => assert_eq!(line_numbers, vec![1, 2]),
        _ => panic!("expected scattered lines"),
    }
    app.extend_filtered_index("web", vec![4], 5);
    assert_eq!(app.line_count_for("web"), 3);
    app.reject_filter_regex("web");
    assert!(app.filter_regex_error);
    app.clear_filter();
    assert!(app.filter.is_none());
    assert!(app.filtered_indices.is_empty());
    app.start_filter();
    app.cancel_filter();
    assert_eq!(app.input_mode, InputMode::Normal);
    assert!(app.filter_buf.is_empty());
}

#[test]
fn quit_flags() {
    let mut app = App::default();
    app.quit();
    assert!(!app.running);
    assert!(!app.stop_all_on_quit);
    app.quit_and_stop();
    assert!(app.stop_all_on_quit);
}
