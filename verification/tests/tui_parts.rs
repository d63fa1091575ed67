use agent_procs::protocol::{ProcessInfo, ProcessState, Request, Stream};
use agent_procs::tui::app::App;
use agent_procs::tui::events::{MouseKind, ReconnectState, apply_key, apply_mouse, log_file_stream, reconnect_delay_secs, reconnect_step};
use agent_procs::tui::input::{Action, FilterAction, KeyCode, KeyPress, handle_filter_key, handle_key};
use agent_procs::tui::view::{Tone, output_pane_lines, output_scroll, output_title, process_list_items, status_counts};

fn key(c: char) -> KeyPress {
    KeyPress { code: KeyCode::Char(c), control: false }
}

fn info(name: &str, state: ProcessState, exit_code: Option<i32>) -> ProcessInfo {
    ProcessInfo {
        name: name.into(),
        id: "p".into(),
        pid: 1,
        state,
        exit_code,
        uptime_secs: None,
        command: "c".into(),
        port: None,
        url: None,
        restart_count: None,
        max_restarts: None,
        restart_policy: None,
        watched: None,
    }
}

#[test]
fn key_bindings() {
    assert_eq!(handle_key(key('j')), Action::SelectNext);
    assert_eq!(handle_key(KeyPress { code: KeyCode::Up, control: false }), Action::SelectPrev);
    assert_eq!(handle_key(key('X')), Action::StopAll);
    assert_eq!(handle_key(key('c')), Action::Nothing);
    assert_eq!(handle_key(KeyPress { code: KeyCode::Char('c'), control: true }), Action::Quit);
    assert_eq!(handle_key(KeyPress { code: KeyCode::Esc, control: false }), Action::ClearFilter);
    assert_eq!(handle_filter_key(KeyPress { code: KeyCode::Enter, control: false }), FilterAction::Confirm);
    assert_eq!(handle_filter_key(key('x')), FilterAction::Char('x'));
    assert_eq!(handle_filter_key(KeyPress { code: KeyCode::Home, control: false }), FilterAction::Cancel);
}

#[test]
fn keys_drive_the_app() {
    let mut app = App::new();
    app.update_processes(vec![info("a", ProcessState::Running, None), info("b", ProcessState::Running, None)]);
    apply_key(&mut app, key('j'));
    assert_eq!(app.selected, 1);
    let out = apply_key(&mut app, key('x'));
    assert_eq!(out.request, Some(Request::Stop { target: "b".into() }));
    let out = apply_key(&mut app, key('r'));
    assert_eq!(out.request, Some(Request::Restart { target: "b".into() }));
    apply_key(&mut app, key('/'));
    apply_key(&mut app, key('h'));
    apply_key(&mut app, key('i'));
    apply_key(&mut app, KeyPress { code: KeyCode::Backspace, control: false });
    assert_eq!(app.filter_buf, "h");
    apply_key(&mut app, KeyPress { code: KeyCode::Enter, control: false });
    assert_eq!(app.filter.as_deref(), Some("h"));
    apply_key(&mut app, key('q'));
    assert!(!app.running);
}

#[test]
fn mouse_and_reconnect() {
    let mut app = App::new();
    app.update_processes(vec![info("a", ProcessState::Running, None), info("b", ProcessState::Running, None)]);
    apply_mouse(&mut app, MouseKind::LeftClick, 5, 2);
    assert_eq!(app.selected, 1);
    apply_mouse(&mut app, MouseKind::LeftClick, 30, 1);
    assert_eq!(app.selected, 1);
    assert_eq!(reconnect_step(ReconnectState::Connected), (ReconnectState::Reconnecting { attempt: 1 }, Some(1)));
    assert_eq!(reconnect_step(ReconnectState::Reconnecting { attempt: 3 }), (ReconnectState::Reconnecting { attempt: 4 }, Some(8)));
    assert_eq!(reconnect_step(ReconnectState::Reconnecting { attempt: 10 }), (ReconnectState::Failed, None));
    assert_eq!(reconnect_step(ReconnectState::Failed), (ReconnectState::Failed, None));
    assert_eq!(reconnect_delay_secs(5), 30);
    assert_eq!(log_file_stream("web.stderr"), Some(("web".to_string(), Stream::Stderr)));
    assert_eq!(log_file_stream("web.log"), None);
}

#[test]
fn view_texts() {
    let mut app = App::new();
    app.update_processes(vec![
        info("a", ProcessState::Running, None),
        info("b", ProcessState::Exited, Some(0)),
        info("c", ProcessState::Exited, Some(2)),
    ]);
    let items = process_list_items(&app);
    assert_eq!(items[0], ("● a".to_string(), Tone::Good, true));
    assert_eq!(items[1], ("✓ b".to_string(), Tone::Dim, false));
    assert_eq!(items[2], ("✗ c (2)".to_string(), Tone::Bad, false));
    assert_eq!(output_title(&app), " Output: a (stdout)  ");
    app.paused = true;
    app.filter = Some("x".into());
    assert_eq!(output_title(&app), " Output: a (stdout) [PAUSED] [filter: x]  ");
    assert_eq!(output_pane_lines(&app), vec![("No output yet".to_string(), Tone::Dim)]);
    app.push_output("a", Stream::Stdout, "x1");
    app.push_output("a", Stream::Stdout, "y");
    app.push_output("a", Stream::Stderr, "x2");
    assert_eq!(output_pane_lines(&app), vec![("x1".to_string(), Tone::Plain)]);
    assert_eq!(status_counts(&app), " 1 running, 2 exited ");
    app.scroll_offsets.push(("a".into(), 100));
    assert_eq!(output_scroll(&app, 30, 10), 0);
    app.paused = false;
    assert_eq!(output_scroll(&app, 30, 10), 20);
}
