//! What the terminal UI does with a key, a mouse event or a lost output
//! stream. Requests to the daemon are returned for the caller to send.

use vstd::prelude::*;
use crate::protocol::{Request, Stream};
use crate::tui::app::{
    App, InputMode, cancels_filter, clears_filter, confirms_filter, cycles_stream, half_page, quits, quits_and_stops,
    scrolls_down, scrolls_to_bottom, scrolls_to_top, scrolls_up, selected_process, selects_next, selects_prev,
    starts_filter, toggles_pause,
};
use crate::tui::input::{Action, FilterAction, KeyCode, KeyPress, action_of, handle_filter_key, handle_key};

verus! {

broadcast use vstd::string::group_string_axioms;

/// Appends `c` to `s` with `String::push`; the contract claims the
/// character is added at the end.
#[verifier::external_body]
fn push_char(s: &mut String, c: char)
    ensures
        final(s)@ == old(s)@.push(c),
{
    s.push(c);
}

/// Removes the last character of `s` and returns it; an empty string
/// stays empty.
fn pop_char(s: &mut String) -> (r: Option<char>)
    ensures
        old(s)@.len() == 0 ==> r is None && final(s)@ == old(s)@,
        old(s)@.len() > 0 ==> r == Some(old(s)@.last()) && final(s)@ == old(s)@.drop_last(),
{
    let cs = crate::text::chars_of(s.as_str());
    if cs.len() == 0 {
        return None;
    }
    let last = cs[cs.len() - 1];
    let rest = crate::text::substring(s.as_str(), 0, cs.len() - 1);
    *s = rest;
    Some(last)
}

/// What a key leaves for the caller to do: a request to send to the
/// daemon, and processes whose disk logs are to be scanned for the filter.
pub struct KeyOutcome {
    pub request: Option<Request>,
    pub rescan: Vec<String>,
}

/// Applies a key to the UI. At the filter prompt a character is typed,
/// Backspace deletes, Enter applies the filter and Escape (or another key)
/// cancels. Otherwise the key's action is carried out; stop, stop-all and
/// restart become requests (stop and restart for the selected process).
pub fn apply_key(app: &mut App, key: KeyPress) -> (r: KeyOutcome)
    requires
        old(app).processes@.len() > 0 ==> old(app).selected < usize::MAX,
    ensures
        old(app).input_mode == InputMode::FilterInput ==> r.request is None,
        old(app).input_mode == InputMode::FilterInput ==> match key.code {
            KeyCode::Char(c) => {
                &&& final(app).filter_buf@ == old(app).filter_buf@.push(c)
                &&& *final(app) == (App { filter_buf: final(app).filter_buf, ..*old(app) })
                &&& r.rescan@.len() == 0
            },
            KeyCode::Backspace => {
                &&& final(app).filter_buf@ == (if old(app).filter_buf@.len() > 0 {
                    old(app).filter_buf@.drop_last()
                } else {
                    old(app).filter_buf@
                })
                &&& *final(app) == (App { filter_buf: final(app).filter_buf, ..*old(app) })
                &&& r.rescan@.len() == 0
            },
            KeyCode::Enter => confirms_filter(old(app), final(app), r.rescan.deep_view()),
            _ => cancels_filter(old(app), final(app)) && r.rescan@.len() == 0,
        },
        old(app).input_mode != InputMode::FilterInput ==> match action_of(key) {
            Action::Stop => match selected_process(old(app)) {
                Some(n) => r.request matches Some(Request::Stop { target }) && target@ == n,
                None => r.request is None,
            },
            Action::Restart => match selected_process(old(app)) {
                Some(n) => r.request matches Some(Request::Restart { target }) && target@ == n,
                None => r.request is None,
            },
            Action::StopAll => r.request == Some(Request::StopAll),
            _ => r.request is None,
        },
        old(app).input_mode != InputMode::FilterInput ==> match action_of(key) {
            Action::SelectNext => selects_next(old(app), final(app)),
            Action::SelectPrev => selects_prev(old(app), final(app)),
            Action::CycleStream => cycles_stream(old(app), final(app), r.rescan.deep_view()),
            Action::TogglePause => toggles_pause(old(app), final(app)),
            Action::ScrollUp => scrolls_up(old(app), final(app), half_page(old(app))),
            Action::ScrollDown => scrolls_down(old(app), final(app), half_page(old(app))),
            Action::ScrollToTop => scrolls_to_top(old(app), final(app)),
            Action::ScrollToBottom => scrolls_to_bottom(old(app), final(app)),
            Action::StartFilter => starts_filter(old(app), final(app)),
            Action::ClearFilter => clears_filter(old(app), final(app)),
            Action::Quit => quits(old(app), final(app)),
            Action::QuitAndStop => quits_and_stops(old(app), final(app)),
            Action::Stop | Action::Restart | Action::StopAll | Action::Nothing => *final(app) == *old(app),
        },
        old(app).input_mode != InputMode::FilterInput && action_of(key) != Action::CycleStream ==> r.rescan@.len() == 0,
{
    let none = KeyOutcome { request: None, rescan: Vec::new() };
    if app.input_mode == InputMode::FilterInput {
        match handle_filter_key(key) {
            FilterAction::Char(c) => {
                push_char(&mut app.filter_buf, c);
                none
            },
            FilterAction::Backspace => {
                let _ = pop_char(&mut app.filter_buf);
                none
            },
            FilterAction::Confirm => KeyOutcome { request: None, rescan: app.confirm_filter() },
            FilterAction::Cancel => {
                app.cancel_filter();
                none
            },
        }
    } else {
        match handle_key(key) {
            Action::SelectNext => {
                app.select_next();
                none
            },
            Action::SelectPrev => {
                app.select_prev();
                none
            },
            Action::CycleStream => KeyOutcome { request: None, rescan: app.cycle_stream_mode() },
            Action::TogglePause => {
                app.toggle_pause();
                none
            },
            Action::ScrollUp => {
                app.scroll_up();
                none
            },
            Action::ScrollDown => {
                app.scroll_down();
                none
            },
            Action::ScrollToTop => {
                app.scroll_to_top();
                none
            },
            Action::ScrollToBottom => {
                app.scroll_to_bottom();
                none
            },
            Action::StartFilter => {
                app.start_filter();
                none
            },
            Action::ClearFilter => {
                app.clear_filter();
                none
            },
            Action::Quit => {
                app.quit();
                none
            },
            Action::QuitAndStop => {
                app.quit_and_stop();
                none
            },
            Action::Stop => match app.selected_name() {
                Some(n) => KeyOutcome { request: Some(Request::Stop { target: n.to_string() }), rescan: Vec::new() },
                None => none,
            },
            Action::Restart => match app.selected_name() {
                Some(n) => KeyOutcome { request: Some(Request::Restart { target: n.to_string() }), rescan: Vec::new() },
                None => none,
            },
            Action::StopAll => KeyOutcome { request: Some(Request::StopAll), rescan: Vec::new() },
            Action::Nothing => none,
        }
    }
}

/// Lines scrolled by one turn of the mouse wheel.
pub const MOUSE_SCROLL_LINES: usize = 3;

/// A mouse event, as far as the UI tells them apart.
#[derive(Debug, Clone, Copy, PartialEq, Eq, Structural)]
pub enum MouseKind {
    ScrollUp,
    ScrollDown,
    LeftClick,
    Other,
}

/// Applies a mouse event: the wheel scrolls three lines, and a click in
/// the process list (the first 22 columns) selects the process of its row
/// (the list starts on the second row).
pub fn apply_mouse(app: &mut App, kind: MouseKind, column: u16, row: u16)
    ensures
        kind == MouseKind::ScrollUp ==> scrolls_up(old(app), final(app), MOUSE_SCROLL_LINES as int),
        kind == MouseKind::ScrollDown ==> scrolls_down(old(app), final(app), MOUSE_SCROLL_LINES as int),
        kind == MouseKind::LeftClick ==> {
            &&& final(app).selected == (if column < 22 && (if row >= 1 { row - 1 } else { 0 }) < old(app).processes@.len() {
                (if row >= 1 { row - 1 } else { 0 }) as usize
            } else {
                old(app).selected
            })
            &&& *final(app) == (App { selected: final(app).selected, ..*old(app) })
        },
        kind == MouseKind::Other ==> *final(app) == *old(app),
{
    match kind {
        MouseKind::ScrollUp => app.scroll_up_by(MOUSE_SCROLL_LINES),
        MouseKind::ScrollDown => app.scroll_down_by(MOUSE_SCROLL_LINES),
        MouseKind::LeftClick => {
            if column < 22 {
                let r: usize = if row >= 1 { (row - 1) as usize } else { 0 };
                if r < app.processes.len() {
                    app.selected = r;
                }
            }
        },
        MouseKind::Other => {},
    }
}

/// Most reconnection attempts of the output stream.
pub const MAX_RECONNECT_ATTEMPTS: u32 = 10;

/// The state of the connection to the daemon's output stream.
#[derive(Debug, Clone, Copy, PartialEq, Eq, Structural)]
pub enum ReconnectState {
    Connected,
    Reconnecting { attempt: u32 },
    Failed,
}

/// `2^e` capped at 30.
pub open spec fn backoff_secs(e: nat) -> u64
    decreases e,
{
    if e == 0 { 1 } else if 2 * backoff_secs((e - 1) as nat) >= 30 { 30 } else { (2 * backoff_secs((e - 1) as nat)) as u64 }
}

/// The delay before reconnection attempt `attempt`: `2^attempt` seconds,
/// at most 30.
pub fn reconnect_delay_secs(attempt: u32) -> (r: u64)
    ensures
        r == backoff_secs(attempt as nat),
{
    let mut d: u64 = 1;
    let mut i: u32 = 0;
    while i < attempt
        invariant
            i <= attempt,
            d == backoff_secs(i as nat),
            d <= 30,
        decreases attempt - i,
    {
        d = if 2 * d >= 30 { 30 } else { 2 * d };
        i = i + 1;
    }
    d
}

/// What happens when the output stream closes: after the tenth attempt
/// the UI gives up; else it tries again after the backoff of its attempt.
pub fn reconnect_step(state: ReconnectState) -> (r: (ReconnectState, Option<u64>))
    ensures
        match state {
            ReconnectState::Failed => r == (ReconnectState::Failed, None::<u64>),
            ReconnectState::Connected => r == (ReconnectState::Reconnecting { attempt: 1 }, Some(backoff_secs(0))),
            ReconnectState::Reconnecting { attempt } => if attempt >= MAX_RECONNECT_ATTEMPTS {
                r == (ReconnectState::Failed, None::<u64>)
            } else {
                r == (ReconnectState::Reconnecting { attempt: (attempt + 1) as u32 }, Some(backoff_secs(attempt as nat)))
            },
        },
{
    let attempt = match state {
        ReconnectState::Connected => 0,
        ReconnectState::Reconnecting { attempt } => attempt,
        ReconnectState::Failed => {
            return (ReconnectState::Failed, None);
        },
    };
    if attempt >= MAX_RECONNECT_ATTEMPTS {
        return (ReconnectState::Failed, None);
    }
    (ReconnectState::Reconnecting { attempt: attempt + 1 }, Some(reconnect_delay_secs(attempt)))
}

/// Lines of each log read into the UI at start.
pub const HISTORY_LINES: usize = 1000;

/// The process and stream of a log file, by its name.
pub fn log_file_stream(file_name: &str) -> (r: Option<(String, Stream)>)
    ensures
        match crate::cli::logs::log_owner(file_name@) {
            Some(n) => r matches Some((p, s)) && p@ == n && s == (if file_name@.subrange(file_name@.len() - 7, file_name@.len() as int) == ".stdout"@ { Stream::Stdout } else { Stream::Stderr }),
            None => r is None,
        },
{
    let cs = crate::text::chars_of(file_name);
    let n = cs.len();
    match crate::cli::logs::log_owner_of(file_name) {
        Some(p) => {
            let tail = crate::text::substring(file_name, n - 7, n);
            if crate::text::str_eq(tail.as_str(), ".stdout") {
                Some((p, Stream::Stdout))
            } else {
                Some((p, Stream::Stderr))
            }
        },
        None => None,
    }
}

} // verus!
