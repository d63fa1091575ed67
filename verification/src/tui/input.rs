//! The key bindings of the terminal UI.

use vstd::prelude::*;

verus! {

/// A key, as far as the bindings tell keys apart.
#[derive(Debug, Clone, Copy, PartialEq, Eq, Structural)]
pub enum KeyCode {
    Char(char),
    Up,
    Down,
    PageUp,
    PageDown,
    Home,
    End,
    Esc,
    Enter,
    Backspace,
    /// Any other key.
    Other,
}

/// A key press: the key and whether Control was held.
#[derive(Debug, Clone, Copy, PartialEq, Eq, Structural)]
pub struct KeyPress {
    pub code: KeyCode,
    pub control: bool,
}

/// What a key does in the process view.
#[derive(Debug, Clone, Copy, PartialEq, Eq, Structural)]
pub enum Action {
    SelectNext,
    SelectPrev,
    Restart,
    Stop,
    StopAll,
    CycleStream,
    TogglePause,
    ScrollUp,
    ScrollDown,
    ScrollToTop,
    ScrollToBottom,
    StartFilter,
    ClearFilter,
    Quit,
    QuitAndStop,
    /// The key is not bound.
    Nothing,
}

/// What a key does while the filter prompt is open.
#[derive(Debug, Clone, Copy, PartialEq, Eq, Structural)]
pub enum FilterAction {
    Char(char),
    Backspace,
    Confirm,
    Cancel,
}

/// The binding of each key in the process view.
pub open spec fn action_of(key: KeyPress) -> Action {
    match key.code {
        KeyCode::Down => Action::SelectNext,
        KeyCode::Up => Action::SelectPrev,
        KeyCode::PageUp => Action::ScrollUp,
        KeyCode::PageDown => Action::ScrollDown,
        KeyCode::Home => Action::ScrollToTop,
        KeyCode::End => Action::ScrollToBottom,
        KeyCode::Esc => Action::ClearFilter,
        KeyCode::Char(c) => {
            if c == 'j' { Action::SelectNext }
            else if c == 'k' { Action::SelectPrev }
            else if c == 'r' { Action::Restart }
            else if c == 'x' { Action::Stop }
            else if c == 'X' { Action::StopAll }
            else if c == 'e' { Action::CycleStream }
            else if c == ' ' { Action::TogglePause }
            else if c == 'u' { Action::ScrollUp }
            else if c == 'd' { Action::ScrollDown }
            else if c == 'g' { Action::ScrollToTop }
            else if c == 'G' { Action::ScrollToBottom }
            else if c == '/' { Action::StartFilter }
            else if c == 'q' { Action::Quit }
            else if c == 'Q' { Action::QuitAndStop }
            else if c == 'c' && key.control { Action::Quit }
            else { Action::Nothing }
        },
        _ => Action::Nothing,
    }
}

/// The action bound to `key` in the process view.
pub fn handle_key(key: KeyPress) -> (r: Action)
    ensures
        r == action_of(key),
{
    match key.code {
        KeyCode::Down => Action::SelectNext,
        KeyCode::Up => Action::SelectPrev,
        KeyCode::PageUp => Action::ScrollUp,
        KeyCode::PageDown => Action::ScrollDown,
        KeyCode::Home => Action::ScrollToTop,
        KeyCode::End => Action::ScrollToBottom,
        KeyCode::Esc => Action::ClearFilter,
        KeyCode::Char(c) => {
            if c == 'j' { Action::SelectNext }
            else if c == 'k' { Action::SelectPrev }
            else if c == 'r' { Action::Restart }
            else if c == 'x' { Action::Stop }
            else if c == 'X' { Action::StopAll }
            else if c == 'e' { Action::CycleStream }
            else if c == ' ' { Action::TogglePause }
            else if c == 'u' { Action::ScrollUp }
            else if c == 'd' { Action::ScrollDown }
            else if c == 'g' { Action::ScrollToTop }
            else if c == 'G' { Action::ScrollToBottom }
            else if c == '/' { Action::StartFilter }
            else if c == 'q' { Action::Quit }
            else if c == 'Q' { Action::QuitAndStop }
            else if c == 'c' && key.control { Action::Quit }
            else { Action::Nothing }
        },
        _ => Action::Nothing,
    }
}

/// The action of `key` at the filter prompt: Enter confirms, Backspace
/// deletes, a character is typed, and any other key cancels.
pub fn handle_filter_key(key: KeyPress) -> (r: FilterAction)
    ensures
        r == match key.code {
            KeyCode::Enter => FilterAction::Confirm,
            KeyCode::Backspace => FilterAction::Backspace,
            KeyCode::Char(c) => FilterAction::Char(c),
            _ => FilterAction::Cancel,
        },
{
    match key.code {
        KeyCode::Enter => FilterAction::Confirm,
        KeyCode::Backspace => FilterAction::Backspace,
        KeyCode::Char(c) => FilterAction::Char(c),
        _ => FilterAction::Cancel,
    }
}

/// The letter keys mirror the arrow and paging keys, Control held or not:
/// `k` moves the selection up like Up and `j` down like Down; `u` and `d`
/// page like PageUp and PageDown; `g` and `G` jump like Home and End.
/// Up moves the selection up, Down moves it down.
pub proof fn lemma_letter_keys_mirror_arrows(control: bool)
    ensures
        action_of(KeyPress { code: KeyCode::Char('k'), control }) == action_of(KeyPress { code: KeyCode::Up, control }),
        action_of(KeyPress { code: KeyCode::Char('j'), control }) == action_of(KeyPress { code: KeyCode::Down, control }),
        action_of(KeyPress { code: KeyCode::Up, control }) == Action::SelectPrev,
        action_of(KeyPress { code: KeyCode::Down, control }) == Action::SelectNext,
        action_of(KeyPress { code: KeyCode::Char('u'), control }) == action_of(KeyPress { code: KeyCode::PageUp, control }),
        action_of(KeyPress { code: KeyCode::Char('d'), control }) == action_of(KeyPress { code: KeyCode::PageDown, control }),
        action_of(KeyPress { code: KeyCode::PageUp, control }) == Action::ScrollUp,
        action_of(KeyPress { code: KeyCode::PageDown, control }) == Action::ScrollDown,
        action_of(KeyPress { code: KeyCode::Char('g'), control }) == action_of(KeyPress { code: KeyCode::Home, control }),
        action_of(KeyPress { code: KeyCode::Char('G'), control }) == action_of(KeyPress { code: KeyCode::End, control }),
        action_of(KeyPress { code: KeyCode::Home, control }) == Action::ScrollToTop,
        action_of(KeyPress { code: KeyCode::End, control }) == Action::ScrollToBottom,
{
}

} // verus!
