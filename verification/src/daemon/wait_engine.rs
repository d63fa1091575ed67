//! The decisions of `wait`: when a process's output or its exit ends a
//! wait, and with which response. The caller feeds in the output lines,
//! the exit polls and the timeout.

use vstd::prelude::*;
use crate::matching::{MatchMode, regex_error_text, regex_valid};
use crate::protocol::{ErrorCode, Response};
use crate::text::str_eq;

verus! {

/// How long a wait lasts without `--timeout`, in seconds.
pub const DEFAULT_WAIT_SECS: u64 = 30;

/// Milliseconds between two polls of whether the process exited.
pub const EXIT_POLL_MS: u64 = 100;

/// A wait on the output or the exit of one process.
pub struct WaitSpec {
    target: String,
    pattern: Option<MatchMode>,
    wait_exit: bool,
}

/// Whether `r` is the error response with `message`.
pub open spec fn is_general_error(r: Response, message: Seq<char>) -> bool {
    r matches Response::Error { code: ErrorCode::General, message: m } && m@ == message
}

impl WaitSpec {
    #[verifier::type_invariant]
    spec fn valid(&self) -> bool {
        match self.pattern {
            Some(m) => m.valid(),
            None => true,
        }
    }

    /// The process waited for.
    pub closed spec fn target(&self) -> Seq<char> {
        self.target@
    }

    /// The pattern a line must match, if any.
    pub closed spec fn pattern(&self) -> Option<MatchMode> {
        self.pattern
    }

    /// Whether the exit of the process ends the wait.
    pub closed spec fn waits_for_exit(&self) -> bool {
        self.wait_exit
    }

    /// A wait for `target`, on lines matching `pattern` (a regular
    /// expression with `use_regex`) and, with `wait_exit`, on its exit. A
    /// regular expression that does not compile is answered "invalid
    /// regex: " and the crate's message.
    pub fn new(target: &str, pattern: Option<&str>, use_regex: bool, wait_exit: bool) -> (r: Result<WaitSpec, Response>)
        ensures
            match r {
                Ok(w) => w.target() == target@ && w.waits_for_exit() == wait_exit && match pattern {
                    Some(p) => w.pattern() matches Some(m) && (if use_regex {
                        m matches MatchMode::Regex(q) && q@ == p@ && regex_valid(p@)
                    } else {
                        m matches MatchMode::Substring(q) && q@ == p@
                    }),
                    None => w.pattern() is None,
                },
                Err(e) => use_regex && (pattern matches Some(p) && !regex_valid(p@) && is_general_error(
                    e,
                    "invalid regex: "@ + regex_error_text(p@),
                )),
            },
    {
        let mode = match pattern {
            Some(p) => match MatchMode::new(p, use_regex) {
                Ok(m) => Some(m),
                Err(e) => {
                    let mut msg = String::new();
                    msg.append("invalid regex: ");
                    msg.append(e.as_str());
                    return Err(Response::Error { code: ErrorCode::General, message: msg });
                },
            },
            None => None,
        };
        Ok(WaitSpec { target: target.to_string(), pattern: mode, wait_exit })
    }

    /// What a line of output does to the wait: a line of the target that
    /// matches the pattern ends it with that line; anything else does not.
    pub fn on_line(&self, process: &str, line: &str) -> (r: Option<Response>)
        ensures
            match r {
                Some(resp) => {
                    &&& process@ == self.target()
                    &&& (self.pattern() matches Some(m) && m.accepts(line@))
                    &&& (resp matches Response::WaitMatch { line: l } && l@ == line@)
                },
                None => process@ != self.target() || match self.pattern() {
                    Some(m) => !m.accepts(line@),
                    None => true,
                },
            },
    {
        proof {
            use_type_invariant(self);
        }
        if !str_eq(process, self.target.as_str()) {
            return None;
        }
        match &self.pattern {
            Some(m) => {
                if m.matches(line) {
                    Some(Response::WaitMatch { line: line.to_string() })
                } else {
                    None
                }
            },
            None => None,
        }
    }

    /// The process waited for.
    pub fn target_name(&self) -> (r: &str)
        ensures
            r@ == self.target(),
    {
        self.target.as_str()
    }

    /// Whether the exit of the process ends the wait.
    pub fn wait_exit(&self) -> (r: bool)
        ensures
            r == self.waits_for_exit(),
    {
        self.wait_exit
    }

    /// What a poll of the target's exit does: where exits end the wait and
    /// the target has exited (`Some` exit code), the wait ends with it.
    pub fn on_exit_poll(&self, exited: Option<Option<i32>>) -> (r: Option<Response>)
        ensures
            match (self.waits_for_exit(), exited) {
                (true, Some(code)) => r == Some(Response::WaitExited { exit_code: code }),
                _ => r is None,
            },
    {
        if self.wait_exit {
            match exited {
                Some(code) => Some(Response::WaitExited { exit_code: code }),
                None => None,
            }
        } else {
            None
        }
    }

    /// The end of the wait when the output channel closes: the exit, if
    /// exits count and the target has exited, else "output channel closed".
    pub fn on_closed(&self, exited: Option<Option<i32>>) -> (r: Response)
        ensures
            match (self.waits_for_exit(), exited) {
                (true, Some(code)) => r == Response::WaitExited { exit_code: code },
                _ => is_general_error(r, "output channel closed"@),
            },
    {
        match self.on_exit_poll(exited) {
            Some(resp) => resp,
            None => Response::Error { code: ErrorCode::General, message: "output channel closed".to_string() },
        }
    }
}

/// How long a wait lasts, in seconds: the timeout asked for, else 30.
pub fn wait_timeout_secs(timeout_secs: Option<u64>) -> (r: u64)
    ensures
        r == match timeout_secs {
            Some(t) => t,
            None => DEFAULT_WAIT_SECS,
        },
{
    match timeout_secs {
        Some(t) => t,
        None => DEFAULT_WAIT_SECS,
    }
}

/// The mode the saved log of a process is searched with before a wait
/// begins: the regular expression where it compiles, else (also for an
/// invalid one) the pattern as a substring.
pub fn history_mode(pattern: &str, use_regex: bool) -> (r: MatchMode)
    ensures
        r.valid(),
        if use_regex && regex_valid(pattern@) {
            r matches MatchMode::Regex(p) && p@ == pattern@
        } else {
            r matches MatchMode::Substring(p) && p@ == pattern@
        },
{
    if use_regex {
        match MatchMode::new(pattern, true) {
            Ok(m) => m,
            Err(_) => MatchMode::Substring(pattern.to_string()),
        }
    } else {
        MatchMode::Substring(pattern.to_string())
    }
}

/// Whether the search of a saved log for `pattern` accepts `line`: as a
/// regular expression where it compiles, else as a substring.
pub open spec fn history_accepts(pattern: Seq<char>, use_regex: bool, line: Seq<char>) -> bool {
    if use_regex && regex_valid(pattern) {
        crate::matching::regex_finds(pattern, line)
    } else {
        crate::text::contains_seq(line, pattern)
    }
}

/// The first line of a process's saved log that the pattern of a wait
/// matches (see [`history_mode`]), looked for before the wait begins.
pub fn find_in_history(log_text: &str, pattern: &str, use_regex: bool) -> (r: Option<String>)
    ensures
        match crate::matching::first_accepted(crate::matching::text_lines(log_text@), |l: Seq<char>| history_accepts(pattern@, use_regex, l)) {
            Some(l) => r matches Some(x) && x@ == l,
            None => r is None,
        },
{
    let mode = history_mode(pattern, use_regex);
    assert((|l: Seq<char>| mode.accepts(l)) =~= (|l: Seq<char>| history_accepts(pattern@, use_regex, l)));
    crate::matching::first_matching_line(log_text, &mode)
}

} // verus!
