//! Messages between the command-line client and the daemon.
//!
//! On the wire every message is a single line of JSON whose `"type"` field
//! names the variant. The client sends a [`Request`] and reads back one or
//! more [`Response`]s (streaming requests such as `Logs` with `follow`
//! produce several).

use vstd::prelude::*;
use crate::text::{decimal, push_decimal};

verus! {

broadcast use vstd::string::group_string_axioms;

/// Largest accepted message line, in bytes.
pub const MAX_MESSAGE_SIZE: usize = 1048576;

/// Current protocol version, raised on breaking changes.
pub const PROTOCOL_VERSION: u32 = 1;

/// Error codes of [`Response::Error`]; on the wire the numbers 1 and 2.
#[derive(Debug, Clone, Copy, PartialEq, Eq, Structural)]
pub enum ErrorCode {
    General,
    NotFound,
}

/// The wire number of an error code.
pub open spec fn error_code_number(c: ErrorCode) -> i32 {
    match c {
        ErrorCode::General => 1,
        ErrorCode::NotFound => 2,
    }
}

impl ErrorCode {
    /// The process exit status for this error: its wire number.
    pub fn exit_code(self) -> (r: i32)
        ensures
            r == error_code_number(self),
    {
        match self {
            ErrorCode::General => 1,
            ErrorCode::NotFound => 2,
        }
    }

    /// The error code of a wire number: 2 is `NotFound`, and every other
    /// number (including those of later versions) is `General`.
    pub fn from_number(v: i32) -> (r: ErrorCode)
        ensures
            r == (if v == 2 {
                ErrorCode::NotFound
            } else {
                ErrorCode::General
            }),
    {
        if v == 2 {
            ErrorCode::NotFound
        } else {
            ErrorCode::General
        }
    }
}

/// When a supervised process is restarted after it exits.
#[derive(Debug, Clone, Copy, PartialEq, Eq, Structural)]
pub enum RestartMode {
    Always,
    OnFailure,
    Never,
}

/// Restart behaviour of a supervised process.
#[derive(Debug, Clone, Copy, PartialEq, Eq, Structural)]
pub struct RestartPolicy {
    pub mode: RestartMode,
    pub max_restarts: Option<u32>,
    pub restart_delay_ms: u64,
}

/// The mode that a mode string names; unknown strings name `Never`.
pub open spec fn restart_mode_of(s: Seq<char>) -> RestartMode {
    if s == "always"@ {
        RestartMode::Always
    } else if s == "on-failure"@ {
        RestartMode::OnFailure
    } else {
        RestartMode::Never
    }
}

/// The name of a restart mode, as configurations and status reports
/// write it.
pub open spec fn restart_mode_name(m: RestartMode) -> Seq<char> {
    match m {
        RestartMode::Always => "always"@,
        RestartMode::OnFailure => "on-failure"@,
        RestartMode::Never => "never"@,
    }
}

/// Whether a process that exited with `exit_code` is restarted under
/// `mode` (`None` stands for death by a signal).
pub open spec fn restarts_after(mode: RestartMode, exit_code: Option<i32>) -> bool {
    match mode {
        RestartMode::Never => false,
        RestartMode::Always => true,
        RestartMode::OnFailure => exit_code != Some(0i32),
    }
}

impl RestartMode {
    /// Parses a mode string from the command line or a configuration.
    /// Unknown values give `Never`.
    pub fn parse(s: &str) -> (r: RestartMode)
        ensures
            r == restart_mode_of(s@),
    {
        if crate::text::str_eq(s, "always") {
            RestartMode::Always
        } else if crate::text::str_eq(s, "on-failure") {
            RestartMode::OnFailure
        } else {
            RestartMode::Never
        }
    }

    /// Whether this mode restarts a process that exited with `exit_code`.
    pub fn should_restart(self, exit_code: Option<i32>) -> (r: bool)
        ensures
            r == restarts_after(self, exit_code),
    {
        match self {
            RestartMode::Never => false,
            RestartMode::Always => true,
            RestartMode::OnFailure => match exit_code {
                Some(c) => c != 0,
                None => true,
            },
        }
    }

    /// The name of this mode.
    pub fn name(self) -> (r: String)
        ensures
            r@ == restart_mode_name(self),
    {
        let mut s = String::new();
        match self {
            RestartMode::Always => s.append("always"),
            RestartMode::OnFailure => s.append("on-failure"),
            RestartMode::Never => s.append("never"),
        }
        assert(s@ =~= restart_mode_name(self));
        s
    }
}

impl RestartPolicy {
    /// Builds a policy from command-line or configuration arguments; the
    /// delay defaults to 1000 ms.
    pub fn from_args(mode: &str, max_restarts: Option<u32>, restart_delay: Option<u64>) -> (r:
        RestartPolicy)
        ensures
            r.mode == restart_mode_of(mode@),
            r.max_restarts == max_restarts,
            r.restart_delay_ms == match restart_delay {
                Some(d) => d,
                None => 1000u64,
            },
    {
        RestartPolicy {
            mode: RestartMode::parse(mode),
            max_restarts,
            restart_delay_ms: match restart_delay {
                Some(d) => d,
                None => 1000,
            },
        }
    }
}

/// File-watch configuration for restarts on changes.
#[derive(Debug, Clone, PartialEq)]
pub struct WatchConfig {
    pub paths: Vec<String>,
    pub ignore: Option<Vec<String>>,
}

impl WatchConfig {
    /// Builds a watch configuration; `None` when no path is watched, and no
    /// ignore list when it is empty.
    pub fn from_args(paths: Vec<String>, ignore: Vec<String>) -> (r: Option<WatchConfig>)
        ensures
            paths@.len() == 0 ==> r is None,
            paths@.len() > 0 ==> (r matches Some(w) && w.paths@ == paths@ && (if ignore@.len() == 0 {
                w.ignore is None
            } else {
                (w.ignore matches Some(g) && g@ == ignore@)
            })),
    {
        if paths.len() == 0 {
            None
        } else {
            let ignore = if ignore.len() == 0 {
                None
            } else {
                Some(ignore)
            };
            Some(WatchConfig { paths, ignore })
        }
    }
}

/// The URL of a managed process: through the proxy when it runs, else
/// directly on the loopback address.
pub open spec fn process_url_spec(name: Seq<char>, port: u16, proxy_port: Option<u16>) -> Seq<
    char,
> {
    match proxy_port {
        Some(pp) => "http://"@ + name + ".localhost:"@ + decimal(pp as nat),
        None => "http://127.0.0.1:"@ + decimal(port as nat),
    }
}

/// Builds the canonical URL of a managed process.
pub fn process_url(name: &str, port: u16, proxy_port: Option<u16>) -> (r: String)
    ensures
        r@ == process_url_spec(name@, port, proxy_port),
{
    let mut s = String::new();
    match proxy_port {
        Some(pp) => {
            s.append("http://");
            s.append(name);
            s.append(".localhost:");
            push_decimal(&mut s, pp as u64);
        },
        None => {
            s.append("http://127.0.0.1:");
            push_decimal(&mut s, port as u64);
        },
    }
    assert(s@ =~= process_url_spec(name@, port, proxy_port));
    s
}

/// A request from the client to the daemon.
#[derive(Debug, Clone, PartialEq)]
pub enum Request {
    Run {
        command: String,
        name: Option<String>,
        cwd: Option<String>,
        env: Option<Vec<(String, String)>>,
        port: Option<u16>,
        restart: Option<RestartPolicy>,
        watch: Option<WatchConfig>,
    },
    Stop { target: String },
    StopAll,
    Restart { target: String },
    Status,
    Logs {
        target: Option<String>,
        tail: usize,
        follow: bool,
        stderr: bool,
        all: bool,
        timeout_secs: Option<u64>,
        lines: Option<usize>,
    },
    Wait {
        target: String,
        until: Option<String>,
        regex: bool,
        exit: bool,
        timeout_secs: Option<u64>,
    },
    Shutdown,
    EnableProxy { proxy_port: Option<u16> },
    Hello { version: u32 },
    /// A request type of a later protocol version.
    Unknown,
}

/// A response from the daemon to the client.
#[derive(Debug, Clone, PartialEq)]
pub enum Response {
    /// The request succeeded (on the wire, the type `Ok`).
    Success { message: String },
    RunOk { name: String, id: String, pid: u32, port: Option<u16>, url: Option<String> },
    Status { processes: Vec<ProcessInfo> },
    LogLine { process: String, stream: Stream, line: String },
    LogEnd,
    WaitMatch { line: String },
    WaitExited { exit_code: Option<i32> },
    WaitTimeout,
    Error { code: ErrorCode, message: String },
    Hello { version: u32 },
    /// A response type of a later protocol version.
    Unknown,
}

/// What the status report says of one process.
#[derive(Debug, Clone, PartialEq)]
pub struct ProcessInfo {
    pub name: String,
    pub id: String,
    pub pid: u32,
    pub state: ProcessState,
    pub exit_code: Option<i32>,
    pub uptime_secs: Option<u64>,
    pub command: String,
    pub port: Option<u16>,
    pub url: Option<String>,
    pub restart_count: Option<u32>,
    pub max_restarts: Option<u32>,
    pub restart_policy: Option<String>,
    pub watched: Option<bool>,
}

/// The state of a managed process.
#[derive(Debug, Clone, Copy, PartialEq, Eq, Structural)]
pub enum ProcessState {
    Running,
    Exited,
    Failed,
    Unknown,
}

/// How a state is shown to people.
pub open spec fn state_label(s: ProcessState) -> Seq<char> {
    match s {
        ProcessState::Running => "running"@,
        ProcessState::Exited => "exited"@,
        ProcessState::Failed => "FAILED"@,
        ProcessState::Unknown => "unknown"@,
    }
}

/// How a state is written on the wire.
pub open spec fn state_wire_name(s: ProcessState) -> Seq<char> {
    match s {
        ProcessState::Running => "running"@,
        ProcessState::Exited => "exited"@,
        ProcessState::Failed => "failed"@,
        ProcessState::Unknown => "unknown"@,
    }
}

/// The state that a wire name stands for; names of later versions stand
/// for `Unknown`.
pub open spec fn state_of_wire_name(s: Seq<char>) -> ProcessState {
    if s == "running"@ {
        ProcessState::Running
    } else if s == "exited"@ {
        ProcessState::Exited
    } else if s == "failed"@ {
        ProcessState::Failed
    } else {
        ProcessState::Unknown
    }
}

impl ProcessState {
    /// How this state is shown to people.
    pub fn label(self) -> (r: String)
        ensures
            r@ == state_label(self),
    {
        let mut s = String::new();
        match self {
            ProcessState::Running => s.append("running"),
            ProcessState::Exited => s.append("exited"),
            ProcessState::Failed => s.append("FAILED"),
            ProcessState::Unknown => s.append("unknown"),
        }
        assert(s@ =~= state_label(self));
        s
    }

    /// How this state is written on the wire.
    pub fn wire_name(self) -> (r: String)
        ensures
            r@ == state_wire_name(self),
    {
        let mut s = String::new();
        match self {
            ProcessState::Running => s.append("running"),
            ProcessState::Exited => s.append("exited"),
            ProcessState::Failed => s.append("failed"),
            ProcessState::Unknown => s.append("unknown"),
        }
        assert(s@ =~= state_wire_name(self));
        s
    }

    /// The state that a wire name stands for.
    pub fn from_wire_name(s: &str) -> (r: ProcessState)
        ensures
            r == state_of_wire_name(s@),
    {
        if crate::text::str_eq(s, "running") {
            ProcessState::Running
        } else if crate::text::str_eq(s, "exited") {
            ProcessState::Exited
        } else if crate::text::str_eq(s, "failed") {
            ProcessState::Failed
        } else {
            ProcessState::Unknown
        }
    }
}

/// Which output stream of a process a line came from.
#[derive(Debug, Clone, Copy, PartialEq, Eq, Structural)]
pub enum Stream {
    Stdout,
    Stderr,
}

/// A state read back from its wire name is the state itself.
pub proof fn lemma_state_wire_roundtrip(s: ProcessState)
    ensures
        state_of_wire_name(state_wire_name(s)) == s,
{
    reveal_strlit("running");
    reveal_strlit("exited");
    reveal_strlit("failed");
    reveal_strlit("unknown");
    assert("exited"@[0] != "running"@[0]);
    assert("failed"@[0] != "running"@[0]);
    assert("failed"@[0] != "exited"@[0]);
    assert("unknown"@[0] != "running"@[0]);
    assert("unknown"@[0] != "exited"@[0]);
    assert("unknown"@[0] != "failed"@[0]);
}

/// A restart mode read back from its name is the mode itself.
pub proof fn lemma_restart_mode_name_roundtrip(m: RestartMode)
    ensures
        restart_mode_of(restart_mode_name(m)) == m,
{
    reveal_strlit("always");
    reveal_strlit("on-failure");
    reveal_strlit("never");
    assert("on-failure"@[0] != "always"@[0]);
    assert("never"@[0] != "always"@[0]);
    assert("never"@[1] != "on-failure"@[1]);
}

/// The wire number of an error code gives the error code back.
pub proof fn lemma_error_code_roundtrip(c: ErrorCode)
    ensures
        (if error_code_number(c) == 2 {
            ErrorCode::NotFound
        } else {
            ErrorCode::General
        }) == c,
{
}

/// What each restart mode is for: `always` restarts after every exit,
/// `never` after none, and `on-failure` after every exit but a clean one
/// (code 0); a death by a signal counts as a failure. So `on-failure`
/// restarts only where `always` does, and the two differ exactly on a
/// clean exit.
pub proof fn lemma_restart_modes(exit_code: Option<i32>, c: i32)
    ensures
        restarts_after(RestartMode::Always, exit_code),
        !restarts_after(RestartMode::Never, exit_code),
        restarts_after(RestartMode::OnFailure, Some(c)) <==> c != 0,
        restarts_after(RestartMode::OnFailure, None),
        !restarts_after(RestartMode::OnFailure, Some(0i32)),
        restarts_after(RestartMode::OnFailure, exit_code) ==> restarts_after(RestartMode::Always, exit_code),
        restarts_after(RestartMode::OnFailure, exit_code) != restarts_after(RestartMode::Always, exit_code)
            <==> exit_code == Some(0i32),
{
}

} // verus!
