//! Where a session keeps its files. Sockets and PID files live under
//! `/tmp/agent-procs-<uid>/`, a short fixed directory that keeps socket
//! paths within the 103 bytes macOS allows. Logs and state go under
//! `$XDG_STATE_HOME/agent-procs/sessions/<session>/`, where the state home
//! defaults to `~/.local/state`.

use vstd::prelude::*;
use crate::text::{chars_of, decimal, push_decimal};

verus! {

/// macOS limits Unix socket paths to 103 bytes; Linux allows 107.
pub const MAX_SOCKET_PATH_LEN: usize = 103;

/// `base` joined with `comp` as `PathBuf::join` does: an absolute `comp`
/// replaces the base, else a separator goes between them unless the base
/// is empty or already ends in one.
pub open spec fn path_join(base: Seq<char>, comp: Seq<char>) -> Seq<char> {
    if comp.len() > 0 && comp[0] == '/' {
        comp
    } else if base.len() == 0 || base.last() == '/' {
        base + comp
    } else {
        base + seq!['/'] + comp
    }
}

/// Joins two paths, as `PathBuf::join`.
pub fn join_path(base: &str, comp: &str) -> (r: String)
    ensures
        r@ == path_join(base@, comp@),
{
    let c = chars_of(comp);
    let b = chars_of(base);
    let mut out = String::new();
    if c.len() > 0 && c[0] == '/' {
        out.append(comp);
    } else if b.len() == 0 || b[b.len() - 1] == '/' {
        out.append(base);
        out.append(comp);
    } else {
        out.append(base);
        out.append("/");
        proof {
            reveal_strlit("/");
        }
        out.append(comp);
    }
    assert(out@ =~= path_join(base@, comp@));
    out
}

/// The socket directory of the user with id `uid`.
pub open spec fn socket_dir_of(uid: u32) -> Seq<char> {
    "/tmp/agent-procs-"@ + decimal(uid as nat)
}

/// The real user id of this process, from `nix::unistd::getuid`. Nothing
/// is claimed of it: it depends on who runs the process.
#[verifier::external_body]
fn current_uid() -> (r: u32) {
    nix::unistd::getuid().as_raw()
}

/// The socket directory of the user with id `uid`: `/tmp/agent-procs-<uid>`.
pub fn socket_dir_for(uid: u32) -> (r: String)
    ensures
        r@ == socket_dir_of(uid),
{
    let mut s = String::new();
    s.append("/tmp/agent-procs-");
    push_decimal(&mut s, uid as u64);
    s
}

/// The directory of sockets and PID files of the current user.
pub fn socket_base_dir() -> (r: String)
    ensures
        exists|uid: u32| r@ == socket_dir_of(uid),
{
    socket_dir_for(current_uid())
}

/// The socket of `session`: `<socket dir>/<session>.sock`.
pub fn socket_path(session: &str) -> (r: String)
    ensures
        exists|uid: u32| r@ == path_join(socket_dir_of(uid), session@ + ".sock"@),
{
    file_in_socket_dir(session, ".sock")
}

/// The PID file of `session`: `<socket dir>/<session>.pid`.
pub fn pid_path(session: &str) -> (r: String)
    ensures
        exists|uid: u32| r@ == path_join(socket_dir_of(uid), session@ + ".pid"@),
{
    file_in_socket_dir(session, ".pid")
}

/// The session whose PID file is named `file_name`: the name without its
/// `.pid` ending, where it has one (and something before it).
pub open spec fn pid_file_session_spec(file_name: Seq<char>) -> Option<Seq<char>> {
    if file_name.len() > 4 && file_name.subrange(file_name.len() - 4, file_name.len() as int) == ".pid"@ {
        Some(file_name.subrange(0, file_name.len() - 4))
    } else {
        None
    }
}

/// The session a file of the socket directory is the PID file of.
pub fn pid_file_session(file_name: &str) -> (r: Option<String>)
    ensures
        match pid_file_session_spec(file_name@) {
            Some(n) => r matches Some(x) && x@ == n,
            None => r is None,
        },
{
    let cs = chars_of(file_name);
    let n = cs.len();
    if n > 4 {
        let tail = crate::text::substring(file_name, n - 4, n);
        if crate::text::str_eq(tail.as_str(), ".pid") {
            return Some(crate::text::substring(file_name, 0, n - 4));
        }
    }
    None
}

fn file_in_socket_dir(session: &str, ext: &str) -> (r: String)
    ensures
        exists|uid: u32| r@ == path_join(socket_dir_of(uid), session@ + ext@),
{
    let uid = current_uid();
    let dir = socket_dir_for(uid);
    let mut name = String::new();
    name.append(session);
    name.append(ext);
    assert(name@ =~= session@ + ext@);
    join_path(dir.as_str(), name.as_str())
}

/// The state home: `$XDG_STATE_HOME` where set, else `$HOME/.local/state`
/// (with `/tmp` for an unset `HOME`).
pub open spec fn state_home(xdg_state_home: Option<Seq<char>>, home: Option<Seq<char>>) -> Seq<char> {
    match xdg_state_home {
        Some(x) => x,
        None => path_join(
            match home {
                Some(h) => h,
                None => "/tmp"@,
            },
            ".local/state"@,
        ),
    }
}

/// The state directory of `session`.
pub open spec fn state_dir_of(xdg_state_home: Option<Seq<char>>, home: Option<Seq<char>>, session: Seq<char>) -> Seq<char> {
    path_join(path_join(state_home(xdg_state_home, home), "agent-procs/sessions"@), session)
}

/// The directory of the persistent data of `session`, given the values of
/// `XDG_STATE_HOME` and `HOME` (`None` where unset).
pub fn state_dir(xdg_state_home: Option<&str>, home: Option<&str>, session: &str) -> (r: String)
    ensures
        r@ == state_dir_of(
            match xdg_state_home { Some(s) => Some(s@), None => None },
            match home { Some(s) => Some(s@), None => None },
            session@,
        ),
{
    let base = match xdg_state_home {
        Some(x) => x.to_string(),
        None => {
            let h = match home {
                Some(h) => h,
                None => "/tmp",
            };
            join_path(h, ".local/state")
        },
    };
    let sessions = join_path(base.as_str(), "agent-procs/sessions");
    join_path(sessions.as_str(), session)
}

/// The log directory of `session`: `<state dir>/logs`.
pub fn log_dir(xdg_state_home: Option<&str>, home: Option<&str>, session: &str) -> (r: String)
    ensures
        r@ == path_join(
            state_dir_of(
                match xdg_state_home { Some(s) => Some(s@), None => None },
                match home { Some(s) => Some(s@), None => None },
                session@,
            ),
            "logs"@,
        ),
{
    let d = state_dir(xdg_state_home, home, session);
    join_path(d.as_str(), "logs")
}

/// The state file of `session`: `<state dir>/state.json`.
pub fn state_file(xdg_state_home: Option<&str>, home: Option<&str>, session: &str) -> (r: String)
    ensures
        r@ == path_join(
            state_dir_of(
                match xdg_state_home { Some(s) => Some(s@), None => None },
                match home { Some(s) => Some(s@), None => None },
                session@,
            ),
            "state.json"@,
        ),
{
    let d = state_dir(xdg_state_home, home, session);
    join_path(d.as_str(), "state.json")
}

} // verus!
