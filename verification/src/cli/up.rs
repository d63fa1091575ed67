//! The plan of `up`: which processes of each startup group are started,
//! the requests that start them and wait for them to be ready, and what is
//! printed.

use vstd::prelude::*;
use crate::config::ProcessDef;
use crate::paths::{join_path, path_join};
use crate::protocol::{Request, Response, RestartPolicy, WatchConfig, error_code_number, restart_mode_of};
use crate::text::{decimal, push_decimal, str_eq};

verus! {

broadcast use vstd::string::group_string_axioms;

/// The parts of `s` between commas, as `str::split(',')` gives them
/// (empty parts included).
pub open spec fn split_commas(s: Seq<char>) -> Seq<Seq<char>>
    decreases s.len(),
{
    proof {
        crate::text::lemma_last_index_of(s, ',');
    }
    match crate::text::last_index_of(s, ',') {
        Some(i) => split_commas(s.subrange(0, i)).push(s.subrange(i + 1, s.len() as int)),
        None => seq![s],
    }
}

/// Splits an `--only` list at its commas.
pub fn split_only(only: &str) -> (r: Vec<String>)
    ensures
        r.deep_view() == split_commas(only@),
    decreases only@.len(),
{
    let cs = crate::text::chars_of(only);
    proof {
        crate::text::lemma_last_index_of(only@, ',');
    }
    match crate::text::rfind_char(cs.as_slice(), cs.len(), ',') {
        Some(i) => {
            assert(cs@.subrange(0, cs@.len() as int) =~= cs@);
            let head = crate::text::substring(only, 0, i);
            let tail = crate::text::substring(only, i + 1, cs.len());
            let mut parts = split_only(head.as_str());
            let ghost p0 = parts.deep_view();
            parts.push(tail);
            assert(parts.deep_view() =~= p0.push(tail@));
            parts
        },
        None => {
            assert(cs@.subrange(0, cs@.len() as int) =~= cs@);
            let v = vec![only.to_string()];
            assert(v.deep_view() =~= seq![only@]);
            v
        },
    }
}

/// The names of a group that are started: all of them without `--only`,
/// else those it lists, in group order.
pub open spec fn selected_names(group: Seq<Seq<char>>, only: Option<Seq<Seq<char>>>) -> Seq<Seq<char>> {
    match only {
        None => group,
        Some(o) => group.filter(|n: Seq<char>| o.contains(n)),
    }
}

/// The names of `group` that `--only` lets through.
pub fn select_group(group: &Vec<String>, only: &Option<Vec<String>>) -> (r: Vec<String>)
    ensures
        r.deep_view() == selected_names(group.deep_view(), match only { Some(o) => Some(o.deep_view()), None => None }),
{
    match only {
        None => clone_all(group),
        Some(o) => {
            let ghost pred = |n: Seq<char>| o.deep_view().contains(n);
            let mut out: Vec<String> = Vec::new();
            let mut i: usize = 0;
            while i < group.len()
                invariant
                    i <= group@.len(),
                    pred == (|n: Seq<char>| o.deep_view().contains(n)),
                    out.deep_view() == group.deep_view().take(i as int).filter(pred),
                decreases group.len() - i,
            {
                let ghost before = out.deep_view();
                proof {
                    assert(group.deep_view().take(i + 1) =~= group.deep_view().take(i as int).push(group@[i as int]@));
                    reveal(Seq::filter);
                    assert(group.deep_view().take(i + 1).drop_last() =~= group.deep_view().take(i as int));
                }
                if listed(o, group[i].as_str()) {
                    out.push(group[i].clone());
                    assert(out.deep_view() =~= before.push(group@[i as int]@));
                }
                i = i + 1;
            }
            assert(group.deep_view().take(group@.len() as int) =~= group.deep_view());
            out
        },
    }
}

fn listed(o: &Vec<String>, n: &str) -> (r: bool)
    ensures
        r == o.deep_view().contains(n@),
{
    let mut i: usize = 0;
    while i < o.len()
        invariant
            i <= o@.len(),
            forall|j: int| 0 <= j < i ==> o@[j]@ != n@,
        decreases o.len() - i,
    {
        if str_eq(o[i].as_str(), n) {
            assert(o.deep_view()[i as int] == n@);
            return true;
        }
        i = i + 1;
    }
    false
}

fn clone_all(v: &Vec<String>) -> (r: Vec<String>)
    ensures
        r.deep_view() == v.deep_view(),
{
    let mut out: Vec<String> = Vec::new();
    let mut i: usize = 0;
    while i < v.len()
        invariant
            i <= v@.len(),
            out.deep_view() == v.deep_view().take(i as int),
        decreases v.len() - i,
    {
        let ghost before = out.deep_view();
        let c = v[i].clone();
        out.push(c);
        assert(out.deep_view() =~= before.push(c@));
        assert(v.deep_view()[i as int] == v@[i as int]@);
        assert(out.deep_view() =~= v.deep_view().take(i + 1));
        i = i + 1;
    }
    assert(v.deep_view().take(v@.len() as int) =~= v.deep_view());
    out
}

/// The directory of a process: a relative `cwd` is taken from the
/// directory of the configuration file, an absolute one as it is.
pub open spec fn resolved_cwd(config_dir: Seq<char>, cwd: Seq<char>) -> Seq<char> {
    if cwd.len() > 0 && cwd[0] == '/' { cwd } else { path_join(config_dir, cwd) }
}

/// Resolves the directory of a process against the configuration's
/// directory.
pub fn resolve_cwd(config_dir: &str, cwd: &str) -> (r: String)
    ensures
        r@ == resolved_cwd(config_dir@, cwd@),
{
    let cs = crate::text::chars_of(cwd);
    if cs.len() > 0 && cs[0] == '/' {
        cwd.to_string()
    } else {
        join_path(config_dir, cwd)
    }
}

/// The request that starts the configured process `name`: its command,
/// its directory resolved against `config_dir`, its environment (none
/// when empty), its port, and its restart and watch settings.
pub fn start_request(name: &str, def: &ProcessDef, config_dir: &str) -> (r: Request)
    ensures
        r matches Request::Run { command, name: n, cwd, env, port, restart, watch } && {
            &&& command@ == def.cmd@
            &&& (n matches Some(x) && x@ == name@)
            &&& match def.cwd {
                Some(c) => cwd matches Some(d) && d@ == resolved_cwd(config_dir@, c@),
                None => cwd is None,
            }
            &&& (if def.env@.len() == 0 { env is None } else { env matches Some(e) && e@ == def.env@ })
            &&& port == def.port
            &&& match def.autorestart {
                Some(m) => restart matches Some(p) && p.mode == restart_mode_of(m@)
                    && p.max_restarts == def.max_restarts
                    && p.restart_delay_ms == match def.restart_delay {
                        Some(d) => d,
                        None => 1000u64,
                    },
                None => restart is None,
            }
            &&& match def.watch {
                Some(w) => if w@.len() == 0 {
                    watch is None
                } else {
                    watch matches Some(c) && c.paths@ == w@ && match def.watch_ignore {
                        Some(g) => if g@.len() == 0 {
                            c.ignore is None
                        } else {
                            c.ignore matches Some(x) && x@ == g@
                        },
                        None => c.ignore is None,
                    }
                },
                None => watch is None,
            }
        },
{
    let cwd = match &def.cwd {
        Some(c) => Some(resolve_cwd(config_dir, c.as_str())),
        None => None,
    };
    let env = if def.env.len() == 0 { None } else { Some(clone_env(&def.env)) };
    let restart = match &def.autorestart {
        Some(m) => Some(RestartPolicy::from_args(m.as_str(), def.max_restarts, def.restart_delay)),
        None => None,
    };
    let watch = match &def.watch {
        Some(w) => WatchConfig::from_args(clone_all_plain(w), match &def.watch_ignore {
            Some(g) => clone_all_plain(g),
            None => Vec::new(),
        }),
        None => None,
    };
    Request::Run { command: def.cmd.clone(), name: Some(name.to_string()), cwd, env, port: def.port, restart, watch }
}

fn clone_all_plain(v: &Vec<String>) -> (r: Vec<String>)
    ensures
        r@ == v@,
{
    let mut out: Vec<String> = Vec::new();
    let mut i: usize = 0;
    while i < v.len()
        invariant
            i <= v@.len(),
            out@ == v@.take(i as int),
        decreases v.len() - i,
    {
        out.push(v[i].clone());
        assert(v@.take(i + 1) =~= v@.take(i as int).push(v@[i as int]));
        i = i + 1;
    }
    assert(v@.take(v@.len() as int) =~= v@);
    out
}

fn clone_env(v: &Vec<(String, String)>) -> (r: Vec<(String, String)>)
    ensures
        r@ == v@,
{
    let mut out: Vec<(String, String)> = Vec::new();
    let mut i: usize = 0;
    while i < v.len()
        invariant
            i <= v@.len(),
            out@ == v@.take(i as int),
        decreases v.len() - i,
    {
        let (a, b) = &v[i];
        out.push((a.clone(), b.clone()));
        assert(v@.take(i + 1) =~= v@.take(i as int).push(v@[i as int]));
        i = i + 1;
    }
    assert(v@.take(v@.len() as int) =~= v@);
    out
}

/// The wait for the ready pattern of `name`: a substring, 30 seconds.
pub fn ready_request(name: &str, ready: &str) -> (r: Request)
    ensures
        r matches Request::Wait { target, until, regex, exit, timeout_secs } && {
            &&& target@ == name@
            &&& (until matches Some(u) && u@ == ready@)
            &&& !regex
            &&& !exit
            &&& timeout_secs == Some(30u64)
        },
{
    Request::Wait { target: name.to_string(), until: Some(ready.to_string()), regex: false, exit: false, timeout_secs: Some(30) }
}

/// The line printed for a started process.
pub fn started_line(name: &str, id: &str, pid: u32) -> (r: String)
    ensures
        r@ == "started "@ + name@ + " (id: "@ + id@ + ", pid: "@ + decimal(pid as nat) + ")"@,
{
    let mut s = String::new();
    s.append("started ");
    s.append(name);
    s.append(" (id: ");
    s.append(id);
    s.append(", pid: ");
    push_decimal(&mut s, pid as u64);
    s.append(")");
    s
}

/// What `up` does with the answer to one of its requests.
#[derive(Debug, PartialEq)]
pub enum UpOutcome {
    /// Print the line and go on.
    Say(String),
    /// Print the line on stderr and go on.
    Warn(String),
    /// Print the line on stderr and exit with `code`.
    Stop { message: String, code: i32 },
    /// Exit with `code`, printing nothing.
    Exit { code: i32 },
    /// Go on.
    Continue,
}

/// The answer to the start of `name` (`None`: no answer came): a started
/// process is reported; an error stops `up` with the error's exit code; any
/// other answer stops it with 1.
pub fn start_outcome(name: &str, answer: Option<&Response>) -> (r: UpOutcome)
    ensures
        match answer {
            Some(Response::RunOk { name: n, id, pid, .. }) => r matches UpOutcome::Say(l)
                && l@ == "started "@ + n@ + " (id: "@ + id@ + ", pid: "@ + decimal(*pid as nat) + ")"@,
            Some(Response::Error { code, message }) => r matches UpOutcome::Stop { message: m, code: c }
                && m@ == "error starting "@ + name@ + ": "@ + message@ && c == error_code_number(*code),
            _ => r == UpOutcome::Exit { code: 1 },
        },
{
    match answer {
        Some(Response::RunOk { name: n, id, pid, .. }) => UpOutcome::Say(started_line(n.as_str(), id.as_str(), *pid)),
        Some(Response::Error { code, message }) => {
            let mut m = String::new();
            m.append("error starting ");
            m.append(name);
            m.append(": ");
            m.append(message.as_str());
            UpOutcome::Stop { message: m, code: code.exit_code() }
        },
        _ => UpOutcome::Exit { code: 1 },
    }
}

/// The answer to the wait for `name` to be ready (`None`: no answer
/// came): a match reports it ready, a timeout warns, an error stops `up`
/// with 1, and anything else is passed over.
pub fn ready_outcome(name: &str, answer: Option<&Response>) -> (r: UpOutcome)
    ensures
        match answer {
            Some(Response::WaitMatch { .. }) => r matches UpOutcome::Say(l) && l@ == name@ + " is ready"@,
            Some(Response::WaitTimeout) => r matches UpOutcome::Warn(l)
                && l@ == "warning: "@ + name@ + " did not become ready within 30s"@,
            Some(Response::Error { message, .. }) => r matches UpOutcome::Stop { message: m, code: c }
                && m@ == "error waiting for "@ + name@ + ": "@ + message@ && c == 1,
            _ => r == UpOutcome::Continue,
        },
{
    match answer {
        Some(Response::WaitMatch { .. }) => {
            let mut l = String::new();
            l.append(name);
            l.append(" is ready");
            UpOutcome::Say(l)
        },
        Some(Response::WaitTimeout) => {
            let mut l = String::new();
            l.append("warning: ");
            l.append(name);
            l.append(" did not become ready within 30s");
            UpOutcome::Warn(l)
        },
        Some(Response::Error { message, .. }) => {
            let mut m = String::new();
            m.append("error waiting for ");
            m.append(name);
            m.append(": ");
            m.append(message.as_str());
            UpOutcome::Stop { message: m, code: 1 }
        },
        _ => UpOutcome::Continue,
    }
}

} // verus!
