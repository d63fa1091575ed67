//! The daemon's table of managed processes and the rules that govern it:
//! which names are allowed, how ports and ids are handed out, what a stop,
//! restart or exit does to a record, which crashed processes the
//! supervisor restarts, and what the status report shows. The processes
//! themselves (children, pipes, signals) are driven by the caller.

use vstd::prelude::*;
use crate::daemon::port_allocator::{
    AUTO_PORT_MAX, AUTO_PORT_MIN, PortAllocator, auto_range_size, candidate, passed_over,
};
use crate::error::{ProxyError, proxy_error_message};
use crate::keyed::{has_key, key_value};
use crate::protocol::{
    ErrorCode, ProcessInfo, ProcessState, Response, RestartMode, RestartPolicy, WatchConfig,
    process_url, process_url_spec, restart_mode_name, restarts_after,
};
use crate::session::{IdCounter, process_id};
use crate::text::{chars_of, contains_seq, decimal, push_decimal, str_contains, str_eq};

verus! {

broadcast use vstd::string::group_string_axioms;

/// Whether `c` may appear in a DNS label: a lowercase ASCII letter, a
/// digit or a hyphen.
pub open spec fn dns_char(c: char) -> bool {
    ('a' <= c && c <= 'z') || ('0' <= c && c <= '9') || c == '-'
}

/// Whether `s` is a DNS label: 1 to 63 characters from [`dns_char`], not
/// starting or ending with a hyphen.
pub open spec fn dns_label(s: Seq<char>) -> bool {
    &&& 0 < s.len() <= 63
    &&& s[0] != '-'
    &&& s.last() != '-'
    &&& forall|i: int| 0 <= i < s.len() ==> dns_char(#[trigger] s[i])
}

/// Whether `name` is a valid DNS label: 1-63 lowercase alphanumeric or
/// hyphen characters, not starting or ending with a hyphen.
pub fn is_valid_dns_label(name: &str) -> (r: bool)
    ensures
        r == dns_label(name@),
{
    let cs = chars_of(name);
    let n = cs.len();
    if n == 0 || n > 63 {
        return false;
    }
    if cs[0] == '-' || cs[n - 1] == '-' {
        return false;
    }
    let mut i: usize = 0;
    while i < n
        invariant
            n == cs@.len(),
            cs@ == name@,
            i <= n,
            forall|j: int| 0 <= j < i ==> dns_char(#[trigger] cs@[j]),
        decreases n - i,
    {
        let c = cs[i];
        if !(('a' <= c && c <= 'z') || ('0' <= c && c <= '9') || c == '-') {
            assert(!dns_char(cs@[i as int]));
            return false;
        }
        i = i + 1;
    }
    true
}

/// Whether a process name could escape the log directory: it holds `/`,
/// `\`, `..` or a NUL.
pub open spec fn unsafe_name(s: Seq<char>) -> bool {
    contains_seq(s, seq!['/']) || contains_seq(s, seq!['\\']) || contains_seq(s, seq!['.', '.'])
        || contains_seq(s, seq!['\0'])
}

/// Whether `name` could escape the log directory.
pub fn is_unsafe_name(name: &str) -> (r: bool)
    ensures
        r == unsafe_name(name@),
{
    proof {
        reveal_strlit("/");
        reveal_strlit("\\");
        reveal_strlit("..");
        reveal_strlit("\0");
        assert("/"@ =~= seq!['/']);
        assert("\\"@ =~= seq!['\\']);
        assert(".."@ =~= seq!['.', '.']);
        assert("\0"@ =~= seq!['\0']);
    }
    str_contains(name, "/") || str_contains(name, "\\") || str_contains(name, "..") || str_contains(name, "\0")
}

/// One managed process as the daemon keeps it. `running` says whether the
/// daemon still holds the child (it has not been seen to exit).
pub struct ManagedProcess {
    pub name: String,
    pub id: String,
    pub command: String,
    pub cwd: Option<String>,
    pub env: Vec<(String, String)>,
    pub running: bool,
    pub pid: u32,
    /// When the child was started, in milliseconds of a monotonic clock.
    pub started_at_ms: u64,
    pub exit_code: Option<i32>,
    pub port: Option<u16>,
    pub restart_policy: Option<RestartPolicy>,
    pub watch_config: Option<WatchConfig>,
    pub restart_count: u32,
    pub manually_stopped: bool,
    pub restart_pending: bool,
    pub failed: bool,
}

/// Whether no two records share a name.
pub open spec fn names_unique(ps: Seq<ManagedProcess>) -> bool {
    forall|i: int, j: int| 0 <= i < j < ps.len() ==> #[trigger] ps[i].name@ != #[trigger] ps[j].name@
}

/// Whether record `i` is the first one that `matches` holds of.
pub open spec fn is_first(ps: Seq<ManagedProcess>, i: int, by_name: bool, t: Seq<char>) -> bool {
    &&& 0 <= i < ps.len()
    &&& (if by_name { ps[i].name@ == t } else { ps[i].id@ == t })
    &&& forall|j: int| 0 <= j < i ==> (if by_name { ps[j].name@ != t } else { ps[j].id@ != t })
}

/// The first record named `t` (by name) or with id `t` (by id).
pub open spec fn first_pos(ps: Seq<ManagedProcess>, by_name: bool, t: Seq<char>) -> Option<int> {
    if exists|i: int| is_first(ps, i, by_name, t) {
        Some(choose|i: int| is_first(ps, i, by_name, t))
    } else {
        None
    }
}

/// The record a target names: the process of that name, else the first
/// process with that id.
pub open spec fn target_pos(ps: Seq<ManagedProcess>, t: Seq<char>) -> Option<int> {
    match first_pos(ps, true, t) {
        Some(i) => Some(i),
        None => first_pos(ps, false, t),
    }
}

proof fn lemma_first_pos_is(ps: Seq<ManagedProcess>, by_name: bool, t: Seq<char>, i: int)
    requires
        is_first(ps, i, by_name, t),
    ensures
        first_pos(ps, by_name, t) == Some(i),
{
    let c = choose|j: int| is_first(ps, j, by_name, t);
    assert(is_first(ps, c, by_name, t));
    if c < i {
        assert(!is_first(ps, c, by_name, t));
    } else if c > i {
        assert(!is_first(ps, c, by_name, t));
    }
}

proof fn lemma_first_pos_some(ps: Seq<ManagedProcess>, by_name: bool, t: Seq<char>, w: int)
    requires
        0 <= w < ps.len(),
        if by_name { ps[w].name@ == t } else { ps[w].id@ == t },
    ensures
        first_pos(ps, by_name, t) is Some,
    decreases w,
{
    if exists|j: int| 0 <= j < w && (if by_name { ps[j].name@ == t } else { ps[j].id@ == t }) {
        let j = choose|j: int| 0 <= j < w && (if by_name { ps[j].name@ == t } else { ps[j].id@ == t });
        lemma_first_pos_some(ps, by_name, t, j);
    } else {
        assert(is_first(ps, w, by_name, t));
    }
}

proof fn lemma_first_pos_none(ps: Seq<ManagedProcess>, by_name: bool, t: Seq<char>)
    requires
        forall|j: int| 0 <= j < ps.len() ==> (if by_name { ps[j].name@ != t } else { ps[j].id@ != t }),
    ensures
        first_pos(ps, by_name, t) is None,
{
}

/// The first record named `t` (by name) or with id `t` (by id).
fn find_first(ps: &Vec<ManagedProcess>, by_name: bool, t: &str) -> (r: Option<usize>)
    ensures
        match r {
            Some(i) => first_pos(ps@, by_name, t@) == Some(i as int),
            None => first_pos(ps@, by_name, t@) is None,
        },
{
    let mut i: usize = 0;
    while i < ps.len()
        invariant
            i <= ps@.len(),
            forall|j: int| 0 <= j < i ==> (if by_name { ps@[j].name@ != t@ } else { ps@[j].id@ != t@ }),
        decreases ps.len() - i,
    {
        let hit = if by_name { str_eq(ps[i].name.as_str(), t) } else { str_eq(ps[i].id.as_str(), t) };
        if hit {
            proof {
                lemma_first_pos_is(ps@, by_name, t@, i as int);
            }
            return Some(i);
        }
        i = i + 1;
    }
    proof {
        lemma_first_pos_none(ps@, by_name, t@);
    }
    None
}

/// What a spawn needs once its request has been checked: the id and name
/// of the new process, its command, directory, environment (later entries
/// win) and port.
pub struct SpawnPlan {
    pub id: String,
    pub name: String,
    pub command: String,
    pub cwd: Option<String>,
    /// The variables the child gets on top of the daemon's environment.
    pub env: Vec<(String, String)>,
    /// The variables the request asked for, which the record keeps.
    pub user_env: Vec<(String, String)>,
    pub port: Option<u16>,
}

/// The environment a process with `port` starts from, before its own
/// variables: `PORT` and `HOST` when it has a port.
pub open spec fn port_env(port: Option<u16>) -> Seq<(Seq<char>, Seq<char>)> {
    match port {
        Some(p) => seq![("PORT"@, decimal(p as nat)), ("HOST"@, "127.0.0.1"@)],
        None => Seq::empty(),
    }
}

/// The pairs of an environment as plain values.
pub open spec fn env_view(env: Seq<(String, String)>) -> Seq<(Seq<char>, Seq<char>)> {
    Seq::new(env.len(), |i: int| (env[i].0@, env[i].1@))
}

/// The environment of a process with `port`: `PORT` and `HOST` first, so
/// that its own variables, which follow, take precedence.
pub fn spawn_env(port: Option<u16>, env: Option<Vec<(String, String)>>) -> (r: Vec<(String, String)>)
    ensures
        env_view(r@) == port_env(port) + match env {
            Some(e) => env_view(e@),
            None => Seq::empty(),
        },
{
    let mut out: Vec<(String, String)> = Vec::new();
    if let Some(p) = port {
        let mut ps = String::new();
        push_decimal(&mut ps, p as u64);
        out.push(("PORT".to_string(), ps));
        out.push(("HOST".to_string(), "127.0.0.1".to_string()));
    }
    let ghost base = env_view(out@);
    assert(base =~= port_env(port));
    match env {
        Some(e) => {
            let mut user = e;
            let ghost u = env_view(user@);
            out.append(&mut user);
            assert(env_view(out@) =~= base + u);
        },
        None => {
            assert(env_view(out@) =~= base + Seq::empty());
        },
    }
    out
}

/// Whether `r` is an error response with `code` and `message`.
pub open spec fn is_error(r: Response, code: ErrorCode, message: Seq<char>) -> bool {
    r matches Response::Error { code: c, message: m } && c == code && m@ == message
}

/// Whether `r` is a success response with `message`.
pub open spec fn is_success(r: Response, message: Seq<char>) -> bool {
    r matches Response::Success { message: m } && m@ == message
}

fn error(code: ErrorCode, message: String) -> (r: Response)
    ensures
        is_error(r, code, message@),
{
    Response::Error { code, message }
}

/// The ports of the running processes, in record order.
pub open spec fn running_port_list(ps: Seq<ManagedProcess>) -> Seq<u16>
    decreases ps.len(),
{
    if ps.len() == 0 {
        Seq::empty()
    } else {
        let rest = running_port_list(ps.drop_last());
        match ps.last().port {
            Some(p) if ps.last().running => rest.push(p),
            _ => rest,
        }
    }
}

/// The table of managed processes of one session.
pub struct ProcessManager {
    processes: Vec<ManagedProcess>,
    id_counter: IdCounter,
    session: String,
    port_allocator: PortAllocator,
    proxy_port: Option<u16>,
}

impl ProcessManager {
    /// Whether no two records share a name, which every operation keeps.
    pub closed spec fn inv(&self) -> bool {
        names_unique(self.processes@)
    }

    /// The records, in the order they were made.
    pub closed spec fn records(&self) -> Seq<ManagedProcess> {
        self.processes@
    }

    /// The session the table belongs to.
    pub closed spec fn session(&self) -> Seq<char> {
        self.session@
    }

    /// Whether the proxy is on.
    pub closed spec fn proxy_on(&self) -> bool {
        self.port_allocator.proxy_on()
    }

    /// The number in the next process id.
    pub closed spec fn next_id_number(&self) -> nat {
        self.id_counter.upcoming()
    }

    /// The port allocator.
    pub closed spec fn allocator(&self) -> PortAllocator {
        self.port_allocator
    }

    /// The port the proxy listens on, once it was turned on.
    pub closed spec fn proxy_listen_port(&self) -> Option<u16> {
        self.proxy_port
    }

    /// Whether no two records share a name: what [`ProcessManager::inv`]
    /// says of the records.
    pub proof fn lemma_inv_names_unique(&self)
        requires
            self.inv(),
        ensures
            names_unique(self.records()),
    {
    }

    /// An empty table of the session `session`, with the proxy off.
    pub fn new(session: &str) -> (r: ProcessManager)
        ensures
            r.records().len() == 0,
            r.session() == session@,
            !r.proxy_on(),
            r.next_id_number() == 1,
            r.proxy_listen_port() is None,
            r.inv(),
    {
        ProcessManager {
            processes: Vec::new(),
            id_counter: IdCounter::new(),
            session: session.to_string(),
            port_allocator: PortAllocator::new(),
            proxy_port: None,
        }
    }

    /// Turns the proxy on: from now on processes get automatic ports and
    /// must have DNS-label names.
    pub fn enable_proxy(&mut self)
        requires
            old(self).inv(),
        ensures
            final(self).inv(),
            final(self).proxy_on(),
            final(self).records() == old(self).records(),
            final(self).session() == old(self).session(),
            final(self).next_id_number() == old(self).next_id_number(),
    {
        self.port_allocator.enable_proxy();
    }

    /// Turns the proxy on, listening on `port`, unless it is on already:
    /// then nothing changes and the port it listens on is returned.
    pub fn enable_proxy_at(&mut self, port: u16) -> (r: Option<u16>)
        requires
            old(self).inv(),
        ensures
            final(self).inv(),
            final(self).records() == old(self).records(),
            final(self).session() == old(self).session(),
            final(self).next_id_number() == old(self).next_id_number(),
            r == old(self).proxy_listen_port(),
            match old(self).proxy_listen_port() {
                Some(_) => final(self).proxy_on() == old(self).proxy_on()
                    && final(self).proxy_listen_port() == old(self).proxy_listen_port(),
                None => final(self).proxy_on() && final(self).proxy_listen_port() == Some(port),
            },
    {
        match self.proxy_port {
            Some(existing) => Some(existing),
            None => {
                self.proxy_port = Some(port);
                self.port_allocator.enable_proxy();
                None
            },
        }
    }

    /// The port the proxy listens on, if it was turned on.
    pub fn proxy_port(&self) -> (r: Option<u16>)
        ensures
            r == self.proxy_listen_port(),
    {
        self.proxy_port
    }

    /// The name of the session.
    pub fn session_name(&self) -> (r: &str)
        ensures
            r@ == self.session(),
    {
        self.session.as_str()
    }

    /// The record that `target` names: the process of that name, else the
    /// first process with that id.
    pub fn find(&self, target: &str) -> (r: Option<usize>)
        ensures
            match r {
                Some(i) => target_pos(self.records(), target@) == Some(i as int),
                None => target_pos(self.records(), target@) is None,
            },
    {
        match find_first(&self.processes, true, target) {
            Some(i) => Some(i),
            None => find_first(&self.processes, false, target),
        }
    }

    /// The record at position `i`.
    pub fn record(&self, i: usize) -> (r: &ManagedProcess)
        requires
            i < self.records().len(),
        ensures
            *r == self.records()[i as int],
    {
        &self.processes[i]
    }

    /// Whether `target` names a process.
    pub fn has_process(&self, target: &str) -> (r: bool)
        ensures
            r == target_pos(self.records(), target@) is Some,
    {
        self.find(target).is_some()
    }

    /// The ports of the running processes.
    fn running_port_vec(&self) -> (r: Vec<u16>)
        ensures
            r@ == running_port_list(self.records()),
    {
        let mut out: Vec<u16> = Vec::new();
        let mut i: usize = 0;
        while i < self.processes.len()
            invariant
                i <= self.processes@.len(),
                out@ == running_port_list(self.processes@.take(i as int)),
            decreases self.processes.len() - i,
        {
            assert(self.processes@.take(i + 1).drop_last() =~= self.processes@.take(i as int));
            if self.processes[i].running {
                if let Some(p) = self.processes[i].port {
                    out.push(p);
                }
            }
            i = i + 1;
        }
        assert(self.processes@.take(self.processes@.len() as int) =~= self.processes@);
        out
    }

    /// Whether another process id can be handed out.
    pub fn can_allocate_id(&self) -> (r: bool)
        ensures
            r == (self.next_id_number() < u32::MAX),
    {
        self.id_counter.has_next()
    }

    /// Checks a spawn request and prepares it. The new process gets the
    /// next id, and its name is the one asked for or else that id. Refused,
    /// in this order: a name that could escape the log directory; with the
    /// proxy on, a name that is not a DNS label; with the proxy on and no
    /// port asked for, when no automatic port is free; a name already in
    /// use. The port is the one asked for, else with the proxy on an
    /// automatic port that no running process holds, else none.
    pub fn prepare_spawn<F: Fn(u16) -> bool>(
        &mut self,
        command: &str,
        name: Option<String>,
        cwd: Option<String>,
        env: Option<Vec<(String, String)>>,
        port: Option<u16>,
        is_free: F,
    ) -> (r: Result<SpawnPlan, Response>)
        requires
            old(self).inv(),
            old(self).next_id_number() < u32::MAX,
            forall|p: u16| #[trigger] is_free.requires((p,)),
        ensures
            final(self).inv(),
            final(self).next_id_number() == old(self).next_id_number() + 1,
            final(self).records() == old(self).records(),
            final(self).session() == old(self).session(),
            final(self).proxy_on() == old(self).proxy_on(),
            ({
                let id = process_id(old(self).next_id_number());
                let nm = match name { Some(n) => n@, None => id };
                match r {
                    Ok(plan) => {
                        &&& plan.id@ == id
                        &&& plan.name@ == nm
                        &&& plan.command@ == command@
                        &&& plan.cwd == cwd
                        &&& !unsafe_name(nm)
                        &&& (old(self).proxy_on() ==> dns_label(nm))
                        &&& (forall|i: int| 0 <= i < old(self).records().len() ==> old(self).records()[i].name@ != nm)
                        &&& env_view(plan.env@) == port_env(plan.port) + match env {
                            Some(e) => env_view(e@),
                            None => Seq::empty(),
                        }
                        &&& plan.user_env@ == match env {
                            Some(e) => e@,
                            None => Seq::empty(),
                        }
                        &&& match port {
                            Some(p) => plan.port == Some(p),
                            None => if old(self).proxy_on() {
                                plan.port matches Some(p) && !running_port_list(old(self).records()).contains(p)
                                    && is_free.ensures((p,), true)
                                    && exists|k: int| 0 <= k < auto_range_size()
                                        && candidate(old(self).allocator().next_port(), k) == p
                                        && forall|i: int| 0 <= i < k ==> #[trigger] passed_over(
                                            running_port_list(old(self).records()),
                                            is_free,
                                            old(self).allocator().next_port(),
                                            i,
                                        )
                            } else {
                                plan.port is None
                            },
                        }
                    },
                    Err(e) => {
                        ||| unsafe_name(nm) && is_error(e, ErrorCode::General, "invalid process name: "@ + nm)
                        ||| !unsafe_name(nm) && old(self).proxy_on() && !dns_label(nm) && is_error(
                            e,
                            ErrorCode::General,
                            "invalid process name for proxy: '"@ + nm
                                + "' (must be lowercase alphanumeric/hyphens, max 63 chars)"@,
                        )
                        ||| !unsafe_name(nm) && (old(self).proxy_on() ==> dns_label(nm)) && port is None
                            && old(self).proxy_on() && is_error(
                            e,
                            ErrorCode::General,
                            proxy_error_message(
                                ProxyError::NoFreeAutoPort {
                                    min: AUTO_PORT_MIN,
                                    max: AUTO_PORT_MAX,
                                    start: old(self).allocator().next_port(),
                                },
                            ),
                        ) && forall|i: int| 0 <= i < auto_range_size() ==> #[trigger] passed_over(
                            running_port_list(old(self).records()),
                            is_free,
                            old(self).allocator().next_port(),
                            i,
                        )
                        ||| !unsafe_name(nm) && (old(self).proxy_on() ==> dns_label(nm)) && (exists|i: int|
                            0 <= i < old(self).records().len() && old(self).records()[i].name@ == nm)
                            && is_error(e, ErrorCode::General, "process already exists: "@ + nm)
                    },
                }
            }),
    {
        let id = self.id_counter.next_id();
        let nm = match name {
            Some(n) => n,
            None => id.clone(),
        };
        if is_unsafe_name(nm.as_str()) {
            let mut m = String::new();
            m.append("invalid process name: ");
            m.append(nm.as_str());
            return Err(error(ErrorCode::General, m));
        }
        let proxy = self.port_allocator.is_proxy_enabled();
        if proxy && !is_valid_dns_label(nm.as_str()) {
            let mut m = String::new();
            m.append("invalid process name for proxy: '");
            m.append(nm.as_str());
            m.append("' (must be lowercase alphanumeric/hyphens, max 63 chars)");
            return Err(error(ErrorCode::General, m));
        }
        let resolved: Option<u16> = match port {
            Some(p) => Some(p),
            None => {
                if proxy {
                    let assigned = self.running_port_vec();
                    match self.port_allocator.auto_assign_port(assigned.as_slice(), is_free) {
                        Ok(p) => Some(p),
                        Err(e) => {
                            return Err(error(ErrorCode::General, e.message()));
                        },
                    }
                } else {
                    None
                }
            },
        };
        match find_first(&self.processes, true, nm.as_str()) {
            Some(i) => {
                assert(is_first(self.processes@, i as int, true, nm@));
                let mut m = String::new();
                m.append("process already exists: ");
                m.append(nm.as_str());
                return Err(error(ErrorCode::General, m));
            },
            None => {
                proof {
                    if exists|i: int| 0 <= i < self.processes@.len() && self.processes@[i].name@ == nm@ {
                        let w = choose|i: int| 0 <= i < self.processes@.len() && self.processes@[i].name@ == nm@;
                        lemma_first_pos_some(self.processes@, true, nm@, w);
                    }
                }
            },
        }
        let user_env = match &env {
            Some(e) => clone_env(e),
            None => Vec::new(),
        };
        let plan_env = spawn_env(resolved, env);
        Ok(SpawnPlan { id, name: nm, command: command.to_string(), cwd, env: plan_env, user_env, port: resolved })
    }
}

/// The record a spawn plan becomes once its child runs as `pid`, started
/// at `now_ms`.
pub open spec fn spawned_record(plan: SpawnPlan, pid: u32, now_ms: u64) -> ManagedProcess {
    ManagedProcess {
        name: plan.name,
        id: plan.id,
        command: plan.command,
        cwd: plan.cwd,
        env: plan.user_env,
        running: true,
        pid,
        started_at_ms: now_ms,
        exit_code: None,
        port: plan.port,
        restart_policy: None,
        watch_config: None,
        restart_count: 0,
        manually_stopped: false,
        restart_pending: false,
        failed: false,
    }
}

/// The URL of a process with `port` (none without a port).
pub open spec fn url_of(name: Seq<char>, port: Option<u16>, proxy_port: Option<u16>) -> Option<Seq<char>> {
    match port {
        Some(p) => Some(process_url_spec(name, p, proxy_port)),
        None => None,
    }
}

/// The views of an optional string.
pub open spec fn opt_str(o: Option<String>) -> Option<Seq<char>> {
    match o {
        Some(s) => Some(s@),
        None => None,
    }
}

/// What a stop needs to know of the process: its name, its PID and
/// whether its child is still held.
pub struct StopTicket {
    pub name: String,
    pub pid: u32,
    pub running: bool,
}

/// What a restart carries over from the process it replaces.
pub struct RestartSpec {
    pub command: String,
    pub name: String,
    pub cwd: Option<String>,
    pub env: Vec<(String, String)>,
    pub port: Option<u16>,
    pub restart_policy: Option<RestartPolicy>,
    pub watch_config: Option<WatchConfig>,
    pub restart_count: u32,
    pub restart_pending: bool,
}

/// Record `i` with new supervisor flags.
pub open spec fn with_flags(p: ManagedProcess, manually_stopped: bool, restart_count: u32, failed: bool, restart_pending: bool) -> ManagedProcess {
    ManagedProcess { manually_stopped, restart_count, failed, restart_pending, ..p }
}

impl ProcessManager {
    /// Adds the record of a process just spawned from `plan`, whose name is
    /// not in use, and answers the request with its name, id, PID, port and
    /// URL.
    pub fn register_spawned(&mut self, plan: SpawnPlan, pid: u32, now_ms: u64) -> (r: Response)
        requires
            old(self).inv(),
            forall|i: int| 0 <= i < old(self).records().len() ==> old(self).records()[i].name@ != plan.name@,
        ensures
            final(self).inv(),
            final(self).records() == old(self).records().push(spawned_record(plan, pid, now_ms)),
            final(self).session() == old(self).session(),
            final(self).proxy_on() == old(self).proxy_on(),
            final(self).next_id_number() == old(self).next_id_number(),
            r matches Response::RunOk { name, id, pid: rpid, port, url } && name@ == plan.name@ && id@ == plan.id@
                && rpid == pid && port == plan.port && opt_str(url) == url_of(plan.name@, plan.port, None),
    {
        let url = match plan.port {
            Some(p) => Some(process_url(plan.name.as_str(), p, None)),
            None => None,
        };
        let resp = Response::RunOk { name: plan.name.clone(), id: plan.id.clone(), pid, port: plan.port, url };
        let ghost old_ps = self.processes@;
        assert(old_ps == old(self).records());
        let ghost g = plan;
        let rec = ManagedProcess {
            name: plan.name,
            id: plan.id,
            command: plan.command,
            cwd: plan.cwd,
            env: plan.user_env,
            running: true,
            pid,
            started_at_ms: now_ms,
            exit_code: None,
            port: plan.port,
            restart_policy: None,
            watch_config: None,
            restart_count: 0,
            manually_stopped: false,
            restart_pending: false,
            failed: false,
        };
        assert(rec == spawned_record(g, pid, now_ms));
        self.processes.push(rec);
        assert forall|a: int, b: int| 0 <= a < b < self.processes@.len() implies #[trigger] self.processes@[a].name@
            != #[trigger] self.processes@[b].name@ by {
            if b < old_ps.len() {
                assert(self.processes@[a] == old_ps[a]);
                assert(self.processes@[b] == old_ps[b]);
            } else {
                assert(self.processes@[a] == old_ps[a]);
                assert(self.processes@[b] == spawned_record(g, pid, now_ms));
                assert(old(self).records()[a].name@ != g.name@);
            }
        }
        resp
    }

    /// Starts a stop of the process `target` names: it is marked as stopped
    /// by hand (so the supervisor leaves it alone), and its name, PID and
    /// whether it runs are returned for the signals. An unknown target is
    /// answered "process not found".
    pub fn begin_stop(&mut self, target: &str) -> (r: Result<StopTicket, Response>)
        requires
            old(self).inv(),
        ensures
            final(self).inv(),
            final(self).session() == old(self).session(),
            final(self).proxy_on() == old(self).proxy_on(),
            final(self).next_id_number() == old(self).next_id_number(),
            match target_pos(old(self).records(), target@) {
                Some(i) => {
                    let p = old(self).records()[i];
                    &&& final(self).records() == old(self).records().update(i, ManagedProcess { manually_stopped: true, ..p })
                    &&& r matches Ok(t) && t.name@ == p.name@ && t.pid == p.pid && t.running == p.running
                },
                None => {
                    &&& final(self).records() == old(self).records()
                    &&& r matches Err(e) && is_error(e, ErrorCode::NotFound, "process not found: "@ + target@)
                },
            },
    {
        match self.find(target) {
            None => {
                let mut m = String::new();
                m.append("process not found: ");
                m.append(target);
                Err(error(ErrorCode::NotFound, m))
            },
            Some(i) => {
                let ghost oldv = self.processes@;
                let mut rec = self.processes.remove(i);
                rec.manually_stopped = true;
                let t = StopTicket { name: rec.name.clone(), pid: rec.pid, running: rec.running };
                self.processes.insert(i, rec);
                proof {
                    assert(self.processes@ =~= oldv.update(i as int, ManagedProcess { manually_stopped: true, ..oldv[i as int] }));
                    assert forall|a: int, b: int| 0 <= a < b < self.processes@.len() implies #[trigger] self.processes@[a].name@
                        != #[trigger] self.processes@[b].name@ by {
                        assert(self.processes@[a].name@ == oldv[a].name@);
                        assert(self.processes@[b].name@ == oldv[b].name@);
                    }
                }
                Ok(t)
            },
        }
    }
}

proof fn lemma_update_keeps_unique(ps: Seq<ManagedProcess>, i: int, rec: ManagedProcess)
    requires
        names_unique(ps),
        0 <= i < ps.len(),
        rec.name@ == ps[i].name@,
    ensures
        names_unique(ps.update(i, rec)),
{
    let q = ps.update(i, rec);
    assert forall|a: int, b: int| 0 <= a < b < q.len() implies #[trigger] q[a].name@ != #[trigger] q[b].name@ by {
        assert(q[a].name@ == ps[a].name@);
        assert(q[b].name@ == ps[b].name@);
    }
}

proof fn lemma_remove_keeps_unique(ps: Seq<ManagedProcess>, i: int)
    requires
        names_unique(ps),
        0 <= i < ps.len(),
    ensures
        names_unique(ps.remove(i)),
{
    let q = ps.remove(i);
    assert forall|a: int, b: int| 0 <= a < b < q.len() implies #[trigger] q[a].name@ != #[trigger] q[b].name@ by {
        let a2 = if a < i { a } else { a + 1 };
        let b2 = if b < i { b } else { b + 1 };
        assert(q[a] == ps[a2]);
        assert(q[b] == ps[b2]);
    }
}

/// Whether the process exited and is to be restarted under its policy,
/// before its restart budget is looked at.
pub open spec fn wants_restart(p: ManagedProcess) -> bool {
    &&& !p.running
    &&& !p.manually_stopped
    &&& !p.restart_pending
    &&& !p.failed
    &&& p.restart_policy matches Some(policy) && restarts_after(policy.mode, p.exit_code)
}

/// Whether the process has used up its restarts.
pub open spec fn restarts_exhausted(p: ManagedProcess) -> bool {
    p.restart_policy matches Some(policy) && (policy.max_restarts matches Some(max) && p.restart_count >= max)
}

/// The delay before an automatic restart of `p`, in milliseconds.
pub open spec fn restart_delay_of(p: ManagedProcess) -> u64 {
    match p.restart_policy {
        Some(policy) => policy.restart_delay_ms,
        None => 1000,
    }
}

/// The restart limit of `p` (0 where it has none).
pub open spec fn restart_limit_of(p: ManagedProcess) -> u32 {
    match p.restart_policy {
        Some(policy) => match policy.max_restarts {
            Some(m) => m,
            None => 0,
        },
        None => 0,
    }
}

/// The processes to restart, in order, each with its delay.
pub open spec fn restart_entries(ps: Seq<ManagedProcess>) -> Seq<(Seq<char>, u64)>
    decreases ps.len(),
{
    if ps.len() == 0 {
        Seq::empty()
    } else if restartable(ps.last()) {
        restart_entries(ps.drop_last()).push((ps.last().name@, restart_delay_of(ps.last())))
    } else {
        restart_entries(ps.drop_last())
    }
}

/// The processes out of restarts, in order, each with the note for its log.
pub open spec fn exhausted_entries(ps: Seq<ManagedProcess>) -> Seq<(Seq<char>, Seq<char>)>
    decreases ps.len(),
{
    if ps.len() == 0 {
        Seq::empty()
    } else if exhausted(ps.last()) {
        exhausted_entries(ps.drop_last()).push((ps.last().name@, exhausted_note(restart_limit_of(ps.last()))))
    } else {
        exhausted_entries(ps.drop_last())
    }
}

/// The names of the records that `pred` holds of, in order.
pub open spec fn names_where(ps: Seq<ManagedProcess>, pred: spec_fn(ManagedProcess) -> bool) -> Seq<Seq<char>>
    decreases ps.len(),
{
    if ps.len() == 0 {
        Seq::empty()
    } else if pred(ps.last()) {
        names_where(ps.drop_last(), pred).push(ps.last().name@)
    } else {
        names_where(ps.drop_last(), pred)
    }
}

/// Of the crashed processes to be restarted: those that may restart again.
pub open spec fn restartable(p: ManagedProcess) -> bool {
    wants_restart(p) && !restarts_exhausted(p)
}

/// Of the crashed processes to be restarted: those out of restarts.
pub open spec fn exhausted(p: ManagedProcess) -> bool {
    wants_restart(p) && restarts_exhausted(p)
}

/// The names of the records that may restart, in order.
pub open spec fn restart_list(ps: Seq<ManagedProcess>) -> Seq<Seq<char>> {
    names_where(ps, |p: ManagedProcess| restartable(p))
}

/// The names of the records out of restarts, in order.
pub open spec fn exhausted_list(ps: Seq<ManagedProcess>) -> Seq<Seq<char>> {
    names_where(ps, |p: ManagedProcess| exhausted(p))
}

/// A name listed by `names_where` belongs to a record that `pred` holds of.
proof fn lemma_names_where_member(ps: Seq<ManagedProcess>, pred: spec_fn(ManagedProcess) -> bool, n: Seq<char>)
    requires
        names_where(ps, pred).contains(n),
    ensures
        exists|j: int| 0 <= j < ps.len() && pred(ps[j]) && #[trigger] ps[j].name@ == n,
    decreases ps.len(),
{
    let init = ps.drop_last();
    if pred(ps.last()) && n == ps.last().name@ {
        assert(pred(ps[ps.len() - 1]) && ps[ps.len() - 1].name@ == n);
    } else {
        let before = names_where(init, pred);
        if pred(ps.last()) {
            let k = choose|k: int| 0 <= k < names_where(ps, pred).len() && names_where(ps, pred)[k] == n;
            assert(k < before.len());
            assert(before[k] == n);
        }
        assert(before.contains(n));
        lemma_names_where_member(init, pred, n);
        let j = choose|j: int| 0 <= j < init.len() && pred(init[j]) && #[trigger] init[j].name@ == n;
        assert(ps[j] == init[j]);
    }
}

/// A record that `pred` holds of is named by `names_where`.
proof fn lemma_named(ps: Seq<ManagedProcess>, pred: spec_fn(ManagedProcess) -> bool, i: int)
    requires
        0 <= i < ps.len(),
        pred(ps[i]),
    ensures
        names_where(ps, pred).contains(ps[i].name@),
    decreases ps.len(),
{
    let init = ps.drop_last();
    if i == ps.len() - 1 {
        let w = names_where(ps, pred);
        assert(w[w.len() - 1] == ps[i].name@);
    } else {
        assert(init[i] == ps[i]);
        lemma_named(init, pred, i);
        let before = names_where(init, pred);
        let k = choose|k: int| 0 <= k < before.len() && before[k] == ps[i].name@;
        if pred(ps.last()) {
            assert(names_where(ps, pred)[k] == before[k]);
        }
    }
}

/// Among records of distinct names, `names_where` lists no name twice.
proof fn lemma_names_where_distinct(ps: Seq<ManagedProcess>, pred: spec_fn(ManagedProcess) -> bool)
    requires
        names_unique(ps),
    ensures
        names_where(ps, pred).no_duplicates(),
    decreases ps.len(),
{
    if ps.len() > 0 {
        let init = ps.drop_last();
        assert(names_unique(init)) by {
            assert forall|a: int, b: int| 0 <= a < b < init.len() implies #[trigger] init[a].name@ != #[trigger] init[b].name@ by {
                assert(init[a] == ps[a] && init[b] == ps[b]);
            }
        }
        lemma_names_where_distinct(init, pred);
        if pred(ps.last()) {
            let before = names_where(init, pred);
            let n = ps.last().name@;
            if before.contains(n) {
                lemma_names_where_member(init, pred, n);
                let j = choose|j: int| 0 <= j < init.len() && pred(init[j]) && #[trigger] init[j].name@ == n;
                assert(init[j] == ps[j]);
                assert(ps[j].name@ != ps[ps.len() - 1].name@);
            }
            let w = names_where(ps, pred);
            assert forall|a: int, b: int| 0 <= a < w.len() && 0 <= b < w.len() && a != b implies w[a] != w[b] by {
                if a < before.len() && b < before.len() {
                    assert(w[a] == before[a] && w[b] == before[b]);
                } else if a < before.len() {
                    assert(w[a] == before[a]);
                    assert(before.contains(w[a]));
                } else {
                    assert(w[b] == before[b]);
                    assert(before.contains(w[b]));
                }
            }
        }
    }
}

/// The restart classification, record by record: among records of
/// distinct names, a name is listed as restartable exactly when its
/// record may restart, as exhausted exactly when it is out of restarts;
/// no name is listed twice, nor on both lists, and every listed name is
/// that of a record.
pub proof fn lemma_classification_exact(ps: Seq<ManagedProcess>)
    requires
        names_unique(ps),
    ensures
        forall|i: int| 0 <= i < ps.len() ==> (restart_list(ps).contains(#[trigger] ps[i].name@) <==> restartable(ps[i])),
        forall|i: int| 0 <= i < ps.len() ==> (exhausted_list(ps).contains(#[trigger] ps[i].name@) <==> exhausted(ps[i])),
        restart_list(ps).no_duplicates(),
        exhausted_list(ps).no_duplicates(),
        forall|n: Seq<char>| #[trigger] restart_list(ps).contains(n) ==> !exhausted_list(ps).contains(n),
        forall|n: Seq<char>| #[trigger] restart_list(ps).contains(n) ==> exists|i: int| 0 <= i < ps.len() && ps[i].name@ == n,
        forall|n: Seq<char>| #[trigger] exhausted_list(ps).contains(n) ==> exists|i: int| 0 <= i < ps.len() && ps[i].name@ == n,
{
    let r = |p: ManagedProcess| restartable(p);
    let e = |p: ManagedProcess| exhausted(p);
    assert forall|i: int| 0 <= i < ps.len() implies (names_where(ps, r).contains(#[trigger] ps[i].name@) <==> restartable(ps[i])) by {
        if restartable(ps[i]) {
            lemma_named(ps, r, i);
        } else {
            lemma_not_named(ps, r, i);
        }
    }
    assert forall|i: int| 0 <= i < ps.len() implies (names_where(ps, e).contains(#[trigger] ps[i].name@) <==> exhausted(ps[i])) by {
        if exhausted(ps[i]) {
            lemma_named(ps, e, i);
        } else {
            lemma_not_named(ps, e, i);
        }
    }
    lemma_names_where_distinct(ps, r);
    lemma_names_where_distinct(ps, e);
    assert forall|n: Seq<char>| #[trigger] names_where(ps, r).contains(n) implies !names_where(ps, e).contains(n) by {
        lemma_names_where_member(ps, r, n);
        let j = choose|j: int| 0 <= j < ps.len() && r(ps[j]) && #[trigger] ps[j].name@ == n;
        lemma_not_named(ps, e, j);
    }
    assert forall|n: Seq<char>| #[trigger] names_where(ps, r).contains(n) implies exists|i: int|
        0 <= i < ps.len() && ps[i].name@ == n by {
        lemma_names_where_member(ps, r, n);
    }
    assert forall|n: Seq<char>| #[trigger] names_where(ps, e).contains(n) implies exists|i: int|
        0 <= i < ps.len() && ps[i].name@ == n by {
        lemma_names_where_member(ps, e, n);
    }
}

/// Among records of distinct names, one that `pred` does not hold of is
/// not named by `names_where`.
proof fn lemma_not_named(ps: Seq<ManagedProcess>, pred: spec_fn(ManagedProcess) -> bool, i: int)
    requires
        names_unique(ps),
        0 <= i < ps.len(),
        !pred(ps[i]),
    ensures
        !names_where(ps, pred).contains(ps[i].name@),
{
    if names_where(ps, pred).contains(ps[i].name@) {
        lemma_names_where_member(ps, pred, ps[i].name@);
        let j = choose|j: int| 0 <= j < ps.len() && pred(ps[j]) && #[trigger] ps[j].name@ == ps[i].name@;
        assert(j == i);
    }
}

/// A process stopped by hand is left alone by the supervisor: it is
/// neither restarted nor marked as out of restarts.
pub proof fn lemma_stopped_by_hand_never_restarted(ps: Seq<ManagedProcess>, i: int)
    requires
        names_unique(ps),
        0 <= i < ps.len(),
        ps[i].manually_stopped,
    ensures
        !names_where(ps, |p: ManagedProcess| restartable(p)).contains(ps[i].name@),
        !names_where(ps, |p: ManagedProcess| exhausted(p)).contains(ps[i].name@),
{
    lemma_not_named(ps, |p: ManagedProcess| restartable(p), i);
    lemma_not_named(ps, |p: ManagedProcess| exhausted(p), i);
}

/// A process never restarts past its limit: once its restart count has
/// reached `max_restarts` it is not restarted again.
pub proof fn lemma_restarts_capped(ps: Seq<ManagedProcess>, i: int)
    requires
        names_unique(ps),
        0 <= i < ps.len(),
        restarts_exhausted(ps[i]),
    ensures
        !names_where(ps, |p: ManagedProcess| restartable(p)).contains(ps[i].name@),
{
    lemma_not_named(ps, |p: ManagedProcess| restartable(p), i);
}

/// The value an environment gives `key`: that of its last entry for it.
pub open spec fn env_value(env: Seq<(Seq<char>, Seq<char>)>, key: Seq<char>) -> Option<Seq<char>>
    decreases env.len(),
{
    if env.len() == 0 {
        None
    } else if env.last().0 == key {
        Some(env.last().1)
    } else {
        env_value(env.drop_last(), key)
    }
}

/// In the environment of a process with a port, a variable the user sets
/// has the user's value, even `PORT` and `HOST`; one the user leaves unset
/// has the injected value, so `PORT` is the port and `HOST` is `127.0.0.1`.
pub proof fn lemma_user_env_takes_precedence(port: Option<u16>, user: Seq<(Seq<char>, Seq<char>)>, key: Seq<char>)
    ensures
        env_value(user, key) is Some ==> env_value(port_env(port) + user, key) == env_value(user, key),
        env_value(user, key) is None ==> env_value(port_env(port) + user, key) == env_value(port_env(port), key),
        port is Some && env_value(user, "PORT"@) is None ==> env_value(port_env(port) + user, "PORT"@)
            == Some(decimal(port->0 as nat)),
        port is Some && env_value(user, "HOST"@) is None ==> env_value(port_env(port) + user, "HOST"@)
            == Some("127.0.0.1"@),
    decreases user.len(),
{
    if user.len() > 0 {
        let all = port_env(port) + user;
        assert(all.drop_last() =~= port_env(port) + user.drop_last());
        assert(all.last() == user.last());
        lemma_user_env_takes_precedence(port, user.drop_last(), key);
        lemma_user_env_takes_precedence(port, user.drop_last(), "PORT"@);
        lemma_user_env_takes_precedence(port, user.drop_last(), "HOST"@);
    } else {
        assert(port_env(port) + user =~= port_env(port));
    }
    if let Some(p) = port {
        reveal_strlit("PORT");
        reveal_strlit("HOST");
        assert("PORT"@ != "HOST"@) by {
            assert("PORT"@[0] != "HOST"@[0]);
        }
        let pe = port_env(port);
        assert(pe.drop_last() =~= seq![("PORT"@, decimal(p as nat))]);
        assert(pe.drop_last().last() == ("PORT"@, decimal(p as nat)));
        assert(env_value(pe.drop_last(), "PORT"@) == Some(decimal(p as nat)));
        assert(pe.last().0 != "PORT"@);
        assert(env_value(pe, "PORT"@) == env_value(pe.drop_last(), "PORT"@));
    }
}

impl ProcessManager {
    /// Records the end of a stop of the process named `name`: its exit code
    /// and that its child is gone. Nothing changes for an unknown name.
    pub fn finish_stop(&mut self, name: &str, exit_code: Option<i32>)
        requires
            old(self).inv(),
        ensures
            final(self).inv(),
            final(self).session() == old(self).session(),
            final(self).proxy_on() == old(self).proxy_on(),
            final(self).next_id_number() == old(self).next_id_number(),
            match first_pos(old(self).records(), true, name@) {
                Some(i) => final(self).records() == old(self).records().update(
                    i,
                    ManagedProcess { exit_code, running: false, ..old(self).records()[i] },
                ),
                None => final(self).records() == old(self).records(),
            },
    {
        if let Some(i) = find_first(&self.processes, true, name) {
            let ghost oldv = self.processes@;
            let mut rec = self.processes.remove(i);
            rec.exit_code = exit_code;
            rec.running = false;
            self.processes.insert(i, rec);
            proof {
                assert(self.processes@ =~= oldv.update(i as int, rec));
                lemma_update_keeps_unique(oldv, i as int, rec);
            }
        }
    }

    /// Records that the child of the process named `name` was seen to exit
    /// with `exit_code`. Only a running process without an exit code
    /// changes; returns whether one did.
    pub fn record_exit(&mut self, name: &str, exit_code: Option<i32>) -> (r: bool)
        requires
            old(self).inv(),
        ensures
            final(self).inv(),
            final(self).session() == old(self).session(),
            final(self).proxy_on() == old(self).proxy_on(),
            final(self).next_id_number() == old(self).next_id_number(),
            match first_pos(old(self).records(), true, name@) {
                Some(i) if old(self).records()[i].running && old(self).records()[i].exit_code is None => {
                    &&& r
                    &&& final(self).records() == old(self).records().update(
                        i,
                        ManagedProcess { exit_code, running: false, ..old(self).records()[i] },
                    )
                },
                _ => !r && final(self).records() == old(self).records(),
            },
    {
        if let Some(i) = find_first(&self.processes, true, name) {
            if self.processes[i].running && self.processes[i].exit_code.is_none() {
                let ghost oldv = self.processes@;
                let mut rec = self.processes.remove(i);
                rec.exit_code = exit_code;
                rec.running = false;
                self.processes.insert(i, rec);
                proof {
                    assert(self.processes@ =~= oldv.update(i as int, rec));
                    lemma_update_keeps_unique(oldv, i as int, rec);
                }
                return true;
            }
        }
        false
    }

    /// Removes the process named `name`.
    pub fn remove(&mut self, name: &str)
        requires
            old(self).inv(),
        ensures
            final(self).inv(),
            final(self).session() == old(self).session(),
            final(self).proxy_on() == old(self).proxy_on(),
            final(self).next_id_number() == old(self).next_id_number(),
            match first_pos(old(self).records(), true, name@) {
                Some(i) => final(self).records() == old(self).records().remove(i),
                None => final(self).records() == old(self).records(),
            },
            forall|i: int| 0 <= i < final(self).records().len() ==> final(self).records()[i].name@ != name@,
    {
        if let Some(i) = find_first(&self.processes, true, name) {
            let ghost oldv = self.processes@;
            let _ = self.processes.remove(i);
            proof {
                lemma_remove_keeps_unique(oldv, i as int);
                assert forall|k: int| 0 <= k < self.processes@.len() implies self.processes@[k].name@ != name@ by {
                    let k2 = if k < i { k } else { k + 1 };
                    assert(self.processes@[k] == oldv[k2]);
                    if k2 != i as int {
                        if k2 < i as int {
                            assert(oldv[k2].name@ != oldv[i as int].name@);
                        } else {
                            assert(oldv[i as int].name@ != oldv[k2].name@);
                        }
                    }
                }
            }
        } else {
            proof {
                assert forall|k: int| 0 <= k < self.processes@.len() implies self.processes@[k].name@ != name@ by {
                    if self.processes@[k].name@ == name@ {
                        lemma_first_pos_some(self.processes@, true, name@, k);
                    }
                }
            }
        }
    }

    /// The names of all processes, in order.
    pub fn names(&self) -> (r: Vec<String>)
        ensures
            r.deep_view() == self.records().map_values(|p: ManagedProcess| p.name@),
    {
        let mut out: Vec<String> = Vec::new();
        let mut i: usize = 0;
        while i < self.processes.len()
            invariant
                i <= self.processes@.len(),
                out.deep_view() == self.processes@.take(i as int).map_values(|p: ManagedProcess| p.name@),
            decreases self.processes.len() - i,
        {
            let ghost before = out.deep_view();
            let n = self.processes[i].name.clone();
            out.push(n);
            proof {
                assert(out.deep_view() =~= before.push(n@));
                assert(self.processes@.take(i + 1) =~= self.processes@.take(i as int).push(self.processes@[i as int]));
                assert(out.deep_view() =~= self.processes@.take(i + 1).map_values(|p: ManagedProcess| p.name@));
            }
            i = i + 1;
        }
        assert(self.processes@.take(self.processes@.len() as int) =~= self.processes@);
        out
    }

    /// Forgets every process (after all were stopped).
    pub fn clear(&mut self)
        requires
            old(self).inv(),
        ensures
            final(self).inv(),
            final(self).records().len() == 0,
            final(self).session() == old(self).session(),
            final(self).proxy_on() == old(self).proxy_on(),
            final(self).next_id_number() == old(self).next_id_number(),
    {
        self.processes = Vec::new();
    }

    /// Starts a restart of the process `target` names: its supervisor state
    /// is reset (a restart by hand is intended), and what the new process
    /// takes over is returned. An unknown target is answered "process not
    /// found".
    pub fn begin_restart(&mut self, target: &str) -> (r: Result<RestartSpec, Response>)
        requires
            old(self).inv(),
        ensures
            final(self).inv(),
            final(self).session() == old(self).session(),
            final(self).proxy_on() == old(self).proxy_on(),
            final(self).next_id_number() == old(self).next_id_number(),
            match target_pos(old(self).records(), target@) {
                Some(i) => {
                    let p = old(self).records()[i];
                    &&& final(self).records() == old(self).records().update(i, with_flags(p, false, 0, false, false))
                    &&& r matches Ok(s) && s.command == p.command && s.name == p.name && s.cwd == p.cwd
                        && s.env@ == p.env@ && s.port == p.port && s.restart_policy == p.restart_policy
                        && same_watch(s.watch_config, p.watch_config) && s.restart_count == p.restart_count
                        && s.restart_pending == p.restart_pending
                },
                None => {
                    &&& final(self).records() == old(self).records()
                    &&& r matches Err(e) && is_error(e, ErrorCode::NotFound, "process not found: "@ + target@)
                },
            },
    {
        match self.find(target) {
            None => {
                let mut m = String::new();
                m.append("process not found: ");
                m.append(target);
                Err(error(ErrorCode::NotFound, m))
            },
            Some(i) => {
                let ghost oldv = self.processes@;
                let mut rec = self.processes.remove(i);
                let spec = RestartSpec {
                    command: rec.command.clone(),
                    name: rec.name.clone(),
                    cwd: clone_opt(&rec.cwd),
                    env: clone_env(&rec.env),
                    port: rec.port,
                    restart_policy: rec.restart_policy,
                    watch_config: clone_watch(&rec.watch_config),
                    restart_count: rec.restart_count,
                    restart_pending: rec.restart_pending,
                };
                rec.manually_stopped = false;
                rec.restart_count = 0;
                rec.failed = false;
                rec.restart_pending = false;
                self.processes.insert(i, rec);
                proof {
                    assert(self.processes@ =~= oldv.update(i as int, rec));
                    lemma_update_keeps_unique(oldv, i as int, rec);
                }
                Ok(spec)
            },
        }
    }

    /// Sets the restart policy and watch configuration of the process
    /// `target` names (nothing changes for an unknown target).
    pub fn set_supervision(&mut self, target: &str, restart_policy: Option<RestartPolicy>, watch_config: Option<WatchConfig>)
        requires
            old(self).inv(),
        ensures
            final(self).inv(),
            final(self).session() == old(self).session(),
            final(self).proxy_on() == old(self).proxy_on(),
            final(self).next_id_number() == old(self).next_id_number(),
            match target_pos(old(self).records(), target@) {
                Some(i) => final(self).records() == old(self).records().update(
                    i,
                    ManagedProcess { restart_policy, watch_config, ..old(self).records()[i] },
                ),
                None => final(self).records() == old(self).records(),
            },
    {
        if let Some(i) = self.find(target) {
            let ghost oldv = self.processes@;
            let mut rec = self.processes.remove(i);
            rec.restart_policy = restart_policy;
            rec.watch_config = watch_config;
            self.processes.insert(i, rec);
            proof {
                assert(self.processes@ =~= oldv.update(i as int, rec));
                lemma_update_keeps_unique(oldv, i as int, rec);
            }
        }
    }

    /// Whether the process `target` names has exited: `None` when it is
    /// unknown or still running, else its exit code (itself `None` for a
    /// death by signal).
    pub fn is_process_exited(&self, target: &str) -> (r: Option<Option<i32>>)
        ensures
            r == match target_pos(self.records(), target@) {
                Some(i) => if self.records()[i].running { None } else { Some(self.records()[i].exit_code) },
                None => None,
            },
    {
        match self.find(target) {
            Some(i) => if self.processes[i].running { None } else { Some(self.processes[i].exit_code) },
            None => None,
        }
    }

    /// Marks the process `target` names as failed (out of restarts).
    pub fn mark_failed(&mut self, target: &str)
        requires
            old(self).inv(),
        ensures
            final(self).inv(),
            final(self).session() == old(self).session(),
            final(self).proxy_on() == old(self).proxy_on(),
            final(self).next_id_number() == old(self).next_id_number(),
            match target_pos(old(self).records(), target@) {
                Some(i) => final(self).records() == old(self).records().update(
                    i,
                    ManagedProcess { failed: true, ..old(self).records()[i] },
                ),
                None => final(self).records() == old(self).records(),
            },
    {
        if let Some(i) = self.find(target) {
            let ghost oldv = self.processes@;
            let mut rec = self.processes.remove(i);
            rec.failed = true;
            self.processes.insert(i, rec);
            proof {
                assert(self.processes@ =~= oldv.update(i as int, rec));
                lemma_update_keeps_unique(oldv, i as int, rec);
            }
        }
    }

    /// The exited processes with a restart policy that calls for a
    /// restart (not stopped by hand, not pending, not failed), split into
    /// those that may restart and those out of restarts.
    pub fn classify_restart_candidates(&self) -> (r: (Vec<String>, Vec<String>))
        ensures
            r.0.deep_view() == restart_list(self.records()),
            r.1.deep_view() == exhausted_list(self.records()),
    {
        let mut ok: Vec<String> = Vec::new();
        let mut out: Vec<String> = Vec::new();
        let mut i: usize = 0;
        while i < self.processes.len()
            invariant
                i <= self.processes@.len(),
                ok.deep_view() == names_where(self.processes@.take(i as int), |p: ManagedProcess| restartable(p)),
                out.deep_view() == names_where(self.processes@.take(i as int), |p: ManagedProcess| exhausted(p)),
            decreases self.processes.len() - i,
        {
            let p = &self.processes[i];
            proof {
                assert(self.processes@.take(i + 1).drop_last() =~= self.processes@.take(i as int));
                assert(self.processes@.take(i + 1).last() == *p);
            }
            let ghost ok0 = ok.deep_view();
            let ghost out0 = out.deep_view();
            let wants = !p.running && !p.manually_stopped && !p.restart_pending && !p.failed && match p.restart_policy {
                Some(policy) => policy.mode.should_restart(p.exit_code),
                None => false,
            };
            if wants {
                let over = match p.restart_policy {
                    Some(policy) => match policy.max_restarts {
                        Some(max) => p.restart_count >= max,
                        None => false,
                    },
                    None => false,
                };
                let n = p.name.clone();
                if over {
                    out.push(n);
                    assert(out.deep_view() =~= out0.push(n@));
                } else {
                    ok.push(n);
                    assert(ok.deep_view() =~= ok0.push(n@));
                }
            }
            i = i + 1;
        }
        assert(self.processes@.take(self.processes@.len() as int) =~= self.processes@);
        (ok, out)
    }
}

fn clone_opt(o: &Option<String>) -> (r: Option<String>)
    ensures
        r == *o,
{
    match o {
        Some(s) => Some(s.clone()),
        None => None,
    }
}

fn clone_strings(v: &Vec<String>) -> (r: Vec<String>)
    ensures
        r@ == v@,
{
    let mut out: Vec<String> = Vec::new();
    let mut i: usize = 0;
    while i < v.len()
        invariant
            i <= v@.len(),
            out@ == v@.take(i as int),
        decreases v.len() - i,
    {
        out.push(v[i].clone());
        assert(v@.take(i + 1) =~= v@.take(i as int).push(v@[i as int]));
        i = i + 1;
    }
    assert(v@.take(v@.len() as int) =~= v@);
    out
}

fn clone_env(v: &Vec<(String, String)>) -> (r: Vec<(String, String)>)
    ensures
        r@ == v@,
{
    let mut out: Vec<(String, String)> = Vec::new();
    let mut i: usize = 0;
    while i < v.len()
        invariant
            i <= v@.len(),
            out@ == v@.take(i as int),
        decreases v.len() - i,
    {
        let (a, b) = &v[i];
        out.push((a.clone(), b.clone()));
        assert(v@.take(i + 1) =~= v@.take(i as int).push(v@[i as int]));
        i = i + 1;
    }
    assert(v@.take(v@.len() as int) =~= v@);
    out
}

/// Whether two watch configurations hold the same paths.
pub open spec fn same_watch(a: Option<WatchConfig>, b: Option<WatchConfig>) -> bool {
    match (a, b) {
        (Some(x), Some(y)) => x.paths@ == y.paths@ && match (x.ignore, y.ignore) {
            (Some(g), Some(h)) => g@ == h@,
            (None, None) => true,
            _ => false,
        },
        (None, None) => true,
        _ => false,
    }
}

fn clone_watch(w: &Option<WatchConfig>) -> (r: Option<WatchConfig>)
    ensures
        same_watch(r, *w),
{
    match w {
        Some(c) => Some(WatchConfig {
            paths: clone_strings(&c.paths),
            ignore: match &c.ignore {
                Some(g) => Some(clone_strings(g)),
                None => None,
            },
        }),
        None => None,
    }
}

/// The state a record reports: running while its child is held, else
/// failed or exited.
pub open spec fn state_of(p: ManagedProcess) -> ProcessState {
    if p.running {
        ProcessState::Running
    } else if p.failed {
        ProcessState::Failed
    } else {
        ProcessState::Exited
    }
}

/// Whether `info` is the status of record `p` at `now_ms`.
pub open spec fn info_matches(info: ProcessInfo, p: ManagedProcess, now_ms: u64) -> bool {
    &&& info.name@ == p.name@
    &&& info.id@ == p.id@
    &&& info.pid == p.pid
    &&& info.state == state_of(p)
    &&& info.exit_code == p.exit_code
    &&& info.uptime_secs == (if p.running {
        Some((if now_ms >= p.started_at_ms { (now_ms - p.started_at_ms) as u64 } else { 0u64 }) / 1000)
    } else {
        None
    })
    &&& info.command@ == p.command@
    &&& info.port == p.port
    &&& opt_str(info.url) == url_of(p.name@, p.port, None)
    &&& info.restart_count == (if p.restart_count > 0 { Some(p.restart_count) } else { None })
    &&& info.max_restarts == (match p.restart_policy {
        Some(rp) => rp.max_restarts,
        None => None,
    })
    &&& opt_str(info.restart_policy) == (match p.restart_policy {
        Some(rp) => Some(restart_mode_name(rp.mode)),
        None => None,
    })
    &&& info.watched == (if p.watch_config is Some { Some(true) } else { None })
}

/// The status of one record at `now_ms`.
fn info_of(p: &ManagedProcess, now_ms: u64) -> (r: ProcessInfo)
    ensures
        info_matches(r, *p, now_ms),
{
    let uptime = if p.running {
        let elapsed: u64 = if now_ms >= p.started_at_ms { now_ms - p.started_at_ms } else { 0 };
        Some(elapsed / 1000)
    } else {
        None
    };
    ProcessInfo {
        name: p.name.clone(),
        id: p.id.clone(),
        pid: p.pid,
        state: if p.running {
            ProcessState::Running
        } else if p.failed {
            ProcessState::Failed
        } else {
            ProcessState::Exited
        },
        exit_code: p.exit_code,
        uptime_secs: uptime,
        command: p.command.clone(),
        port: p.port,
        url: match p.port {
            Some(port) => Some(process_url(p.name.as_str(), port, None)),
            None => None,
        },
        restart_count: if p.restart_count > 0 { Some(p.restart_count) } else { None },
        max_restarts: match p.restart_policy {
            Some(rp) => rp.max_restarts,
            None => None,
        },
        restart_policy: match p.restart_policy {
            Some(rp) => Some(rp.mode.name()),
            None => None,
        },
        watched: if p.watch_config.is_some() { Some(true) } else { None },
    }
}

/// The names of the entries of a status report.
pub open spec fn info_names(infos: Seq<ProcessInfo>) -> Seq<Seq<char>> {
    Seq::new(infos.len(), |k: int| infos[k].name@)
}

/// Whether entry `k` of `infos` is the status of some record of `ps`.
pub open spec fn reported(infos: Seq<ProcessInfo>, ps: Seq<ManagedProcess>, now_ms: u64, k: int) -> bool {
    exists|j: int| 0 <= j < ps.len() && info_matches(infos[k], ps[j], now_ms)
}

/// Whether record `j` of `ps` has an entry in `infos`.
pub open spec fn listed(infos: Seq<ProcessInfo>, ps: Seq<ManagedProcess>, j: int) -> bool {
    exists|k: int| 0 <= k < infos.len() && infos[k].name@ == ps[j].name@
}

/// Whether `infos` is the status report of `ps` at `now_ms`: one entry per
/// record, in ascending order of name.
pub open spec fn is_status_report(infos: Seq<ProcessInfo>, ps: Seq<ManagedProcess>, now_ms: u64) -> bool {
    &&& infos.len() == ps.len()
    &&& crate::text::strictly_sorted(info_names(infos))
    &&& forall|k: int| 0 <= k < infos.len() ==> #[trigger] reported(infos, ps, now_ms, k)
    &&& forall|j: int| 0 <= j < ps.len() ==> #[trigger] listed(infos, ps, j)
}

impl ProcessManager {
    /// The running processes that have a port, with that port, in order.
    pub fn running_ports(&self) -> (r: Vec<(String, u16)>)
        ensures
            r@.map_values(|e: (String, u16)| e.1) == running_port_list(self.records()),
            forall|k: int| 0 <= k < r@.len() ==> exists|j: int| 0 <= j < self.records().len()
                && self.records()[j].running && self.records()[j].port == Some(#[trigger] r@[k].1)
                && self.records()[j].name@ == r@[k].0@,
    {
        let mut out: Vec<(String, u16)> = Vec::new();
        let mut i: usize = 0;
        while i < self.processes.len()
            invariant
                i <= self.processes@.len(),
                out@.map_values(|e: (String, u16)| e.1) == running_port_list(self.processes@.take(i as int)),
                forall|k: int| 0 <= k < out@.len() ==> exists|j: int| 0 <= j < self.processes@.len()
                    && self.processes@[j].running && self.processes@[j].port == Some(#[trigger] out@[k].1)
                    && self.processes@[j].name@ == out@[k].0@,
            decreases self.processes.len() - i,
        {
            assert(self.processes@.take(i + 1).drop_last() =~= self.processes@.take(i as int));
            assert(self.processes@.take(i + 1).last() == self.processes@[i as int]);
            if self.processes[i].running {
                if let Some(p) = self.processes[i].port {
                    let ghost before = out@;
                    out.push((self.processes[i].name.clone(), p));
                    assert(out@.map_values(|e: (String, u16)| e.1) =~= before.map_values(|e: (String, u16)| e.1).push(p));
                    assert forall|k: int| 0 <= k < out@.len() implies exists|j: int| 0 <= j < self.processes@.len()
                        && self.processes@[j].running && self.processes@[j].port == Some(#[trigger] out@[k].1)
                        && self.processes@[j].name@ == out@[k].0@ by {
                        if k < before.len() {
                            assert(out@[k] == before[k]);
                        } else {
                            assert(self.processes@[i as int].port == Some(out@[k].1));
                        }
                    }
                }
            }
            i = i + 1;
        }
        assert(self.processes@.take(self.processes@.len() as int) =~= self.processes@);
        out
    }

    /// The status of every process at `now_ms`, in ascending order of name.
    pub fn build_process_infos(&self, now_ms: u64) -> (r: Vec<ProcessInfo>)
        requires
            self.inv(),
        ensures
            is_status_report(r@, self.records(), now_ms),
    {
        let mut names: Vec<String> = Vec::new();
        let mut i: usize = 0;
        while i < self.processes.len()
            invariant
                i <= self.processes@.len(),
                names_unique(self.processes@),
                crate::text::strictly_sorted(names.deep_view()),
                names.deep_view().len() == i,
                forall|s: Seq<char>| #[trigger] names.deep_view().contains(s) <==> exists|j: int| 0 <= j < i && self.processes@[j].name@ == s,
            decreases self.processes.len() - i,
        {
            let n = self.processes[i].name.clone();
            proof {
                if names.deep_view().contains(n@) {
                    let j = choose|j: int| 0 <= j < i && self.processes@[j].name@ == n@;
                    assert(self.processes@[j].name@ != self.processes@[i as int].name@);
                }
            }
            crate::text::insert_sorted(&mut names, n);
            proof {
                assert forall|s: Seq<char>| #[trigger] names.deep_view().contains(s) <==> exists|j: int| 0 <= j < i + 1 && self.processes@[j].name@ == s by {
                    if exists|j: int| 0 <= j < i + 1 && self.processes@[j].name@ == s {
                        let j = choose|j: int| 0 <= j < i + 1 && self.processes@[j].name@ == s;
                        if j < i {
                        }
                    }
                }
            }
            i = i + 1;
        }
        let mut out: Vec<ProcessInfo> = Vec::new();
        let mut k: usize = 0;
        while k < names.len()
            invariant
                k <= names@.len(),
                names@.len() == self.processes@.len(),
                names.deep_view().len() == names@.len(),
                crate::text::strictly_sorted(names.deep_view()),
                forall|s: Seq<char>| #[trigger] names.deep_view().contains(s) <==> exists|j: int| 0 <= j < self.processes@.len() && self.processes@[j].name@ == s,
                out@.len() == k,
                forall|m: int| 0 <= m < k ==> (#[trigger] out@[m]).name@ == names.deep_view()[m],
                forall|m: int| 0 <= m < k ==> exists|j: int| 0 <= j < self.processes@.len() && info_matches(#[trigger] out@[m], self.processes@[j], now_ms),
            decreases names.len() - k,
        {
            proof {
                assert(names.deep_view()[k as int] == names@[k as int]@);
                assert(names.deep_view().contains(names.deep_view()[k as int]));
            }
            match find_first(&self.processes, true, names[k].as_str()) {
                Some(j) => {
                    let info = info_of(&self.processes[j], now_ms);
                    let ghost before = out@;
                    out.push(info);
                    proof {
                        assert(is_first(self.processes@, j as int, true, names@[k as int]@));
                        assert forall|m: int| 0 <= m < k + 1 implies exists|jj: int| 0 <= jj < self.processes@.len() && info_matches(#[trigger] out@[m], self.processes@[jj], now_ms) by {
                            if m < k {
                                assert(out@[m] == before[m]);
                            } else {
                                assert(info_matches(out@[m], self.processes@[j as int], now_ms));
                            }
                        }
                        assert forall|m: int| 0 <= m < k + 1 implies (#[trigger] out@[m]).name@ == names.deep_view()[m] by {
                            if m < k {
                                assert(out@[m] == before[m]);
                            }
                        }
                    }
                },
                None => {
                    proof {
                        let s = names@[k as int]@;
                        let j = choose|j: int| 0 <= j < self.processes@.len() && self.processes@[j].name@ == s;
                        lemma_first_pos_some(self.processes@, true, s, j);
                        assert(false);
                    }
                    return out;
                },
            }
            k = k + 1;
        }
        proof {
            assert(info_names(out@) =~= names.deep_view());
            assert forall|j: int| #![trigger self.processes@[j]] 0 <= j < self.processes@.len() implies exists|m: int| 0 <= m < out@.len() && #[trigger] out@[m].name@ == self.processes@[j].name@ by {
                let s = self.processes@[j].name@;
                assert(names.deep_view().contains(s));
                let m = choose|m: int| 0 <= m < names.deep_view().len() && names.deep_view()[m] == s;
                assert(out@[m].name@ == s);
            }
            assert(out@.len() == self.processes@.len());
            let ps = self.records();
            assert(ps == self.processes@);
            assert forall|m: int| 0 <= m < out@.len() implies #[trigger] reported(out@, ps, now_ms, m) by {
                let x = out@[m];
                assert(exists|j: int| 0 <= j < self.processes@.len() && info_matches(x, self.processes@[j], now_ms));
            }
            assert forall|j: int| 0 <= j < ps.len() implies #[trigger] listed(out@, ps, j) by {
                let y = self.processes@[j];
                assert(exists|m: int| 0 <= m < out@.len() && #[trigger] out@[m].name@ == y.name@);
            }
            assert(out@.len() == ps.len());
            assert(crate::text::strictly_sorted(info_names(out@)));
            assert(is_status_report(out@, ps, now_ms));
        }
        out
    }

    /// The status report of every process at `now_ms`.
    pub fn status_snapshot(&self, now_ms: u64) -> (r: Response)
        requires
            self.inv(),
        ensures
            r matches Response::Status { processes } && is_status_report(processes@, self.records(), now_ms),
    {
        Response::Status { processes: self.build_process_infos(now_ms) }
    }
}

/// The response to a stop of `target`.
pub fn stopped_response(target: &str) -> (r: Response)
    ensures
        is_success(r, "stopped "@ + target@),
{
    let mut m = String::new();
    m.append("stopped ");
    m.append(target);
    Response::Success { message: m }
}

/// The response to a stop of every process.
pub fn all_stopped_response() -> (r: Response)
    ensures
        is_success(r, "all processes stopped"@),
{
    Response::Success { message: "all processes stopped".to_string() }
}

/// The note written into a process's log when it is restarted after an
/// exit with `exit_code` (`None`: killed by a signal), as attempt `count`
/// of at most `max`.
pub open spec fn restarted_note(exit_code: Option<i32>, count: u32, max: Option<u32>) -> Seq<char> {
    let exit = match exit_code {
        Some(c) => crate::text::signed_decimal(c as int),
        None => "signal"@,
    };
    match max {
        Some(m) => "[agent-procs] Restarted (exit "@ + exit + ", attempt "@ + decimal(count as nat) + "/"@
            + decimal(m as nat) + ")"@,
        None => "[agent-procs] Restarted (exit "@ + exit + ", attempt "@ + decimal(count as nat) + ")"@,
    }
}

/// The note written into a process's log when it is restarted.
pub fn restarted_message(exit_code: Option<i32>, count: u32, max: Option<u32>) -> (r: String)
    ensures
        r@ == restarted_note(exit_code, count, max),
{
    let mut m = String::new();
    m.append("[agent-procs] Restarted (exit ");
    match exit_code {
        Some(c) => crate::text::push_signed_decimal(&mut m, c as i64),
        None => m.append("signal"),
    }
    m.append(", attempt ");
    push_decimal(&mut m, count as u64);
    match max {
        Some(mx) => {
            m.append("/");
            push_decimal(&mut m, mx as u64);
            m.append(")");
        },
        None => m.append(")"),
    }
    m
}

/// The note written when a process is out of its `max` restarts.
pub open spec fn exhausted_note(max: u32) -> Seq<char> {
    "[agent-procs] Max restarts ("@ + decimal(max as nat) + ") exhausted"@
}

/// The note written when the process is out of restarts.
pub fn exhausted_message(max: u32) -> (r: String)
    ensures
        r@ == exhausted_note(max),
{
    let mut m = String::new();
    m.append("[agent-procs] Max restarts (");
    push_decimal(&mut m, max as u64);
    m.append(") exhausted");
    m
}

/// The note broadcast when an automatic restart fails with `err`.
pub fn restart_failed_message(err: &str) -> (r: String)
    ensures
        r@ == "[agent-procs] Restart failed: "@ + err@,
{
    let mut m = String::new();
    m.append("[agent-procs] Restart failed: ");
    m.append(err);
    m
}

/// The note broadcast when a restart on a file change fails with `err`.
pub fn watch_restart_failed_message(err: &str) -> (r: String)
    ensures
        r@ == "[agent-procs] Watch restart failed: "@ + err@,
{
    let mut m = String::new();
    m.append("[agent-procs] Watch restart failed: ");
    m.append(err);
    m
}

/// The answer to a spawn whose child could not be started, with the
/// system's error `err`.
pub fn spawn_failed_response(err: &str) -> (r: Response)
    ensures
        is_error(r, ErrorCode::General, "failed to spawn: "@ + err@),
{
    let mut m = String::new();
    m.append("failed to spawn: ");
    m.append(err);
    Response::Error { code: ErrorCode::General, message: m }
}

/// The note written into a process's log when it is restarted after a
/// change to its watched files.
pub fn file_changed_message() -> (r: String)
    ensures
        r@ == "[agent-procs] File changed, restarted"@,
{
    "[agent-procs] File changed, restarted".to_string()
}

/// The note written into a process's log when it is restarted by hand.
pub fn manual_restart_message() -> (r: String)
    ensures
        r@ == "[agent-procs] Restarted (manual)"@,
{
    "[agent-procs] Restarted (manual)".to_string()
}

impl ProcessManager {
    /// Sets the restart-pending flag of the process named `name`.
    fn set_pending(&mut self, name: &str, pending: bool)
        requires
            old(self).inv(),
        ensures
            final(self).inv(),
            final(self).session() == old(self).session(),
            final(self).proxy_on() == old(self).proxy_on(),
            final(self).next_id_number() == old(self).next_id_number(),
            match target_pos(old(self).records(), name@) {
                Some(i) => final(self).records() == old(self).records().update(
                    i,
                    ManagedProcess { restart_pending: pending, ..old(self).records()[i] },
                ),
                None => final(self).records() == old(self).records(),
            },
    {
        if let Some(i) = self.find(name) {
            let ghost oldv = self.processes@;
            let mut rec = self.processes.remove(i);
            rec.restart_pending = pending;
            self.processes.insert(i, rec);
            proof {
                assert(self.processes@ =~= oldv.update(i as int, rec));
                lemma_update_keeps_unique(oldv, i as int, rec);
            }
        }
    }

    /// Clears the restart-pending flag of the process `name` names.
    pub fn clear_restart_pending(&mut self, name: &str)
        requires
            old(self).inv(),
        ensures
            final(self).inv(),
            match target_pos(old(self).records(), name@) {
                Some(i) => final(self).records() == old(self).records().update(
                    i,
                    ManagedProcess { restart_pending: false, ..old(self).records()[i] },
                ),
                None => final(self).records() == old(self).records(),
            },
    {
        self.set_pending(name, false);
    }

    /// The supervisor's periodic step: the processes out of restarts are
    /// marked failed (each with the note for its log), and those that may
    /// restart are marked pending and returned with their delay (1000 ms
    /// without a policy delay).
    pub fn schedule_restarts(&mut self) -> (r: (Vec<(String, u64)>, Vec<(String, String)>))
        requires
            old(self).inv(),
        ensures
            final(self).inv(),
            final(self).records().len() == old(self).records().len(),
            r.0@.map_values(|e: (String, u64)| e.0@) == names_where(old(self).records(), |p: ManagedProcess| restartable(p)),
            r.1@.map_values(|e: (String, String)| e.0@) == names_where(old(self).records(), |p: ManagedProcess| exhausted(p)),
            r.0@.map_values(|e: (String, u64)| (e.0@, e.1)) == restart_entries(old(self).records()),
            r.1@.map_values(|e: (String, String)| (e.0@, e.1@)) == exhausted_entries(old(self).records()),
            forall|j: int| 0 <= j < final(self).records().len() ==> {
                let p = old(self).records()[j];
                #[trigger] final(self).records()[j] == ManagedProcess {
                    failed: p.failed || exhausted(p),
                    restart_pending: p.restart_pending || restartable(p),
                    ..p
                }
            },
            final(self).session() == old(self).session(),
            final(self).proxy_on() == old(self).proxy_on(),
            final(self).next_id_number() == old(self).next_id_number(),
    {
        let ghost start = self.processes@;
        let (ok, out) = self.classify_restart_candidates();
        let mut delayed: Vec<(String, u64)> = Vec::new();
        let mut notes: Vec<(String, String)> = Vec::new();
        let mut i: usize = 0;
        while i < self.processes.len()
            invariant
                self.inv(),
                i <= self.processes@.len(),
                self.processes@.len() == start.len(),
                ok.deep_view() == names_where(start, |p: ManagedProcess| restartable(p)),
                out.deep_view() == names_where(start, |p: ManagedProcess| exhausted(p)),
                delayed@.map_values(|e: (String, u64)| e.0@) == names_where(start.take(i as int), |p: ManagedProcess| restartable(p)),
                notes@.map_values(|e: (String, String)| e.0@) == names_where(start.take(i as int), |p: ManagedProcess| exhausted(p)),
                delayed@.map_values(|e: (String, u64)| (e.0@, e.1)) == restart_entries(start.take(i as int)),
                notes@.map_values(|e: (String, String)| (e.0@, e.1@)) == exhausted_entries(start.take(i as int)),
                self.session() == old(self).session(),
                self.proxy_on() == old(self).proxy_on(),
                self.next_id_number() == old(self).next_id_number(),
                forall|j: int| 0 <= j < self.processes@.len() ==> {
                    let p = start[j];
                    let q = #[trigger] self.processes@[j];
                    &&& (j < i ==> q == ManagedProcess {
                        failed: p.failed || exhausted(p),
                        restart_pending: p.restart_pending || restartable(p),
                        ..p
                    })
                    &&& (j >= i ==> q == p)
                },
            decreases self.processes.len() - i,
        {
            let ghost p0 = start[i as int];
            proof {
                assert(start.take(i + 1).drop_last() =~= start.take(i as int));
                assert(start.take(i + 1).last() == p0);
                assert(self.processes@[i as int] == p0);
            }
            let ghost oldv = self.processes@;
            let mut rec = self.processes.remove(i);
            let wants = !rec.running && !rec.manually_stopped && !rec.restart_pending && !rec.failed && match rec.restart_policy {
                Some(policy) => policy.mode.should_restart(rec.exit_code),
                None => false,
            };
            if wants {
                let (over, max, delay) = match rec.restart_policy {
                    Some(policy) => match policy.max_restarts {
                        Some(mx) => (rec.restart_count >= mx, mx, policy.restart_delay_ms),
                        None => (false, 0, policy.restart_delay_ms),
                    },
                    None => (false, 0, 1000),
                };
                if over {
                    let ghost before = notes@;
                    notes.push((rec.name.clone(), exhausted_message(max)));
                    assert(notes@.map_values(|e: (String, String)| e.0@) =~= before.map_values(|e: (String, String)| e.0@).push(rec.name@));
                    assert(notes@.map_values(|e: (String, String)| (e.0@, e.1@)) =~= before.map_values(|e: (String, String)| (e.0@, e.1@)).push((rec.name@, exhausted_note(max))));
                    rec.failed = true;
                } else {
                    let ghost before = delayed@;
                    delayed.push((rec.name.clone(), delay));
                    assert(delayed@.map_values(|e: (String, u64)| e.0@) =~= before.map_values(|e: (String, u64)| e.0@).push(rec.name@));
                    assert(delayed@.map_values(|e: (String, u64)| (e.0@, e.1)) =~= before.map_values(|e: (String, u64)| (e.0@, e.1)).push((rec.name@, delay)));
                    rec.restart_pending = true;
                }
            }
            self.processes.insert(i, rec);
            proof {
                assert(self.processes@ =~= oldv.update(i as int, rec));
                lemma_update_keeps_unique(oldv, i as int, rec);
            }
            i = i + 1;
        }
        assert(start.take(start.len() as int) =~= start);
        (delayed, notes)
    }

    /// The first step of an automatic restart of the process `name` names:
    /// it goes ahead only while the process is exited, not stopped by hand
    /// and pending. Then its restart count goes up (saturating) and its exit
    /// code is returned; else its pending flag is cleared and `None`
    /// returned.
    pub fn begin_auto_restart(&mut self, name: &str) -> (r: Option<Option<i32>>)
        requires
            old(self).inv(),
        ensures
            final(self).inv(),
            final(self).session() == old(self).session(),
            final(self).proxy_on() == old(self).proxy_on(),
            final(self).next_id_number() == old(self).next_id_number(),
            match target_pos(old(self).records(), name@) {
                Some(i) => {
                    let p = old(self).records()[i];
                    if !p.running && !p.manually_stopped && p.restart_pending {
                        &&& r == Some(p.exit_code)
                        &&& final(self).records() == old(self).records().update(
                            i,
                            ManagedProcess {
                                restart_count: if p.restart_count < u32::MAX { (p.restart_count + 1) as u32 } else { p.restart_count },
                                ..p
                            },
                        )
                    } else {
                        &&& r is None
                        &&& final(self).records() == old(self).records().update(i, ManagedProcess { restart_pending: false, ..p })
                    }
                },
                None => r is None && final(self).records() == old(self).records(),
            },
    {
        match self.find(name) {
            None => None,
            Some(i) => {
                let ghost oldv = self.processes@;
                let mut rec = self.processes.remove(i);
                let go = !rec.running && !rec.manually_stopped && rec.restart_pending;
                let prev = rec.exit_code;
                if go {
                    rec.restart_count = rec.restart_count.saturating_add(1);
                } else {
                    rec.restart_pending = false;
                }
                self.processes.insert(i, rec);
                proof {
                    assert(self.processes@ =~= oldv.update(i as int, rec));
                    lemma_update_keeps_unique(oldv, i as int, rec);
                }
                if go { Some(prev) } else { None }
            },
        }
    }

    /// What a respawn of the process `target` names carries over: its
    /// command, name, directory, environment, port, supervision and
    /// restart state.
    pub fn respawn_spec(&self, target: &str) -> (r: Result<RestartSpec, String>)
        ensures
            match target_pos(self.records(), target@) {
                Some(i) => {
                    let p = self.records()[i];
                    r matches Ok(s) && s.command == p.command && s.name == p.name && s.cwd == p.cwd
                        && s.env@ == p.env@ && s.port == p.port && s.restart_policy == p.restart_policy
                        && same_watch(s.watch_config, p.watch_config) && s.restart_count == p.restart_count
                        && s.restart_pending == p.restart_pending
                },
                None => r matches Err(m) && m@ == "process not found: "@ + target@,
            },
    {
        match self.find(target) {
            None => {
                let mut m = String::new();
                m.append("process not found: ");
                m.append(target);
                Err(m)
            },
            Some(i) => {
                let rec = &self.processes[i];
                Ok(RestartSpec {
                    command: rec.command.clone(),
                    name: rec.name.clone(),
                    cwd: clone_opt(&rec.cwd),
                    env: clone_env(&rec.env),
                    port: rec.port,
                    restart_policy: rec.restart_policy,
                    watch_config: clone_watch(&rec.watch_config),
                    restart_count: rec.restart_count,
                    restart_pending: rec.restart_pending,
                })
            },
        }
    }

    /// The end of a respawn from `spec`, whose old record was removed: when
    /// the new process started, it takes over the supervision and restart
    /// count and is not failed; when it did not, a failed placeholder
    /// record (id `tombstone`, no child) keeps the process's place and the
    /// error is returned.
    pub fn finish_respawn(&mut self, spec: RestartSpec, spawned: Result<(), String>) -> (r: Result<(), String>)
        requires
            old(self).inv(),
            spawned is Ok ==> first_pos(old(self).records(), true, spec.name@) is Some,
            spawned is Err ==> forall|i: int| 0 <= i < old(self).records().len() ==> old(self).records()[i].name@ != spec.name@,
        ensures
            final(self).inv(),
            r == spawned,
            final(self).session() == old(self).session(),
            final(self).proxy_on() == old(self).proxy_on(),
            final(self).next_id_number() == old(self).next_id_number(),
            match spawned {
                Ok(_) => {
                    let i = first_pos(old(self).records(), true, spec.name@)->0;
                    let p = old(self).records()[i];
                    final(self).records() == old(self).records().update(
                        i,
                        ManagedProcess {
                            restart_policy: spec.restart_policy,
                            watch_config: spec.watch_config,
                            restart_count: spec.restart_count,
                            failed: false,
                            ..p
                        },
                    )
                },
                Err(_) => {
                    &&& final(self).records().len() == old(self).records().len() + 1
                    &&& final(self).records().drop_last() == old(self).records()
                    &&& final(self).records().last().name@ == spec.name@
                    &&& final(self).records().last().id@ == "tombstone"@
                    &&& !final(self).records().last().running
                    &&& final(self).records().last().failed
                    &&& final(self).records().last().restart_count == spec.restart_count
                    &&& final(self).records().last().restart_pending == spec.restart_pending
                    &&& final(self).records().last().port == spec.port
                    &&& final(self).records().last().command == spec.command
                    &&& final(self).records().last().cwd == spec.cwd
                    &&& final(self).records().last().env == spec.env
                    &&& final(self).records().last().restart_policy == spec.restart_policy
                    &&& final(self).records().last().watch_config == spec.watch_config
                    &&& !final(self).records().last().manually_stopped
                    &&& final(self).records().last().exit_code is None
                },
            },
    {
        match spawned {
            Ok(u) => {
                match find_first(&self.processes, true, spec.name.as_str()) {
                    Some(i) => {
                        let ghost oldv = self.processes@;
                        let mut rec = self.processes.remove(i);
                        rec.restart_policy = spec.restart_policy;
                        rec.watch_config = spec.watch_config;
                        rec.restart_count = spec.restart_count;
                        rec.failed = false;
                        self.processes.insert(i, rec);
                        proof {
                            assert(self.processes@ =~= oldv.update(i as int, rec));
                            lemma_update_keeps_unique(oldv, i as int, rec);
                        }
                    },
                    None => {},
                }
                Ok(u)
            },
            Err(message) => {
                let ghost old_ps = self.processes@;
                let ghost nm = spec.name@;
                let rec = ManagedProcess {
                    name: spec.name,
                    id: "tombstone".to_string(),
                    command: spec.command,
                    cwd: spec.cwd,
                    env: spec.env,
                    running: false,
                    pid: 0,
                    started_at_ms: 0,
                    exit_code: None,
                    port: spec.port,
                    restart_policy: spec.restart_policy,
                    watch_config: spec.watch_config,
                    restart_count: spec.restart_count,
                    manually_stopped: false,
                    restart_pending: spec.restart_pending,
                    failed: true,
                };
                self.processes.push(rec);
                proof {
                    assert forall|a: int, b: int| 0 <= a < b < self.processes@.len() implies #[trigger] self.processes@[a].name@
                        != #[trigger] self.processes@[b].name@ by {
                        assert(self.processes@[a] == old_ps[a]);
                        if b < old_ps.len() {
                            assert(self.processes@[b] == old_ps[b]);
                        } else {
                            assert(old(self).records()[a].name@ != nm);
                        }
                    }
                    assert(self.processes@.drop_last() =~= old_ps);
                }
                Err(message)
            },
        }
    }

    /// Whether a change to the watched files of the process `name` names
    /// restarts it: it exists and was not stopped by hand.
    pub fn watch_restart_allowed(&self, name: &str) -> (r: bool)
        ensures
            r == match target_pos(self.records(), name@) {
                Some(i) => !self.records()[i].manually_stopped,
                None => false,
            },
    {
        match self.find(name) {
            Some(i) => !self.processes[i].manually_stopped,
            None => false,
        }
    }

    /// Prepares a restart on a file change, after the child was stopped:
    /// the stop does not count as one by hand, and the restart count and
    /// failure are reset (such restarts are intended).
    pub fn reset_for_watch_restart(&mut self, name: &str)
        requires
            old(self).inv(),
        ensures
            final(self).inv(),
            match target_pos(old(self).records(), name@) {
                Some(i) => {
                    let p = old(self).records()[i];
                    final(self).records() == old(self).records().update(i, with_flags(p, false, 0, false, p.restart_pending))
                },
                None => final(self).records() == old(self).records(),
            },
    {
        if let Some(i) = self.find(name) {
            let ghost oldv = self.processes@;
            let mut rec = self.processes.remove(i);
            rec.manually_stopped = false;
            rec.restart_count = 0;
            rec.failed = false;
            self.processes.insert(i, rec);
            proof {
                assert(self.processes@ =~= oldv.update(i as int, rec));
                lemma_update_keeps_unique(oldv, i as int, rec);
            }
        }
    }
}

/// The running processes' ports, as the proxy reads them.
pub struct ProxyState {
    /// Running process name and its backend port.
    pub port_map: Vec<(String, u16)>,
}

/// Gives the answer to a spawn of a process with a port the URL behind
/// the proxy on `proxy_port`; any other response is left as it is.
pub fn proxied_run_ok(resp: Response, proxy_port: Option<u16>) -> (r: Response)
    ensures
        match (resp, proxy_port) {
            (Response::RunOk { name, id, pid, port: Some(p), url: _ }, Some(pp)) =>
                r matches Response::RunOk { name: n2, id: i2, pid: p2, port: q2, url: Some(u) }
                && n2 == name && i2 == id && p2 == pid && q2 == Some(p)
                && u@ == process_url_spec(name@, p, Some(pp)),
            _ => r == resp,
        },
{
    match (resp, proxy_port) {
        (Response::RunOk { name, id, pid, port: Some(p), url: _ }, Some(pp)) => {
            let u = process_url(name.as_str(), p, Some(pp));
            Response::RunOk { name, id, pid, port: Some(p), url: Some(u) }
        },
        (other, _) => other,
    }
}

/// Rewrites the URL of every process with a port in a status response to
/// its form behind the proxy on `proxy_port`.
pub fn rewrite_urls(resp: Response, proxy_port: Option<u16>) -> (r: Response)
    ensures
        match (resp, proxy_port) {
            (Response::Status { processes }, Some(pp)) => r matches Response::Status { processes: out }
                && out@.len() == processes@.len()
                && forall|k: int| 0 <= k < out@.len() ==> {
                    let a = processes@[k];
                    let b = #[trigger] out@[k];
                    &&& b.name == a.name
                    &&& b.port == a.port
                    &&& b.state == a.state
                    &&& opt_str(b.url) == match a.port {
                        Some(port) => Some(process_url_spec(a.name@, port, Some(pp))),
                        None => opt_str(a.url),
                    }
                },
            _ => r == resp,
        },
{
    match (resp, proxy_port) {
        (Response::Status { processes }, Some(pp)) => {
            let mut out: Vec<ProcessInfo> = Vec::new();
            let ghost src = processes@;
            let mut rest = processes;
            let mut k: usize = 0;
            let total: usize = rest.len();
            assert(src.skip(0) =~= src);
            while rest.len() > 0
                invariant
                    rest@.len() + k == src.len(),
                    src.len() == total,
                    rest@ == src.skip(k as int),
                    out@.len() == k,
                    forall|t: int| 0 <= t < k ==> {
                        let a = src[t];
                        let b = #[trigger] out@[t];
                        &&& b.name == a.name
                        &&& b.port == a.port
                        &&& b.state == a.state
                        &&& opt_str(b.url) == match a.port {
                            Some(port) => Some(process_url_spec(a.name@, port, Some(pp))),
                            None => opt_str(a.url),
                        }
                    },
                decreases rest.len(),
            {
                let ghost before = out@;
                let ghost r0 = rest@;
                let mut p = rest.remove(0);
                proof {
                    assert(p == src[k as int]);
                    assert(rest@ =~= src.skip(k + 1));
                }
                if let Some(port) = p.port {
                    p.url = Some(process_url(p.name.as_str(), port, Some(pp)));
                }
                out.push(p);
                proof {
                    assert forall|t: int| 0 <= t < k + 1 implies {
                        let a = src[t];
                        let b = #[trigger] out@[t];
                        &&& b.name == a.name
                        &&& b.port == a.port
                        &&& b.state == a.state
                        &&& opt_str(b.url) == match a.port {
                            Some(port) => Some(process_url_spec(a.name@, port, Some(pp))),
                            None => opt_str(a.url),
                        }
                    } by {
                        if t < k {
                            assert(out@[t] == before[t]);
                        }
                    }
                }
                k = k + 1;
            }
            Response::Status { processes: out }
        },
        (other, _) => other,
    }
}

} // verus!
