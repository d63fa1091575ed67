//! Routing of the reverse proxy: which process a request is for.

use vstd::prelude::*;
use crate::text::{chars_of, decimal, find_char, first_index_of, last_index_of, push_decimal, rfind_char};
use crate::keyed::{find_key, key_value};
use crate::protocol::{ProcessInfo, ProcessState, state_label};
use crate::error::ProxyError;

verus! {

broadcast use vstd::string::group_string_axioms;

/// The host name of a `Host` header value: everything before the first
/// `:` (the port), or the whole value.
pub open spec fn host_name(host: Seq<char>) -> Seq<char> {
    match first_index_of(host, ':') {
        Some(i) => host.subrange(0, i),
        None => host,
    }
}

/// The subdomain that a `Host` header routes to: the label just before a
/// final `localhost` label, if the host name ends in one and has more
/// than one label.
pub open spec fn subdomain_of(host: Seq<char>) -> Option<Seq<char>> {
    let h = host_name(host);
    match last_index_of(h, '.') {
        None => None,
        Some(d) => if h.subrange(d + 1, h.len() as int) != "localhost"@ {
            None
        } else {
            match last_index_of(h.subrange(0, d), '.') {
                Some(p) => Some(h.subrange(p + 1, d)),
                None => Some(h.subrange(0, d)),
            }
        },
    }
}

/// Extracts the subdomain from a `Host` header value.
///
/// `"api.localhost:9090"` gives `api`, `"tenant.api.localhost:9090"` gives
/// `api`, `"api.localhost"` gives `api`, and `"localhost:9090"` gives
/// nothing.
pub fn extract_subdomain(host: &str) -> (r: Option<String>)
    ensures
        match subdomain_of(host@) {
            Some(s) => r matches Some(x) && x@ == s,
            None => r is None,
        },
{
    let cs = chars_of(host);
    let hn: usize = match find_char(cs.as_slice(), ':') {
        Some(i) => i,
        None => cs.len(),
    };
    let ghost h = host_name(host@);
    assert(h =~= cs@.subrange(0, hn as int));
    let d = match rfind_char(cs.as_slice(), hn, '.') {
        Some(d) => d,
        None => {
            return None;
        },
    };
    let tail = crate::text::substring(host, d + 1, hn);
    assert(tail@ =~= h.subrange(d + 1, h.len() as int));
    if !crate::text::str_eq(tail.as_str(), "localhost") {
        return None;
    }
    assert(h.subrange(0, d as int) =~= cs@.subrange(0, d as int));
    match rfind_char(cs.as_slice(), d, '.') {
        Some(p) => {
            let r = crate::text::substring(host, p + 1, d);
            assert(r@ =~= h.subrange(p + 1, d as int));
            Some(r)
        },
        None => {
            let r = crate::text::substring(host, 0, d);
            assert(r@ =~= h.subrange(0, d as int));
            Some(r)
        },
    }
}

/// The lowest port the proxy listens on when none is asked for.
pub const PROXY_PORT_MIN: u16 = 9090;
/// The highest such port.
pub const PROXY_PORT_MAX: u16 = 9190;

/// The error when no port could be bound for the proxy: the port asked
/// for is unavailable (for `reason`), or the whole range is taken.
pub fn bind_failure(explicit: Option<u16>, reason: String) -> (r: ProxyError)
    ensures
        match explicit {
            Some(p) => r == ProxyError::PortUnavailable { port: p, reason },
            None => r == ProxyError::NoFreePort { min: PROXY_PORT_MIN, max: PROXY_PORT_MAX },
        },
{
    match explicit {
        Some(p) => ProxyError::PortUnavailable { port: p, reason },
        None => ProxyError::NoFreePort { min: PROXY_PORT_MIN, max: PROXY_PORT_MAX },
    }
}

/// The ports to try, in order, for the proxy: the one asked for alone,
/// else the range from 9090 to 9190.
pub open spec fn proxy_candidates(explicit: Option<u16>) -> Seq<u16> {
    match explicit {
        Some(p) => seq![p],
        None => Seq::new((PROXY_PORT_MAX - PROXY_PORT_MIN + 1) as nat, |i: int| (PROXY_PORT_MIN + i) as u16),
    }
}

/// Whether `try_bind` took port `p`.
pub open spec fn bind_taken<F: Fn(u16) -> Result<(), String>>(try_bind: F, p: u16) -> bool {
    exists|v: Result<(), String>| v is Ok && #[trigger] try_bind.ensures((p,), v)
}

/// Whether `try_bind` refused port `p` (with some reason).
pub open spec fn bind_refused<F: Fn(u16) -> Result<(), String>>(try_bind: F, p: u16) -> bool {
    exists|e: String| #[trigger] try_bind.ensures((p,), Err::<(), String>(e))
}

/// The ports to try, in order, for the proxy: the one asked for alone,
/// else the range from 9090 to 9190.
pub fn proxy_port_candidates(explicit: Option<u16>) -> (r: Vec<u16>)
    ensures
        r@ == proxy_candidates(explicit),
        match explicit {
            Some(p) => r@ == seq![p],
            None => r@.len() == PROXY_PORT_MAX - PROXY_PORT_MIN + 1
                && forall|i: int| 0 <= i < r@.len() ==> #[trigger] r@[i] == PROXY_PORT_MIN + i,
        },
{
    match explicit {
        Some(p) => {
            let v = vec![p];
            assert(v@ =~= seq![p]);
            v
        },
        None => {
            let mut v: Vec<u16> = Vec::new();
            let mut port: u16 = PROXY_PORT_MIN;
            while port <= PROXY_PORT_MAX
                invariant
                    PROXY_PORT_MIN <= port <= PROXY_PORT_MAX + 1,
                    v@.len() == port - PROXY_PORT_MIN,
                    forall|i: int| 0 <= i < v@.len() ==> #[trigger] v@[i] == PROXY_PORT_MIN + i,
                decreases PROXY_PORT_MAX + 1 - port,
            {
                v.push(port);
                port = port + 1;
            }
            assert(v@ =~= proxy_candidates(explicit));
            v
        },
    }
}

/// Finds the port the proxy listens on: the candidates are offered in
/// order to `try_bind` (which binds the port and keeps what it bound, or
/// gives the reason it could not) until one is taken. Where none is, the
/// error names the port asked for and the last reason, or the range.
pub fn choose_proxy_port<F: Fn(u16) -> Result<(), String>>(explicit: Option<u16>, try_bind: F) -> (r: Result<
    u16,
    ProxyError,
>)
    requires
        forall|p: u16| #[trigger] try_bind.requires((p,)),
    ensures
        match r {
            Ok(p) => exists|k: int| {
                &&& 0 <= k < proxy_candidates(explicit).len()
                &&& proxy_candidates(explicit)[k] == p
                &&& bind_taken(try_bind, p)
                &&& forall|i: int| 0 <= i < k ==> bind_refused(try_bind, #[trigger] proxy_candidates(explicit)[i])
            },
            Err(e) => {
                &&& forall|i: int| 0 <= i < proxy_candidates(explicit).len() ==> bind_refused(
                    try_bind,
                    #[trigger] proxy_candidates(explicit)[i],
                )
                &&& match explicit {
                    Some(p) => e matches ProxyError::PortUnavailable { port, reason } && port == p
                        && try_bind.ensures((p,), Err::<(), String>(reason)),
                    None => e == ProxyError::NoFreePort { min: PROXY_PORT_MIN, max: PROXY_PORT_MAX },
                }
            },
        },
{
    let candidates = proxy_port_candidates(explicit);
    let mut last_reason = String::new();
    let mut i: usize = 0;
    while i < candidates.len()
        invariant
            candidates@ == proxy_candidates(explicit),
            i <= candidates@.len(),
            forall|p: u16| #[trigger] try_bind.requires((p,)),
            forall|j: int| 0 <= j < i ==> bind_refused(try_bind, #[trigger] candidates@[j]),
            i > 0 ==> try_bind.ensures((candidates@[i - 1],), Err::<(), String>(last_reason)),
        decreases candidates.len() - i,
    {
        let p = candidates[i];
        let res = try_bind(p);
        match res {
            Ok(()) => {
                let ghost k = i as int;
                assert(bind_taken(try_bind, p));
                assert(proxy_candidates(explicit)[k] == p);
                assert(forall|j: int| 0 <= j < k ==> bind_refused(try_bind, #[trigger] proxy_candidates(explicit)[j]));
                return Ok(p);
            },
            Err(reason) => {
                assert(bind_refused(try_bind, p));
                last_reason = reason;
            },
        }
        i = i + 1;
    }
    Err(bind_failure(explicit, last_reason))
}

/// Where the proxy sends a request.
#[derive(Debug, Clone, PartialEq)]
pub enum ProxyRoute {
    /// No subdomain: the page that lists the routes.
    StatusPage,
    /// To the running process of that name, on its port.
    Forward { process: String, port: u16 },
    /// No running process of that name has a port: a 502 with this text.
    NoBackend { message: String },
}

/// Routes a request by its `Host` header: a subdomain names the process,
/// looked up among the running processes with ports.
pub fn route_request(host: &str, port_map: &Vec<(String, u16)>, proxy_port: u16) -> (r: ProxyRoute)
    ensures
        match subdomain_of(host@) {
            None => r == ProxyRoute::StatusPage,
            Some(s) => match key_value(port_map@, s) {
                Some(port) => r matches ProxyRoute::Forward { process, port: p } && process@ == s && p == port,
                None => r matches ProxyRoute::NoBackend { message } && message@ == "502 Bad Gateway: no running process named '"@
                    + s + "' with a port. Visit http://localhost:"@ + decimal(proxy_port as nat)
                    + " to see available routes."@,
            },
        },
{
    match extract_subdomain(host) {
        None => ProxyRoute::StatusPage,
        Some(name) => match find_key(port_map, name.as_str()) {
            Some(i) => ProxyRoute::Forward { process: name, port: port_map[i].1 },
            None => {
                let mut m = String::new();
                m.append("502 Bad Gateway: no running process named '");
                m.append(name.as_str());
                m.append("' with a port. Visit http://localhost:");
                push_decimal(&mut m, proxy_port as u64);
                m.append(" to see available routes.");
                ProxyRoute::NoBackend { message: m }
            },
        },
    }
}

/// The URI a request for `path_and_query` is forwarded to.
pub fn backend_uri(port: u16, path_and_query: &str) -> (r: String)
    ensures
        r@ == "http://127.0.0.1:"@ + decimal(port as nat) + path_and_query@,
{
    let mut s = String::new();
    s.append("http://127.0.0.1:");
    push_decimal(&mut s, port as u64);
    s.append(path_and_query);
    s
}

/// The `Host` header of a forwarded request.
pub fn backend_host(port: u16) -> (r: String)
    ensures
        r@ == "127.0.0.1:"@ + decimal(port as nat),
{
    let mut s = String::new();
    s.append("127.0.0.1:");
    push_decimal(&mut s, port as u64);
    s
}

/// The text of the 502 answered when the backend cannot be reached.
pub fn connect_failed_message(process: &str, port: u16, err: &str) -> (r: String)
    ensures
        r@ == "502 Bad Gateway: failed to connect to backend '"@ + process@ + "' on port "@ + decimal(port as nat)
            + ": "@ + err@,
{
    let mut s = String::new();
    s.append("502 Bad Gateway: failed to connect to backend '");
    s.append(process);
    s.append("' on port ");
    push_decimal(&mut s, port as u64);
    s.append(": ");
    s.append(err);
    s
}

/// The line of one process on the status page.
pub open spec fn route_line(p: ProcessInfo, proxy_port: u16) -> Seq<char> {
    match p.port {
        Some(port) => "  http://"@ + p.name@ + ".localhost:"@ + decimal(proxy_port as nat) + " -> 127.0.0.1:"@
            + decimal(port as nat) + " ["@ + state_label(p.state) + "]\n"@,
        None => "  "@ + p.name@ + " (no port) ["@ + state_label(p.state) + "]\n"@,
    }
}

/// The route lines of the first `n` processes.
pub open spec fn route_lines(ps: Seq<ProcessInfo>, proxy_port: u16, n: int) -> Seq<char>
    decreases n,
{
    if n <= 0 { Seq::empty() } else { route_lines(ps, proxy_port, n - 1) + route_line(ps[n - 1], proxy_port) }
}

/// The page that lists the routes.
pub open spec fn status_page_text(ps: Seq<ProcessInfo>, proxy_port: u16) -> Seq<char> {
    "agent-procs proxy on port "@ + decimal(proxy_port as nat) + "\n\n"@ + if ps.len() == 0 {
        "No processes running.\n"@
    } else {
        "Routes:\n"@ + route_lines(ps, proxy_port, ps.len() as int)
    }
}

fn state_text(s: ProcessState) -> (r: &'static str)
    ensures
        r@ == state_label(s),
{
    match s {
        ProcessState::Running => "running",
        ProcessState::Exited => "exited",
        ProcessState::Failed => "FAILED",
        ProcessState::Unknown => "unknown",
    }
}

/// The plain-text page that lists the routes of the proxy on
/// `proxy_port`.
pub fn status_page_body(ps: &Vec<ProcessInfo>, proxy_port: u16) -> (r: String)
    ensures
        r@ == status_page_text(ps@, proxy_port),
{
    let mut body = String::new();
    body.append("agent-procs proxy on port ");
    push_decimal(&mut body, proxy_port as u64);
    body.append("\n\n");
    let ghost head = body@;
    if ps.len() == 0 {
        body.append("No processes running.\n");
    } else {
        body.append("Routes:\n");
        let ghost h2 = body@;
        let mut i: usize = 0;
        while i < ps.len()
            invariant
                i <= ps@.len(),
                body@ == h2 + route_lines(ps@, proxy_port, i as int),
            decreases ps.len() - i,
        {
            let p = &ps[i];
            match p.port {
                Some(port) => {
                    body.append("  http://");
                    body.append(p.name.as_str());
                    body.append(".localhost:");
                    push_decimal(&mut body, proxy_port as u64);
                    body.append(" -> 127.0.0.1:");
                    push_decimal(&mut body, port as u64);
                    body.append(" [");
                    body.append(state_text(p.state));
                    body.append("]\n");
                },
                None => {
                    body.append("  ");
                    body.append(p.name.as_str());
                    body.append(" (no port) [");
                    body.append(state_text(p.state));
                    body.append("]\n");
                },
            }
            assert(body@ =~= h2 + route_lines(ps@, proxy_port, i + 1));
            i = i + 1;
        }
    }
    assert(body@ =~= status_page_text(ps@, proxy_port));
    body
}

} // verus!
