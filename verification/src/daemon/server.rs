//! The daemon's answers that need no process table: limits on
//! connections and message sizes, requests it answers by itself, and the
//! filter of `logs --follow` streams.

use vstd::prelude::*;
use crate::protocol::{ErrorCode, MAX_MESSAGE_SIZE, PROTOCOL_VERSION, Request, Response};
use crate::text::{decimal, push_decimal, str_eq};

verus! {

broadcast use vstd::string::group_string_axioms;

/// Most client connections served at once.
pub const MAX_CONCURRENT_CONNECTIONS: usize = 64;

/// Whether a new connection is served when `active` others are.
pub fn admit_connection(active: usize) -> (r: bool)
    ensures
        r == (active < MAX_CONCURRENT_CONNECTIONS),
{
    active < MAX_CONCURRENT_CONNECTIONS
}

/// Whether a request line of `n` bytes is too large (the client is then
/// answered and disconnected).
pub fn is_too_large(n: usize) -> (r: bool)
    ensures
        r == (n >= MAX_MESSAGE_SIZE),
{
    n >= MAX_MESSAGE_SIZE
}

/// The answer to a request line of `n` bytes that is too large.
pub fn too_large_response(n: usize) -> (r: Response)
    ensures
        r matches Response::Error { code: ErrorCode::General, message: m }
            && m@ == "message too large: "@ + decimal(n as nat) + " bytes (max "@ + decimal(MAX_MESSAGE_SIZE as nat) + ")"@,
{
    let mut m = String::new();
    m.append("message too large: ");
    push_decimal(&mut m, n as u64);
    m.append(" bytes (max ");
    push_decimal(&mut m, MAX_MESSAGE_SIZE as u64);
    m.append(")");
    Response::Error { code: ErrorCode::General, message: m }
}

/// The answer to a line that is not a request, with the parser's message.
pub fn invalid_request_response(err: &str) -> (r: Response)
    ensures
        r matches Response::Error { code: ErrorCode::General, message: m } && m@ == "invalid request: "@ + err@,
{
    let mut m = String::new();
    m.append("invalid request: ");
    m.append(err);
    Response::Error { code: ErrorCode::General, message: m }
}

/// The answer to a request about a process that does not exist.
pub fn not_found_response(target: &str) -> (r: Response)
    ensures
        r matches Response::Error { code: ErrorCode::NotFound, message: m } && m@ == "process not found: "@ + target@,
{
    let mut m = String::new();
    m.append("process not found: ");
    m.append(target);
    Response::Error { code: ErrorCode::NotFound, message: m }
}

/// The requests the daemon answers without its process table: logs
/// (which the client reads from disk, or which stream), the version
/// handshake, and requests of unknown type.
pub open spec fn immediate_answer(req: Request) -> Option<(bool, Seq<char>, u32)> {
    match req {
        Request::Logs { follow, .. } => if follow {
            Some((true, "follow requests handled in connection loop"@, 0u32))
        } else {
            Some((true, "non-follow logs are read directly from disk by CLI"@, 0u32))
        },
        Request::Hello { .. } => Some((false, Seq::empty(), PROTOCOL_VERSION)),
        Request::Unknown => Some((true, "unknown request type"@, 0u32)),
        _ => None,
    }
}

/// The answer to a request the daemon answers by itself: an error for
/// logs requests and unknown types, its protocol version for a handshake;
/// `None` for every other request.
pub fn immediate_response(req: &Request) -> (r: Option<Response>)
    ensures
        match immediate_answer(*req) {
            None => r is None,
            Some((true, msg, _)) => r matches Some(Response::Error { code: ErrorCode::General, message: m }) && m@ == msg,
            Some((false, _, v)) => r == Some(Response::Hello { version: v }),
        },
{
    match req {
        Request::Logs { follow, .. } => {
            let msg = if *follow {
                "follow requests handled in connection loop"
            } else {
                "non-follow logs are read directly from disk by CLI"
            };
            Some(Response::Error { code: ErrorCode::General, message: msg.to_string() })
        },
        Request::Hello { .. } => Some(Response::Hello { version: PROTOCOL_VERSION }),
        Request::Unknown => Some(Response::Error { code: ErrorCode::General, message: "unknown request type".to_string() }),
        _ => None,
    }
}

/// The answer to a shutdown, once every process was stopped.
pub fn shutdown_response() -> (r: Response)
    ensures
        r matches Response::Success { message: m } && m@ == "daemon shutting down"@,
{
    Response::Success { message: "daemon shutting down".to_string() }
}

/// The answer to a request to turn the proxy on: already listening on
/// `existing`, or now listening on `port`.
pub fn proxy_enabled_response(existing: Option<u16>, port: u16) -> (r: Response)
    ensures
        r matches Response::Success { message: m } && m@ == match existing {
            Some(e) => "Proxy already listening on http://localhost:"@ + decimal(e as nat),
            None => "Proxy listening on http://localhost:"@ + decimal(port as nat),
        },
{
    let mut m = String::new();
    match existing {
        Some(e) => {
            m.append("Proxy already listening on http://localhost:");
            push_decimal(&mut m, e as u64);
        },
        None => {
            m.append("Proxy listening on http://localhost:");
            push_decimal(&mut m, port as u64);
        },
    }
    Response::Success { message: m }
}

/// Whether a `logs --follow` stream passes on a line of `process`: every
/// line with `--all` or without a target, else the target's lines.
pub fn follow_wants(target: &Option<String>, all: bool, process: &str) -> (r: bool)
    ensures
        r == (all || match target {
            Some(t) => t@ == process@,
            None => true,
        }),
{
    if all {
        return true;
    }
    match target {
        Some(t) => str_eq(t.as_str(), process),
        None => true,
    }
}

/// Whether a follow stream that has sent `sent` lines is done under the
/// limit `max_lines`.
pub fn follow_done(sent: usize, max_lines: Option<usize>) -> (r: bool)
    ensures
        r == match max_lines {
            Some(m) => sent >= m,
            None => false,
        },
{
    match max_lines {
        Some(m) => sent >= m,
        None => false,
    }
}

} // verus!
