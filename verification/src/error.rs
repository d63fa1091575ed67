//! Error types of the library, each with the message that it shows.

use vstd::prelude::*;
use crate::text::{decimal, push_decimal};

verus! {

broadcast use vstd::string::group_string_axioms;

/// Errors from configuration file parsing and dependency resolution.
///
/// The variants that report a failure of the file system or of the YAML
/// parser carry that failure's message.
#[derive(Debug)]
pub enum ConfigError {
    NotFound,
    Cwd(String),
    Read(String),
    Parse(String),
    CycleDetected,
    UnknownDep { from: String, to: String },
}

/// Errors from the reverse proxy subsystem.
#[derive(Debug, PartialEq)]
pub enum ProxyError {
    PortUnavailable { port: u16, reason: String },
    NoFreePort { min: u16, max: u16 },
    NoFreeAutoPort { min: u16, max: u16, start: u16 },
}

/// The message of a [`ConfigError`].
pub open spec fn config_error_message(e: ConfigError) -> Seq<char> {
    match e {
        ConfigError::NotFound => "no agent-procs.yaml found"@,
        ConfigError::Cwd(m) => "cannot get cwd: "@ + m@,
        ConfigError::Read(m) => "cannot read config: "@ + m@,
        ConfigError::Parse(m) => "invalid config: "@ + m@,
        ConfigError::CycleDetected => "dependency cycle detected"@,
        ConfigError::UnknownDep { from, to } => "unknown dependency: "@ + from@ + " depends on "@
            + to@,
    }
}

/// The message of a [`ProxyError`].
pub open spec fn proxy_error_message(e: ProxyError) -> Seq<char> {
    match e {
        ProxyError::PortUnavailable { port, reason } => "requested proxy port "@ + decimal(
            port as nat,
        ) + " is not available: "@ + reason@,
        ProxyError::NoFreePort { min, max } => "no free proxy port available in range "@
            + decimal(min as nat) + "-"@ + decimal(max as nat),
        ProxyError::NoFreeAutoPort { min, max, start } => "no free port available in range "@
            + decimal(min as nat) + "-"@ + decimal(max as nat) + " (started at "@ + decimal(
            start as nat,
        ) + ")"@,
    }
}

impl ConfigError {
    /// The message shown for this error.
    pub fn message(&self) -> (r: String)
        ensures
            r@ == config_error_message(*self),
    {
        let mut s = String::new();
        match self {
            ConfigError::NotFound => {
                s.append("no agent-procs.yaml found");
            },
            ConfigError::Cwd(m) => {
                s.append("cannot get cwd: ");
                s.append(m.as_str());
            },
            ConfigError::Read(m) => {
                s.append("cannot read config: ");
                s.append(m.as_str());
            },
            ConfigError::Parse(m) => {
                s.append("invalid config: ");
                s.append(m.as_str());
            },
            ConfigError::CycleDetected => {
                s.append("dependency cycle detected");
            },
            ConfigError::UnknownDep { from, to } => {
                s.append("unknown dependency: ");
                s.append(from.as_str());
                s.append(" depends on ");
                s.append(to.as_str());
            },
        }
        assert(s@ =~= config_error_message(*self));
        s
    }
}

impl ProxyError {
    /// The message shown for this error.
    pub fn message(&self) -> (r: String)
        ensures
            r@ == proxy_error_message(*self),
    {
        let mut s = String::new();
        match self {
            ProxyError::PortUnavailable { port, reason } => {
                s.append("requested proxy port ");
                push_decimal(&mut s, *port as u64);
                s.append(" is not available: ");
                s.append(reason.as_str());
            },
            ProxyError::NoFreePort { min, max } => {
                s.append("no free proxy port available in range ");
                push_decimal(&mut s, *min as u64);
                s.append("-");
                push_decimal(&mut s, *max as u64);
            },
            ProxyError::NoFreeAutoPort { min, max, start } => {
                s.append("no free port available in range ");
                push_decimal(&mut s, *min as u64);
                s.append("-");
                push_decimal(&mut s, *max as u64);
                s.append(" (started at ");
                push_decimal(&mut s, *start as u64);
                s.append(")");
            },
        }
        assert(s@ =~= proxy_error_message(*self));
        s
    }
}

} // verus!
