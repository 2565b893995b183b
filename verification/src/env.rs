//! Where the databases are, and the wait for them at start.

use vstd::prelude::*;

use crate::db::text_view;
use crate::text::{owned, parse_u64, parsed_u64, str_eq};

verus! {

/// The number of the state database.
pub const STATE_DB: i32 = 6;

/// The number of the configuration database.
pub const CONFIG_DB: i32 = 4;

/// The number of the application database.
pub const APPL_DB: i32 = 0;

/// How often the read path of the state database is probed at most.
pub const DEFAULT_WARM_ATTEMPTS: u64 = 100;

/// How long to wait between two probes, in milliseconds.
pub const WARM_RETRY_MS: u64 = 300;

/// The socket of the databases: the one that is set, or the usual one.
pub fn redis_sock(set: Option<String>) -> (r: String)
    ensures
        r@ == (match text_view(set) {
            Some(s) => s,
            None => "/var/run/redis/redis.sock"@,
        }),
{
    match set {
        Some(s) => s,
        None => owned("/var/run/redis/redis.sock"),
    }
}

/// How often to probe: the positive number that is set, or the default.
pub fn warm_attempts(set: &Option<String>) -> (n: u64)
    ensures
        n > 0,
        n == (match text_view(*set) {
            Some(s) => match parsed_u64(s) {
                Some(n) if n > 0 => n,
                _ => DEFAULT_WARM_ATTEMPTS,
            },
            None => DEFAULT_WARM_ATTEMPTS,
        }),
{
    match set {
        Some(s) => match parse_u64(s.as_str()) {
            Some(n) => if n > 0 {
                n
            } else {
                DEFAULT_WARM_ATTEMPTS
            },
            None => DEFAULT_WARM_ATTEMPTS,
        },
        None => DEFAULT_WARM_ATTEMPTS,
    }
}

/// What follows a probe.
#[derive(Clone, Copy, Debug, PartialEq, Eq, Structural)]
pub enum ProbeNext {
    /// The database can be read.
    Ready,
    /// Wait and probe again.
    Again,
    /// The probes are used up.
    GiveUp,
}

/// What to do after a probe.
pub struct ProbeStep {
    pub next: ProbeNext,
    /// Whether the failure is to be logged: it differs from the one before.
    pub log: bool,
    /// Whether the surroundings are to be logged: it is the first failure.
    pub snapshot: bool,
    /// The last failure.
    pub last_err: Option<String>,
}

/// What to do after probe `attempt` of `attempts`, the first being 1. `last_err`
/// is the failure of the probe before.
pub fn after_probe(
    attempt: u64,
    attempts: u64,
    failure: Option<String>,
    last_err: Option<String>,
) -> (r: ProbeStep)
    ensures
        failure is None ==> r.next is Ready && !r.log && !r.snapshot && text_view(r.last_err)
            == text_view(last_err),
        failure is Some ==> {
            &&& r.next == (if attempt == attempts {
                ProbeNext::GiveUp
            } else {
                ProbeNext::Again
            })
            &&& r.log == (text_view(failure) != text_view(last_err))
            &&& r.snapshot == (r.log && attempt == 1)
            &&& text_view(r.last_err) == text_view(failure)
        },
{
    match failure {
        None => ProbeStep { next: ProbeNext::Ready, log: false, snapshot: false, last_err },
        Some(msg) => {
            let log = match &last_err {
                Some(l) => !str_eq(l.as_str(), msg.as_str()),
                None => true,
            };
            ProbeStep {
                next: if attempt == attempts {
                    ProbeNext::GiveUp
                } else {
                    ProbeNext::Again
                },
                log,
                snapshot: log && attempt == 1,
                last_err: Some(msg),
            }
        },
    }
}

} // verus!
