//! Upload rate limiting: a counter per client key in a shared store that
//! expires an hour after its first hit. Talking to the store is left to the
//! caller; this is what the counts mean.
use vstd::prelude::*;
use vstd::string::*;

verus! {

/// How long a client's counter lives after its first hit.
pub const WINDOW_SECONDS: u64 = 3600;

/// The store key of a client's counter.
pub fn counter_key(key: &str) -> (r: String)
    ensures
        r@ == "rl:"@ + key@,
{
    let mut k = String::from_str("rl:");
    k.append(key);
    k
}

/// What to do with the count the store answered after an increment.
#[derive(Debug, Clone, Copy, PartialEq, Eq, Structural)]
pub struct RateDecision {
    /// The request may proceed.
    pub allowed: bool,
    /// The counter was just created and must be given its lifetime.
    pub start_window: bool,
}

/// The decision on a count: allowed while the count is within the limit;
/// the first hit starts the window. A store that cannot be reached lets
/// every request through.
pub fn decide(count: Option<u32>, limit: u32) -> (r: RateDecision)
    ensures
        r == (match count {
            Some(n) => RateDecision { allowed: n <= limit, start_window: n == 1 },
            None => RateDecision { allowed: true, start_window: false },
        }),
{
    match count {
        Some(n) => RateDecision { allowed: n <= limit, start_window: n == 1 },
        None => RateDecision { allowed: true, start_window: false },
    }
}

} // verus!
