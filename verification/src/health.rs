//! Health checks of the service's dependencies: how an answer of the
//! database or the cache store is judged and reported, and how the checks
//! add up.
use vstd::prelude::*;
use vstd::string::*;

verus! {

/// The outcome of one health check.
#[derive(Debug, Clone)]
pub struct CheckOutcome {
    pub healthy: bool,
    pub message: Option<String>,
    pub response_time_ms: u64,
}

/// The message is present and reads `text`.
pub open spec fn says(message: Option<String>, text: Seq<char>) -> bool {
    message matches Some(m) && m@ == text
}

fn concat(a: &str, b: &str) -> (r: String)
    ensures
        r@ == a@ + b@,
{
    let mut s = a.to_string();
    s.append(b);
    s
}

/// The database check: a query that went through is healthy.
pub fn database_outcome(reply: Result<(), String>, response_time_ms: u64) -> (r: CheckOutcome)
    ensures
        r.response_time_ms == response_time_ms,
        match reply {
            Ok(()) => r.healthy && says(r.message, "Database connection successful"@),
            Err(e) => !r.healthy && says(r.message, "Database connection failed: "@ + e@),
        },
{
    match reply {
        Ok(()) => CheckOutcome {
            healthy: true,
            message: Some(String::from_str("Database connection successful")),
            response_time_ms,
        },
        Err(e) => CheckOutcome {
            healthy: false,
            message: Some(concat("Database connection failed: ", e.as_str())),
            response_time_ms,
        },
    }
}

/// How a ping of the cache store went.
#[derive(Debug, Clone)]
pub enum PingReply {
    /// No connection could be made.
    ConnectionFailed { error: String },
    /// The ping failed.
    PingFailed { error: String },
    /// The store answered.
    Answered { response: String },
}

/// The cache store check: healthy when it answers `PONG`.
pub fn redis_outcome(reply: PingReply, response_time_ms: u64) -> (r: CheckOutcome)
    ensures
        r.response_time_ms == response_time_ms,
        match reply {
            PingReply::ConnectionFailed { error } => !r.healthy && says(
                r.message,
                "Redis connection failed: "@ + error@,
            ),
            PingReply::PingFailed { error } => !r.healthy && says(
                r.message,
                "Redis ping failed: "@ + error@,
            ),
            PingReply::Answered { response } => r.healthy == (response@ == "PONG"@) && says(
                r.message,
                "Redis ping response: "@ + response@,
            ),
        },
{
    match reply {
        PingReply::ConnectionFailed { error } => CheckOutcome {
            healthy: false,
            message: Some(concat("Redis connection failed: ", error.as_str())),
            response_time_ms,
        },
        PingReply::PingFailed { error } => CheckOutcome {
            healthy: false,
            message: Some(concat("Redis ping failed: ", error.as_str())),
            response_time_ms,
        },
        PingReply::Answered { response } => {
            let healthy = crate::text::str_eq(response.as_str(), "PONG");
            CheckOutcome {
                healthy,
                message: Some(concat("Redis ping response: ", response.as_str())),
                response_time_ms,
            }
        },
    }
}

/// A check that did not answer within its timeout.
pub fn timed_out(timeout_ms: u64) -> (r: CheckOutcome)
    ensures
        !r.healthy,
        says(r.message, "Health check timed out"@),
        r.response_time_ms == timeout_ms,
{
    CheckOutcome {
        healthy: false,
        message: Some(String::from_str("Health check timed out")),
        response_time_ms: timeout_ms,
    }
}

/// The service is healthy when every check is.
pub fn all_healthy(results: &Vec<(String, CheckOutcome)>) -> (r: bool)
    ensures
        r == (forall|i: int| 0 <= i < results@.len() ==> #[trigger] results@[i].1.healthy),
{
    let mut i: usize = 0;
    while i < results.len()
        invariant
            i <= results.len(),
            forall|j: int| 0 <= j < i ==> #[trigger] results@[j].1.healthy,
        decreases results.len() - i,
    {
        if !results[i].1.healthy {
            return false;
        }
        i = i + 1;
    }
    true
}

} // verus!
