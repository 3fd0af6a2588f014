//! Limiting how many requests one address may send.

use vstd::prelude::*;

verus! {

/// The length of the window in which requests are counted, in seconds.
pub const WINDOW_SECS: u64 = 60;

/// How many requests an address may send within one window.
pub const MAX_REQUESTS: u64 = 100;

/// What is counted for one address: the requests in the current window and the
/// time the window started, in seconds.
#[derive(Debug, Clone, Copy, PartialEq, Eq, Structural)]
pub struct RequestCount {
    pub count: u64,
    pub since: u64,
}

/// What is counted for an address after one more request at `current_time`, where
/// `counted` was counted before. A window that is over starts anew.
pub open spec fn counted_after(counted: Option<RequestCount>, current_time: u64) -> (int, int) {
    match counted {
        Some(counted) => if current_time - counted.since > WINDOW_SECS {
            (1, current_time as int)
        } else {
            (counted.count + 1, counted.since as int)
        },
        None => (1, current_time as int),
    }
}

/// Counts the requests of each address in windows of a minute.
pub struct RequestLimiter;

impl RequestLimiter {
    /// Counts a request at `current_time` from an address for which `counted` was
    /// counted so far. Time does not run backwards.
    pub fn on_request(&self, counted: Option<RequestCount>, current_time: u64) -> (now_counted:
        RequestCount)
        requires
            counted is Some ==> counted->0.since <= current_time && counted->0.count < u64::MAX,
        ensures
            (now_counted.count as int, now_counted.since as int) == counted_after(
                counted,
                current_time,
            ),
    {
        match counted {
            Some(counted) => if current_time - counted.since > WINDOW_SECS {
                RequestCount { count: 1, since: current_time }
            } else {
                RequestCount { count: counted.count + 1, since: counted.since }
            },
            None => RequestCount { count: 1, since: current_time },
        }
    }

    /// Whether the answer to an address is turned into a refusal: it is where
    /// more requests were counted for the address than one window allows.
    pub fn on_response(&self, counted: Option<RequestCount>) -> (limited: bool)
        ensures
            limited == (counted is Some && counted->0.count > MAX_REQUESTS),
    {
        match counted {
            Some(counted) => counted.count > MAX_REQUESTS,
            None => false,
        }
    }
}

} // verus!
