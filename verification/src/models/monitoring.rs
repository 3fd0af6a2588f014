//! Counters of inbound requests.

use vstd::prelude::*;

verus! {

/// Totals of the requests the gateway has received and how they ended.
#[derive(Debug, Clone, Copy)]
pub struct Monitoring {
    pub income_requests: u128,
    pub success_income_requests: u128,
    pub error_income_requests: u128,
}

impl Monitoring {
    /// All counters start at zero.
    pub fn new() -> (m: Self)
        ensures
            m.income_requests == 0,
            m.success_income_requests == 0,
            m.error_income_requests == 0,
    {
        Self { income_requests: 0, success_income_requests: 0, error_income_requests: 0 }
    }
}

} // verus!
