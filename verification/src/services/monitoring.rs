//! Counting the requests that come in.

use vstd::prelude::*;
use crate::models::monitoring::Monitoring;

verus! {

/// Where the request counters are kept.
pub trait MonitoringCache {
    /// The counters as they stand.
    spec fn monitoring(&self) -> Monitoring;

    fn get_monitoring(&self) -> (monitoring: Monitoring)
        ensures
            monitoring == self.monitoring(),
    ;

    fn increment_income_requests(&mut self)
        requires
            old(self).monitoring().income_requests < u128::MAX,
        ensures
            final(self).monitoring() == (Monitoring {
                income_requests: (old(self).monitoring().income_requests + 1) as u128,
                ..old(self).monitoring()
            }),
    ;

    fn increment_success_income_requests(&mut self)
        requires
            old(self).monitoring().success_income_requests < u128::MAX,
        ensures
            final(self).monitoring() == (Monitoring {
                success_income_requests: (old(self).monitoring().success_income_requests
                    + 1) as u128,
                ..old(self).monitoring()
            }),
    ;

    fn increment_error_income_requests(&mut self)
        requires
            old(self).monitoring().error_income_requests < u128::MAX,
        ensures
            final(self).monitoring() == (Monitoring {
                error_income_requests: (old(self).monitoring().error_income_requests + 1) as u128,
                ..old(self).monitoring()
            }),
    ;
}

/// Counts the requests that come in and how they end.
pub struct MonitoringService<M: MonitoringCache> {
    pub monitoring_cache: M,
}

impl<M: MonitoringCache> MonitoringService<M> {
    pub fn new(monitoring_cache: M) -> (service: Self)
        ensures
            service.monitoring_cache == monitoring_cache,
    {
        Self { monitoring_cache }
    }

    /// The counters as they stand.
    pub fn get_monitoring(&self) -> (monitoring: Monitoring)
        ensures
            monitoring == self.monitoring_cache.monitoring(),
    {
        self.monitoring_cache.get_monitoring()
    }

    /// Counts a request that came in.
    pub fn inc_income_requests(&mut self)
        requires
            old(self).monitoring_cache.monitoring().income_requests < u128::MAX,
        ensures
            final(self).monitoring_cache.monitoring() == (Monitoring {
                income_requests: (old(self).monitoring_cache.monitoring().income_requests
                    + 1) as u128,
                ..old(self).monitoring_cache.monitoring()
            }),
    {
        self.monitoring_cache.increment_income_requests();
    }

    /// Counts a request that was served.
    pub fn inc_success_income_requests(&mut self)
        requires
            old(self).monitoring_cache.monitoring().success_income_requests < u128::MAX,
        ensures
            final(self).monitoring_cache.monitoring() == (Monitoring {
                success_income_requests: (
                old(self).monitoring_cache.monitoring().success_income_requests + 1) as u128,
                ..old(self).monitoring_cache.monitoring()
            }),
    {
        self.monitoring_cache.increment_success_income_requests();
    }

    /// Counts a request that failed.
    pub fn inc_error_income_requests(&mut self)
        requires
            old(self).monitoring_cache.monitoring().error_income_requests < u128::MAX,
        ensures
            final(self).monitoring_cache.monitoring() == (Monitoring {
                error_income_requests: (
                old(self).monitoring_cache.monitoring().error_income_requests + 1) as u128,
                ..old(self).monitoring_cache.monitoring()
            }),
    {
        self.monitoring_cache.increment_error_income_requests();
    }
}

} // verus!
