//! Resource metrics. The dashboard samples the host and Docker's container
//! statistics itself, so the collector has nothing to gather.

use vstd::prelude::*;

verus! {

/// Gathers resource metrics.
#[derive(Debug)]
pub struct MetricsCollector {}

impl MetricsCollector {
    pub fn new() -> (r: MetricsCollector) {
        MetricsCollector {}
    }

    /// Collects the metrics: there are none to gather, and it succeeds.
    pub fn collect(&self) -> (r: Result<(), String>)
        ensures
            r is Ok,
    {
        Ok(())
    }
}

} // verus!
