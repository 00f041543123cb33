//! Outcome instrumentation: request counters, incremented exactly once
//! per operation, saturating so that a counter write can never fail or
//! abort the surrounding request path.
//!
//! The counters are an injected handle rather than process-global state,
//! so every caller — and every test — can supply an isolated registry;
//! the process wires one registry to all its translator call sites to
//! get process-wide counts.

use vstd::prelude::*;

verus! {

/// A saturating increment: counters only grow, and never wrap.
pub open spec fn sat_inc(x: u64) -> u64 {
    if x == u64::MAX {
        u64::MAX
    } else {
        (x + 1) as u64
    }
}

/// The requests-seen and requests-failed counters for one request kind.
#[derive(Clone, Copy, Debug, PartialEq, Eq, Structural)]
pub struct Metrics {
    pub seen: u64,
    pub failed: u64,
}

impl Metrics {
    /// A fresh registry with both counters at zero.
    pub fn new() -> (m: Metrics)
        ensures
            m.seen == 0,
            m.failed == 0,
    {
        Metrics { seen: 0, failed: 0 }
    }

    /// Counts one request as seen; the failure counter is untouched.
    pub fn record_seen(&mut self)
        ensures
            final(self).seen == sat_inc(old(self).seen),
            final(self).failed == old(self).failed,
    {
        if self.seen < u64::MAX {
            self.seen = self.seen + 1;
        }
    }

    /// Counts one request as failed; the seen counter is untouched.
    pub fn record_failed(&mut self)
        ensures
            final(self).failed == sat_inc(old(self).failed),
            final(self).seen == old(self).seen,
    {
        if self.failed < u64::MAX {
            self.failed = self.failed + 1;
        }
    }
}

} // verus!
