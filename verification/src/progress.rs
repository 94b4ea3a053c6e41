//! Per-root progress through the normalization phase.
//!
//! Assembly must not begin until every conversion job of the same root is
//! accounted for — the phase barrier. The counters here make that gate a
//! proved property rather than a convention.

use vstd::prelude::*;

verus! {

/// One root's conversion counters: how many of the planned jobs have
/// finished, and how.
pub struct Progress {
    pub total: usize,
    pub converted: usize,
    pub failed: usize,
}

impl Progress {
    /// The accounted jobs never exceed the planned total.
    pub open spec fn wf(self) -> bool {
        self.converted + self.failed <= self.total
    }

    /// Starts the phase with `total` planned conversion jobs.
    pub fn new(total: usize) -> (r: Progress)
        ensures
            r.wf(),
            r.total == total,
            r.converted == 0,
            r.failed == 0,
    {
        Progress { total, converted: 0, failed: 0 }
    }

    /// Records one finished conversion job.
    pub fn record(&mut self, success: bool)
        requires
            old(self).wf(),
            old(self).converted + old(self).failed < old(self).total,
        ensures
            final(self).wf(),
            final(self).total == old(self).total,
            success ==> final(self).converted == old(self).converted + 1 && final(self).failed
                == old(self).failed,
            !success ==> final(self).failed == old(self).failed + 1 && final(self).converted
                == old(self).converted,
    {
        if success {
            self.converted = self.converted + 1;
        } else {
            self.failed = self.failed + 1;
        }
    }

    /// The phase barrier: true exactly when every planned job has been
    /// accounted for, so assembly may start.
    pub fn phase_complete(&self) -> (r: bool)
        requires
            self.wf(),
        ensures
            r <==> self.converted + self.failed == self.total,
    {
        self.converted + self.failed == self.total
    }
}

} // verus!
