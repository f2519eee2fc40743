//! Target state: one candidate destination with its resolved endpoint,
//! health flag and failure counter, together with the health-accounting
//! transitions the check loop applies.

use vstd::prelude::*;
use crate::endpoint::{Endpoint, EndpointView};

verus! {

/// A target turns unhealthy as soon as this many probes in a row fail.
pub const FAIL_THRESHOLD: u32 = 1;

/// One candidate destination of a rule.
pub struct TargetInfo {
    /// The target string as configured.
    pub original: String,
    /// The endpoint it currently resolves to.
    pub resolved: Endpoint,
    /// Whether the last probe succeeded.
    pub healthy: bool,
    /// When the target was last checked, on the caller's clock (ms).
    pub last_check: u64,
    /// Consecutive probe failures since the last success.
    pub fail_count: u32,
}

/// Mathematical image of a [`TargetInfo`].
pub ghost struct TargetView {
    pub original: Seq<char>,
    pub resolved: EndpointView,
    pub healthy: bool,
    pub last_check: u64,
    pub fail_count: u32,
}

impl View for TargetInfo {
    type V = TargetView;

    open spec fn view(&self) -> TargetView {
        TargetView {
            original: self.original@,
            resolved: self.resolved@,
            healthy: self.healthy,
            last_check: self.last_check,
            fail_count: self.fail_count,
        }
    }
}

impl DeepView for TargetInfo {
    type V = TargetView;

    open spec fn deep_view(&self) -> TargetView {
        self@
    }
}

impl TargetView {
    /// The health-accounting invariant: a healthy target has no recorded
    /// consecutive failures.
    pub open spec fn wf(self) -> bool {
        self.healthy ==> self.fail_count == 0
    }
}

impl TargetInfo {
    pub open spec fn wf(self) -> bool {
        self@.wf()
    }

    /// A freshly resolved target: healthy until a probe says otherwise.
    pub fn new(original: String, resolved: Endpoint, now: u64) -> (r: TargetInfo)
        ensures
            r@ == (TargetView {
                original: original@,
                resolved: resolved@,
                healthy: true,
                last_check: now,
                fail_count: 0u32,
            }),
            r.wf(),
    {
        TargetInfo { original, resolved, healthy: true, last_check: now, fail_count: 0 }
    }

    pub fn clone_ti(&self) -> (r: TargetInfo)
        ensures
            r@ == self@,
    {
        TargetInfo {
            original: self.original.clone(),
            resolved: self.resolved.clone_ep(),
            healthy: self.healthy,
            last_check: self.last_check,
            fail_count: self.fail_count,
        }
    }

    /// A probe succeeded: the target is healthy and its failure streak ends.
    pub fn record_success(&mut self, now: u64)
        ensures
            final(self)@ == (TargetView {
                healthy: true,
                fail_count: 0u32,
                last_check: now,
                ..old(self)@
            }),
            final(self).wf(),
    {
        self.healthy = true;
        self.fail_count = 0;
        self.last_check = now;
    }

    /// A probe failed: the failure streak grows and the target turns
    /// unhealthy once the streak reaches [`FAIL_THRESHOLD`].
    pub fn record_failure(&mut self, now: u64)
        ensures
            final(self).fail_count == if old(self).fail_count == u32::MAX {
                u32::MAX
            } else {
                (old(self).fail_count + 1) as u32
            },
            final(self).healthy == (old(self).healthy && final(self).fail_count < FAIL_THRESHOLD),
            final(self).last_check == now,
            final(self).original@ == old(self).original@,
            final(self).resolved@ == old(self).resolved@,
            old(self).wf() ==> final(self).wf(),
    {
        self.fail_count = if self.fail_count == u32::MAX {
            u32::MAX
        } else {
            self.fail_count + 1
        };
        if self.fail_count >= FAIL_THRESHOLD {
            self.healthy = false;
        }
        self.last_check = now;
    }

    /// A re-resolve returned an answer. The endpoint is replaced and the
    /// result says whether it actually changed; health is left to the probe
    /// that follows. An unchanged answer only refreshes `last_check`.
    pub fn apply_resolve_success(&mut self, new_resolved: Endpoint, now: u64) -> (changed: bool)
        ensures
            changed == (new_resolved@ != old(self).resolved@),
            final(self)@ == (TargetView {
                resolved: new_resolved@,
                last_check: now,
                ..old(self)@
            }),
            !changed ==> final(self)@ == (TargetView { last_check: now, ..old(self)@ }),
            old(self).wf() ==> final(self).wf(),
    {
        let changed = !self.resolved.same_as(&new_resolved);
        self.resolved = new_resolved;
        self.last_check = now;
        changed
    }

    /// A re-resolve failed: the target is marked unhealthy and the failure
    /// streak grows; the stale endpoint is kept.
    pub fn apply_resolve_failure(&mut self, now: u64)
        ensures
            final(self).fail_count == if old(self).fail_count == u32::MAX {
                u32::MAX
            } else {
                (old(self).fail_count + 1) as u32
            },
            final(self).healthy == false,
            final(self).last_check == now,
            final(self).original@ == old(self).original@,
            final(self).resolved@ == old(self).resolved@,
            final(self).wf(),
    {
        self.fail_count = if self.fail_count == u32::MAX {
            u32::MAX
        } else {
            self.fail_count + 1
        };
        self.healthy = false;
        self.last_check = now;
    }
}

} // verus!
