//! Counters that say how much work a search did.

use vstd::prelude::*;

verus! {

/// A snapshot of the counters.  The search also keeps one of these per batch
/// for the work it has not yet added to the shared counters.
#[derive(Clone, Copy, Debug, PartialEq, Eq, Structural)]
pub struct FrozenProofStats {
    pub attempted_unifications: usize,
    pub successful_unifications: usize,
    pub similarity_comparisons: usize,
    pub attempted_resolutions: usize,
    pub successful_resolutions: usize,
    pub max_resolvent_width_seen: usize,
    pub max_depth_seen: usize,
    pub discarded_proofs: usize,
}

impl FrozenProofStats {
    /// The counters of a search that has done nothing yet.
    pub open spec fn zero() -> FrozenProofStats {
        FrozenProofStats {
            attempted_unifications: 0,
            successful_unifications: 0,
            similarity_comparisons: 0,
            attempted_resolutions: 0,
            successful_resolutions: 0,
            max_resolvent_width_seen: 0,
            max_depth_seen: 0,
            discarded_proofs: 0,
        }
    }

    pub fn new() -> (res: Self)
        ensures
            res == Self::zero(),
    {
        FrozenProofStats {
            attempted_unifications: 0,
            successful_unifications: 0,
            similarity_comparisons: 0,
            attempted_resolutions: 0,
            successful_resolutions: 0,
            max_resolvent_width_seen: 0,
            max_depth_seen: 0,
            discarded_proofs: 0,
        }
    }
}

/// The greater of two counts.
pub open spec fn larger(a: usize, b: usize) -> usize {
    if a >= b {
        a
    } else {
        b
    }
}

/// The counters after `delta` has been added to `total`: sums wrap round, as
/// machine counters do, and the two high-water marks take the greater value.
pub open spec fn merged(total: FrozenProofStats, delta: FrozenProofStats) -> FrozenProofStats {
    FrozenProofStats {
        attempted_unifications: total.attempted_unifications.wrapping_add(
            delta.attempted_unifications,
        ),
        successful_unifications: total.successful_unifications.wrapping_add(
            delta.successful_unifications,
        ),
        similarity_comparisons: total.similarity_comparisons.wrapping_add(
            delta.similarity_comparisons,
        ),
        attempted_resolutions: total.attempted_resolutions.wrapping_add(
            delta.attempted_resolutions,
        ),
        successful_resolutions: total.successful_resolutions.wrapping_add(
            delta.successful_resolutions,
        ),
        max_resolvent_width_seen: larger(
            total.max_resolvent_width_seen,
            delta.max_resolvent_width_seen,
        ),
        max_depth_seen: larger(total.max_depth_seen, delta.max_depth_seen),
        discarded_proofs: total.discarded_proofs.wrapping_add(delta.discarded_proofs),
    }
}

/// The counters that a whole search shares.
#[derive(Debug)]
pub struct ProofStats {
    pub attempted_unifications: usize,
    pub successful_unifications: usize,
    pub similarity_comparisons: usize,
    pub attempted_resolutions: usize,
    pub successful_resolutions: usize,
    pub max_resolvent_width_seen: usize,
    pub max_depth_seen: usize,
    pub discarded_proofs: usize,
}

impl View for ProofStats {
    type V = FrozenProofStats;

    open spec fn view(&self) -> FrozenProofStats {
        FrozenProofStats {
            attempted_unifications: self.attempted_unifications,
            successful_unifications: self.successful_unifications,
            similarity_comparisons: self.similarity_comparisons,
            attempted_resolutions: self.attempted_resolutions,
            successful_resolutions: self.successful_resolutions,
            max_resolvent_width_seen: self.max_resolvent_width_seen,
            max_depth_seen: self.max_depth_seen,
            discarded_proofs: self.discarded_proofs,
        }
    }
}

impl ProofStats {
    pub fn new() -> (res: Self)
        ensures
            res@ == FrozenProofStats::zero(),
    {
        ProofStats {
            attempted_unifications: 0,
            successful_unifications: 0,
            similarity_comparisons: 0,
            attempted_resolutions: 0,
            successful_resolutions: 0,
            max_resolvent_width_seen: 0,
            max_depth_seen: 0,
            discarded_proofs: 0,
        }
    }

    /// The counters as they stand now.
    pub fn copy_and_freeze(&self) -> (res: FrozenProofStats)
        ensures
            res == self@,
    {
        FrozenProofStats {
            attempted_unifications: self.attempted_unifications,
            successful_unifications: self.successful_unifications,
            similarity_comparisons: self.similarity_comparisons,
            attempted_resolutions: self.attempted_resolutions,
            successful_resolutions: self.successful_resolutions,
            max_resolvent_width_seen: self.max_resolvent_width_seen,
            max_depth_seen: self.max_depth_seen,
            discarded_proofs: self.discarded_proofs,
        }
    }

    /// Adds the work counted in `delta`.
    pub fn absorb(&mut self, delta: &FrozenProofStats)
        ensures
            final(self)@ == merged(old(self)@, *delta),
    {
        self.attempted_unifications = self.attempted_unifications.wrapping_add(
            delta.attempted_unifications,
        );
        self.successful_unifications = self.successful_unifications.wrapping_add(
            delta.successful_unifications,
        );
        self.similarity_comparisons = self.similarity_comparisons.wrapping_add(
            delta.similarity_comparisons,
        );
        self.attempted_resolutions = self.attempted_resolutions.wrapping_add(
            delta.attempted_resolutions,
        );
        self.successful_resolutions = self.successful_resolutions.wrapping_add(
            delta.successful_resolutions,
        );
        if delta.max_resolvent_width_seen > self.max_resolvent_width_seen {
            self.max_resolvent_width_seen = delta.max_resolvent_width_seen;
        }
        if delta.max_depth_seen > self.max_depth_seen {
            self.max_depth_seen = delta.max_depth_seen;
        }
        self.discarded_proofs = self.discarded_proofs.wrapping_add(delta.discarded_proofs);
    }
}

} // verus!
