//! The bounds of a search, and the goals it works on.

use crate::prover::proof_step::ProofStepNode;
use crate::types::CNFDisjunction;
use crate::util::py_arc_item::PyArcItem;
use vstd::prelude::*;

verus! {

/// The bounds of a search.
#[derive(Clone, Copy, Debug)]
pub struct ResolutionProverConfig {
    /// A goal that was reached in this many steps or more is not expanded.
    pub max_proof_depth: usize,
    /// Once this many resolutions have been attempted, nothing is expanded.
    pub max_resolution_attempts: Option<usize>,
    /// A clause is passed over if its resolvent with the goal would have
    /// more literals than this.
    pub max_resolvent_width: Option<usize>,
    pub skip_seen_resolvents: bool,
    /// Whether the search goes on for better proofs when it has as many as
    /// were asked for.
    pub find_highest_similarity_proofs: bool,
    /// The number of pending goals that are handed on as a batch of their
    /// own.
    pub eval_batch_size: usize,
}

/// A pending goal: the clause to resolve, and the step that produced it, if
/// it is not a clause of the negated goal.
pub type BatchItem = (PyArcItem<CNFDisjunction>, Option<ProofStepNode>);

} // verus!
