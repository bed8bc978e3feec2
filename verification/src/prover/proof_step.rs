//! Proof steps: one resolution each, linked to the step before.

use crate::prover::substitutions::SubstitutionsMap;
use crate::types::CNFDisjunction;
use crate::types::CNFLiteral;
use crate::types::LiteralModel;
use crate::types::TermModel;
use crate::util::py_arc_item::arc_clone;
use crate::util::py_arc_item::PyArcItem;
use std::sync::Arc;
use vstd::prelude::*;

verus! {

/// What one resolution did, without its link to the step before.
pub struct StepRecord {
    pub source: Seq<LiteralModel>,
    pub target: Seq<LiteralModel>,
    pub source_unification_literal: LiteralModel,
    pub target_unification_literal: LiteralModel,
    pub source_substitutions: Map<Seq<char>, TermModel>,
    pub target_substitutions: Map<Seq<char>, TermModel>,
    pub resolvent: Seq<LiteralModel>,
    pub similarity: u64,
    pub running_similarity: u64,
    pub depth: usize,
}

/// A shared proof step: many steps may have the same parent.
#[derive(Debug, PartialEq)]
pub struct ProofStepNode {
    pub inner: Arc<ProofStep>,
}

impl ProofStepNode {
    pub fn new(inner: ProofStep) -> (res: Self)
        ensures
            *res.inner == inner,
    {
        ProofStepNode { inner: Arc::new(inner) }
    }
}

impl Clone for ProofStepNode {
    fn clone(&self) -> (res: Self)
        ensures
            res == *self,
    {
        ProofStepNode { inner: arc_clone(&self.inner) }
    }
}

/// A single step in a proof: `source` and `target` were resolved on the two
/// unification literals, under the two substitutions, into `resolvent`.
#[derive(Debug, PartialEq)]
pub struct ProofStep {
    pub source: PyArcItem<CNFDisjunction>,
    pub target: PyArcItem<CNFDisjunction>,
    pub source_unification_literal: PyArcItem<CNFLiteral>,
    pub target_unification_literal: PyArcItem<CNFLiteral>,
    pub source_substitutions: SubstitutionsMap,
    pub target_substitutions: SubstitutionsMap,
    pub resolvent: PyArcItem<CNFDisjunction>,
    /// The similarity of this step's unification.
    pub similarity: u64,
    /// The lowest similarity of this step and of all the steps before it.
    pub running_similarity: u64,
    pub depth: usize,
    pub parent: Option<ProofStepNode>,
}

impl View for ProofStep {
    type V = StepRecord;

    open spec fn view(&self) -> StepRecord {
        StepRecord {
            source: self.source.item@,
            target: self.target.item@,
            source_unification_literal: self.source_unification_literal.item@,
            target_unification_literal: self.target_unification_literal.item@,
            source_substitutions: self.source_substitutions@,
            target_substitutions: self.target_substitutions@,
            resolvent: self.resolvent.item@,
            similarity: self.similarity,
            running_similarity: self.running_similarity,
            depth: self.depth,
        }
    }
}

/// The steps from the first one of the proof down to `step`, in that order.
pub open spec fn ancestry(step: ProofStep) -> Seq<StepRecord>
    decreases step,
{
    match step.parent {
        Some(parent) => ancestry(*parent.inner).push(step@),
        None => seq![step@],
    }
}

impl ProofStep {
    pub fn new(
        source: PyArcItem<CNFDisjunction>,
        target: PyArcItem<CNFDisjunction>,
        source_unification_literal: PyArcItem<CNFLiteral>,
        target_unification_literal: PyArcItem<CNFLiteral>,
        source_substitutions: SubstitutionsMap,
        target_substitutions: SubstitutionsMap,
        resolvent: PyArcItem<CNFDisjunction>,
        similarity: u64,
        running_similarity: u64,
        depth: usize,
        parent: Option<ProofStepNode>,
    ) -> (res: ProofStep)
        ensures
            res == (ProofStep {
                source,
                target,
                source_unification_literal,
                target_unification_literal,
                source_substitutions,
                target_substitutions,
                resolvent,
                similarity,
                running_similarity,
                depth,
                parent,
            }),
    {
        ProofStep {
            source,
            target,
            source_unification_literal,
            target_unification_literal,
            source_substitutions,
            target_substitutions,
            resolvent,
            similarity,
            running_similarity,
            depth,
            parent,
        }
    }
}

impl Clone for ProofStep {
    fn clone(&self) -> (res: Self)
        ensures
            res@ == self@,
            res.parent == self.parent,
            ancestry(res) == ancestry(*self),
    {
        let parent = match &self.parent {
            Some(node) => Some(node.clone()),
            None => None,
        };
        ProofStep {
            source: self.source.clone(),
            target: self.target.clone(),
            source_unification_literal: self.source_unification_literal.clone(),
            target_unification_literal: self.target_unification_literal.clone(),
            source_substitutions: self.source_substitutions.clone(),
            target_substitutions: self.target_substitutions.clone(),
            resolvent: self.resolvent.clone(),
            similarity: self.similarity,
            running_similarity: self.running_similarity,
            depth: self.depth,
            parent,
        }
    }
}

} // verus!
