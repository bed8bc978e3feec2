//! What makes a chain of steps a refutation, and the bounds that make a
//! search come to an end.

use crate::prover::finished_proof::Proof;
use crate::prover::leaf_proofs::inserted;
use crate::prover::leaf_proofs::ScoredLeaf;
use crate::prover::operations::resolve::rename_map;
use crate::prover::operations::resolve::resolve;
use crate::prover::operations::resolve::resolve_upto;
use crate::prover::operations::resolve::resolvent_of;
use crate::prover::operations::resolve::step_resolves;
use crate::prover::operations::resolve::substituted;
use crate::prover::proof_context::MemoModel;
use crate::prover::proof_stats::FrozenProofStats;
use crate::prover::proof_step::ancestry;
use crate::prover::proof_step::ProofStep;
use crate::prover::proof_step::StepRecord;
use crate::prover::search_config::BatchItem;
use crate::prover::similarity::lower;
use crate::types::CNFDisjunction;
use crate::types::LiteralModel;
use crate::types::SymbolModel;
use vstd::prelude::*;

verus! {

/// The chain of steps that ends in `step` is a chain of resolutions: every
/// step resolves its source on the source's least literal against a clause
/// of the knowledge, on literals of opposite polarity, and its resolvent is
/// the resolvent of the two clauses under the step's substitutions (see
/// `is_resolvent`); the first step starts from a clause of the negated goal,
/// every other step from the resolvent of the step before it; a first step
/// has depth 0, every other step is one deeper than the step before it; and
/// the running similarity of a step is the lowest similarity of the steps
/// down to it.
pub open spec fn sound_chain(
    step: ProofStep,
    pattern: Seq<char>,
    knowledge: Set<Seq<LiteralModel>>,
    goals: Set<Seq<LiteralModel>>,
) -> bool
    decreases step,
{
    let record = step@;
    &&& record.source.len() > 0
    &&& record.source_unification_literal == record.source[0]
    &&& record.target.contains(record.target_unification_literal)
    &&& record.source_unification_literal.polarity != record.target_unification_literal.polarity
    &&& knowledge.contains(record.target)
    &&& step_resolves(record, pattern)
    &&& match step.parent {
        Some(parent) => {
            &&& record.depth == parent.inner.depth + 1
            &&& record.running_similarity == lower(
                record.similarity,
                parent.inner.running_similarity,
            )
            &&& record.source == parent.inner@.resolvent
            &&& sound_chain(*parent.inner, pattern, knowledge, goals)
        },
        None => {
            &&& record.depth == 0
            &&& record.running_similarity == record.similarity
            &&& goals.contains(record.source)
        },
    }
}

/// What a step of a sound chain does: its source is the goal before it, a
/// clause of the negated goal or the resolvent of the parent step; and the
/// literals of its resolvent are those of the source, but for the literal
/// resolved on, under the step's source substitutions, together with those
/// of the target, but for the literal resolved on, renamed and under the
/// step's target substitutions.
pub proof fn lemma_step_of_sound_chain(
    step: &ProofStep,
    pattern: Seq<char>,
    knowledge: Set<Seq<LiteralModel>>,
    goals: Set<Seq<LiteralModel>>,
)
    requires
        sound_chain(*step, pattern, knowledge, goals),
    ensures
        match step.parent {
            Some(parent) => step@.source == parent.inner@.resolvent,
            None => goals.contains(step@.source),
        },
        ({
            let record = step@;
            let source_rest = record.source.to_set().remove(record.source_unification_literal);
            let target_rest = record.target.to_set().remove(record.target_unification_literal);
            record.resolvent.to_set() == substituted(
                source_rest,
                record.source_substitutions,
            ).union(
                substituted(
                    substituted(
                        target_rest,
                        rename_map(
                            pattern,
                            source_rest,
                            target_rest,
                            record.source_substitutions,
                            record.target_substitutions,
                        ),
                    ),
                    record.target_substitutions,
                ),
            )
        }),
{
}

/// A pending goal is sound: a clause of the negated goal, or the resolvent
/// of a sound chain.
pub open spec fn sound_item(
    item: BatchItem,
    pattern: Seq<char>,
    knowledge: Set<Seq<LiteralModel>>,
    goals: Set<Seq<LiteralModel>>,
) -> bool {
    match item.1 {
        Some(step) => item.0.item@ == step.inner@.resolvent && sound_chain(
            *step.inner,
            pattern,
            knowledge,
            goals,
        ),
        None => goals.contains(item.0.item@),
    }
}

/// A recorded proof is sound: a sound chain that ends in the clause without
/// literals, filed under the running similarity and the depth of its last
/// step.
pub open spec fn sound_leaf(
    leaf: ScoredLeaf,
    pattern: Seq<char>,
    knowledge: Set<Seq<LiteralModel>>,
    goals: Set<Seq<LiteralModel>>,
) -> bool {
    &&& leaf.0 == leaf.2.inner.running_similarity
    &&& leaf.1 == leaf.2.inner.depth
    &&& leaf.2.inner@.resolvent.len() == 0
    &&& sound_chain(*leaf.2.inner, pattern, knowledge, goals)
}

pub open spec fn sound_leaves(
    leaves: Seq<ScoredLeaf>,
    pattern: Seq<char>,
    knowledge: Set<Seq<LiteralModel>>,
    goals: Set<Seq<LiteralModel>>,
) -> bool {
    forall|i: int| 0 <= i < leaves.len() ==> sound_leaf(#[trigger] leaves[i], pattern, knowledge, goals)
}

pub open spec fn sound_items(
    items: Seq<BatchItem>,
    pattern: Seq<char>,
    knowledge: Set<Seq<LiteralModel>>,
    goals: Set<Seq<LiteralModel>>,
) -> bool {
    forall|i: int| 0 <= i < items.len() ==> sound_item(#[trigger] items[i], pattern, knowledge, goals)
}

/// How many more rounds a pending goal can give rise to, at most: one more
/// than the depth allows for a clause of the negated goal, and for any other
/// goal what its step's depth leaves of `max_proof_depth`.
pub open spec fn rounds_left(item: BatchItem, max_proof_depth: usize) -> int {
    match item.1 {
        Some(step) => max_proof_depth - step.inner.depth,
        None => max_proof_depth + 1,
    }
}

/// Every one of the pending goals has at least one round left and at most
/// `bound`.
pub open spec fn within_rounds(items: Seq<BatchItem>, max_proof_depth: usize, bound: int) -> bool {
    forall|i: int|
        0 <= i < items.len() ==> 1 <= rounds_left(#[trigger] items[i], max_proof_depth) <= bound
}

/// The steps of `outcome` are those of resolving `source` against `target`:
/// they carry the two clauses, resolve on the least literal of `source` and
/// a literal of `target` of the other polarity, and keep the books as the
/// parent's summary asks.
pub proof fn lemma_resolve_steps(
    raw: spec_fn(SymbolModel, SymbolModel) -> u64,
    threshold: u64,
    pattern: Seq<char>,
    source: Seq<LiteralModel>,
    target: Seq<LiteralModel>,
    parent: Option<(u64, usize)>,
    memo: MemoModel,
    stats: FrozenProofStats,
    n: int,
)
    requires
        0 <= n <= target.len(),
    ensures
        forall|i: int|
            0 <= i < resolve_upto(
                raw,
                threshold,
                pattern,
                source,
                target,
                parent,
                memo,
                stats,
                n,
            ).steps.len() ==> {
                let record = #[trigger] resolve_upto(
                    raw,
                    threshold,
                    pattern,
                    source,
                    target,
                    parent,
                    memo,
                    stats,
                    n,
                ).steps[i];
                &&& source.len() > 0
                &&& record.source == source
                &&& record.target == target
                &&& record.source_unification_literal == source[0]
                &&& target.contains(record.target_unification_literal)
                &&& record.source_unification_literal.polarity
                    != record.target_unification_literal.polarity
                &&& record.resolvent == resolvent_of(
                    pattern,
                    source,
                    target,
                    record.source_unification_literal,
                    record.target_unification_literal,
                    record.source_substitutions,
                    record.target_substitutions,
                )
                &&& record.running_similarity == (match parent {
                    Some(before) => lower(record.similarity, before.0),
                    None => record.similarity,
                })
                &&& record.depth == (match parent {
                    Some(before) => (before.1 + 1) as usize,
                    None => 0usize,
                })
            },
    decreases n,
{
    if n > 0 && source.len() > 0 {
        lemma_resolve_steps(raw, threshold, pattern, source, target, parent, memo, stats, n - 1);
        assert(target.contains(target[n - 1]));
    }
}

/// Every entry of a list with one more entry is that entry or an entry of
/// the list.
pub proof fn lemma_inserted_entries(list: Seq<ScoredLeaf>, entry: ScoredLeaf)
    ensures
        inserted(list, entry).len() == list.len() + 1,
        forall|i: int|
            0 <= i < inserted(list, entry).len() ==> (#[trigger] inserted(list, entry)[i]) == entry
                || list.contains(inserted(list, entry)[i]),
{
    crate::prover::leaf_proofs::lemma_rank_position(list, entry, 0);
    let p = crate::prover::leaf_proofs::rank_position(list, entry, 0);
    let out = inserted(list, entry);
    assert forall|i: int| 0 <= i < out.len() implies (#[trigger] out[i]) == entry || list.contains(
        out[i],
    ) by {
        if i < p {
            assert(out[i] == list[i]);
        } else if i > p {
            assert(out[i] == list[i - 1]);
        }
    }
}

/// The lowest similarity of a chain of steps.
pub open spec fn chain_similarity(steps: Seq<StepRecord>) -> u64
    decreases steps.len(),
{
    if steps.len() == 0 {
        0
    } else if steps.len() == 1 {
        steps[0].similarity
    } else {
        lower(steps.last().similarity, chain_similarity(steps.drop_last()))
    }
}

/// The running similarity of the last step of a sound chain is the lowest
/// similarity of the chain's steps, and the chain's first step starts from
/// a clause of the negated goal.
pub proof fn lemma_sound_chain(
    step: &ProofStep,
    pattern: Seq<char>,
    knowledge: Set<Seq<LiteralModel>>,
    goals: Set<Seq<LiteralModel>>,
)
    requires
        sound_chain(*step, pattern, knowledge, goals),
    ensures
        step.running_similarity == chain_similarity(ancestry(*step)),
        ancestry(*step).len() >= 1,
        ancestry(*step).len() == step.depth + 1,
        goals.contains(ancestry(*step)[0].source),
        ancestry(*step).last() == step@,
    decreases step,
{
    match &step.parent {
        Some(parent) => {
            lemma_sound_chain(&*parent.inner, pattern, knowledge, goals);
            assert(ancestry(*step).drop_last() =~= ancestry(*parent.inner));
        },
        None => {},
    }
}

/// The models of a list of clauses, in order.
pub open spec fn clause_views(clauses: Seq<CNFDisjunction>) -> Seq<Seq<LiteralModel>> {
    Seq::new(clauses.len(), |i: int| clauses[i]@)
}

/// The clauses that a search reasons from: the prover's knowledge, the
/// extra knowledge and the clauses of the negated goal.
pub open spec fn search_knowledge(
    base: Seq<Seq<LiteralModel>>,
    extra: Option<Vec<CNFDisjunction>>,
    goals: Seq<CNFDisjunction>,
) -> Set<Seq<LiteralModel>> {
    base.to_set().union(
        clause_views(
            match extra {
                Some(clauses) => clauses@,
                None => Seq::empty(),
            },
        ).to_set(),
    ).union(clause_views(goals).to_set())
}

/// `found` is a refutation: its steps are a sound chain of resolutions that
/// starts from its goal, a clause of the negated goal, and ends in the
/// clause without literals; and its similarity is the lowest similarity of
/// its steps, which is the running similarity of its last step.
pub open spec fn is_refutation(
    found: Proof,
    pattern: Seq<char>,
    knowledge: Set<Seq<LiteralModel>>,
    goals: Set<Seq<LiteralModel>>,
) -> bool {
    &&& sound_chain(found.leaf_proof_step, pattern, knowledge, goals)
    &&& found.leaf_proof_step@.resolvent.len() == 0
    &&& found.similarity == found.leaf_proof_step.running_similarity
    &&& found.similarity == chain_similarity(ancestry(found.leaf_proof_step))
    &&& ancestry(found.leaf_proof_step).len() >= 1
    &&& found.goal@ == ancestry(found.leaf_proof_step)[0].source
    &&& goals.contains(found.goal@)
}

/// Every step of the chain that ends in `step` has a similarity above
/// `floor`.
pub open spec fn chain_above(step: ProofStep, floor: u64) -> bool
    decreases step,
{
    &&& step.similarity > floor
    &&& match step.parent {
        Some(parent) => chain_above(*parent.inner, floor),
        None => true,
    }
}

/// The chain behind a pending goal, if there is one, is above `floor`.
pub open spec fn item_above(item: BatchItem, floor: u64) -> bool {
    item.1 matches Some(step) ==> chain_above(*step.inner, floor)
}

pub open spec fn items_above(items: Seq<BatchItem>, floor: u64) -> bool {
    forall|i: int| 0 <= i < items.len() ==> item_above(#[trigger] items[i], floor)
}

pub open spec fn leaves_above(leaves: Seq<ScoredLeaf>, floor: u64) -> bool {
    forall|i: int| 0 <= i < leaves.len() ==> chain_above(*(#[trigger] leaves[i]).2.inner, floor)
}

/// The running similarity of the last step of a sound chain whose steps are
/// all above `floor` is above `floor`.
pub proof fn lemma_chain_above(
    step: &ProofStep,
    pattern: Seq<char>,
    knowledge: Set<Seq<LiteralModel>>,
    goals: Set<Seq<LiteralModel>>,
    floor: u64,
)
    requires
        sound_chain(*step, pattern, knowledge, goals),
        chain_above(*step, floor),
    ensures
        step.running_similarity > floor,
    decreases step,
{
    match &step.parent {
        Some(parent) => {
            lemma_chain_above(&*parent.inner, pattern, knowledge, goals, floor);
        },
        None => {},
    }
}

/// Every step that comes of resolving a goal against a clause has a
/// similarity above the floor that the resolution went by.
pub proof fn lemma_resolve_steps_above(
    raw: spec_fn(SymbolModel, SymbolModel) -> u64,
    threshold: u64,
    pattern: Seq<char>,
    source: Seq<LiteralModel>,
    target: Seq<LiteralModel>,
    parent: Option<(u64, usize)>,
    memo: MemoModel,
    stats: FrozenProofStats,
    n: int,
)
    requires
        0 <= n <= target.len(),
    ensures
        forall|i: int|
            0 <= i < resolve_upto(
                raw,
                threshold,
                pattern,
                source,
                target,
                parent,
                memo,
                stats,
                n,
            ).steps.len() ==> (#[trigger] resolve_upto(
                raw,
                threshold,
                pattern,
                source,
                target,
                parent,
                memo,
                stats,
                n,
            ).steps[i]).similarity > threshold,
    decreases n,
{
    if n > 0 && source.len() > 0 {
        lemma_resolve_steps_above(raw, threshold, pattern, source, target, parent, memo, stats, n - 1);
        let before = resolve_upto(raw, threshold, pattern, source, target, parent, memo, stats, n - 1);
        if source[0].polarity != target[n - 1].polarity {
            let outcome = crate::prover::operations::unify::unify_spec(
                raw,
                threshold,
                source[0].atom,
                target[n - 1].atom,
                before.memo,
                before.stats.similarity_comparisons,
            );
            if outcome.unification is Some {
                crate::prover::operations::unify_guarantees::lemma_similarity_above_floor(
                    raw,
                    threshold,
                    source[0].atom,
                    target[n - 1].atom,
                    before.memo,
                    before.stats.similarity_comparisons,
                );
            }
        }
    }
}

} // verus!
