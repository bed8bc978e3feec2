//! The state of a search as the model sees it.

use crate::prover::leaf_proofs::inserted;
use crate::prover::leaf_proofs::rank_position;
use crate::prover::leaf_proofs::ScoredLeaf;
use crate::prover::proof_context::LocalProofContext;
use crate::prover::proof_context::SharedProofContext;
use crate::prover::proof_step::ancestry;
use crate::prover::proof_step::ProofStep;
use crate::prover::search_config::BatchItem;
use crate::prover::search_config::ResolutionProverConfig;
use crate::prover::search_model::leaf_position;
use crate::prover::search_model::record_leaf;
use crate::prover::search_model::with_leaf;
use crate::prover::finished_proof::Proof;
use crate::prover::search_model::ItemModel;
use crate::prover::search_model::ProofModel;
use crate::util::clause_set::by_clause;
use crate::util::clause_set::lemma_by_clause_strict;
use crate::util::sorted::ascending;
use crate::util::sorted::lemma_ascending_unique;
use crate::prover::search_model::LeafModel;
use crate::prover::search_model::Progress;
use crate::prover::search_model::SearchEnv;
use crate::prover::search_model::SearchModel;
use crate::prover::search_model::WorkerModel;
use crate::types::LiteralModel;
use vstd::prelude::*;

verus! {

/// The steps from the first one of a proof down to the step that `node`
/// holds.
pub open spec fn chain_of(node: crate::prover::proof_step::ProofStepNode) -> Seq<
    crate::prover::proof_step::StepRecord,
> {
    ancestry(*node.inner)
}

/// A pending goal as the model sees it.
pub open spec fn item_view(item: BatchItem) -> ItemModel {
    ItemModel {
        goal: item.0.item@,
        chain: match item.1 {
            Some(step) => Some(ancestry(*step.inner)),
            None => None,
        },
    }
}

pub open spec fn items_view(items: Seq<BatchItem>) -> Seq<ItemModel> {
    Seq::new(items.len(), |i: int| item_view(items[i]))
}

pub open spec fn batches_view(batches: Seq<Vec<BatchItem>>) -> Seq<Seq<ItemModel>> {
    Seq::new(batches.len(), |i: int| items_view(batches[i]@))
}

/// A recorded proof as the model sees it.
pub open spec fn leaf_view(leaf: ScoredLeaf) -> LeafModel {
    LeafModel { similarity: leaf.0, depth: leaf.1, chain: ancestry(*leaf.2.inner), stats: leaf.3 }
}

pub open spec fn leaves_view(leaves: Seq<ScoredLeaf>) -> Seq<LeafModel> {
    Seq::new(leaves.len(), |i: int| leaf_view(leaves[i]))
}

/// The shared state as the model sees it.
pub open spec fn search_view<F: Fn(&String, Option<u64>, &String, Option<u64>) -> u64>(
    shared: &SharedProofContext<F>,
) -> SearchModel {
    SearchModel {
        leaves: leaves_view(shared.scored_leaf_proof_steps@),
        floor: shared.min_similarity_threshold,
        stats: shared.stats@,
        cache: shared.cache(),
        seen: shared.seen(),
    }
}

/// The state of a batch at work as the model sees it.
pub open spec fn worker_view(ctx: &LocalProofContext) -> WorkerModel {
    WorkerModel { stats: ctx.stats, cache: ctx.cache() }
}

pub open spec fn progress_view<F: Fn(&String, Option<u64>, &String, Option<u64>) -> u64>(
    shared: &SharedProofContext<F>,
    ctx: &LocalProofContext,
    pending: Seq<BatchItem>,
) -> Progress {
    Progress { search: search_view(shared), worker: worker_view(ctx), pending: items_view(pending) }
}

/// What a search with these bounds, this knowledge and this shared state
/// is given.
pub open spec fn env_of<F: Fn(&String, Option<u64>, &String, Option<u64>) -> u64>(
    config: &ResolutionProverConfig,
    knowledge: Seq<Seq<LiteralModel>>,
    pattern: Seq<char>,
    shared: &SharedProofContext<F>,
) -> SearchEnv {
    SearchEnv {
        raw: shared.raw(),
        pattern,
        knowledge,
        max_proof_depth: config.max_proof_depth,
        max_resolution_attempts: config.max_resolution_attempts,
        max_resolvent_width: config.max_resolvent_width,
        find_highest_similarity_proofs: config.find_highest_similarity_proofs,
        eval_batch_size: config.eval_batch_size,
        max_proofs: shared.max_proofs,
        skip_seen_resolvents: shared.skip_seen_resolvents,
    }
}

/// A proof as the model sees it.
pub open spec fn proof_view(found: Proof) -> ProofModel {
    ProofModel {
        goal: found.goal@,
        similarity: found.similarity,
        stats: found.stats,
        chain: ancestry(found.leaf_proof_step),
    }
}

pub open spec fn proofs_view(proofs: Seq<Proof>) -> Seq<ProofModel> {
    Seq::new(proofs.len(), |i: int| proof_view(proofs[i]))
}

/// The clauses of a set in ascending order.
pub open spec fn ascending_clauses(clauses: Set<Seq<LiteralModel>>) -> Seq<Seq<LiteralModel>> {
    choose|s: Seq<Seq<LiteralModel>>| ascending(s, by_clause()) && s.to_set() == clauses
}

/// An ascending sequence of clauses is the ascending order of its elements.
pub proof fn lemma_ascending_clauses(clauses: Seq<Seq<LiteralModel>>)
    requires
        ascending(clauses, by_clause()),
    ensures
        ascending_clauses(clauses.to_set()) == clauses,
{
    lemma_by_clause_strict();
    let chosen = ascending_clauses(clauses.to_set());
    assert(ascending(clauses, by_clause()) && clauses.to_set() == clauses.to_set());
    lemma_ascending_unique(chosen, clauses, by_clause());
}

/// The last step of a chain is the step the chain ends in.
pub proof fn lemma_ancestry_last(step: &ProofStep)
    ensures
        ancestry(*step).len() >= 1,
        ancestry(*step).last() == step@,
{
}

proof fn lemma_leaf_position(leaves: Seq<ScoredLeaf>, entry: ScoredLeaf, from: int)
    ensures
        rank_position(leaves, entry, from) == leaf_position(
            leaves_view(leaves),
            leaf_view(entry),
            from,
        ),
    decreases leaves.len() - from,
{
    if 0 <= from && from < leaves.len() {
        assert(leaves_view(leaves)[from] == leaf_view(leaves[from]));
        lemma_leaf_position(leaves, entry, from + 1);
    }
}

/// Putting a proof in its place in the list is what the model does with it.
pub proof fn lemma_inserted_view(leaves: Seq<ScoredLeaf>, entry: ScoredLeaf)
    ensures
        leaves_view(inserted(leaves, entry)) == with_leaf(leaves_view(leaves), leaf_view(entry)),
{
    lemma_leaf_position(leaves, entry, 0);
    crate::prover::leaf_proofs::lemma_rank_position(leaves, entry, 0);
    assert(leaves_view(inserted(leaves, entry)) =~= with_leaf(
        leaves_view(leaves),
        leaf_view(entry),
    ));
}

/// A context in which a proof was recorded is, to the model, the context
/// before with the proof's chain recorded.
pub proof fn lemma_recorded_view<F: Fn(&String, Option<u64>, &String, Option<u64>) -> u64>(
    before: &SharedProofContext<F>,
    after: &SharedProofContext<F>,
    proof_step: crate::prover::proof_step::ProofStepNode,
)
    requires
        before.leaf_recorded(after, proof_step),
    ensures
        search_view(after) == record_leaf(
            before.max_proofs,
            search_view(before),
            ancestry(*proof_step.inner),
        ),
{
    let entry = (
        proof_step.inner.running_similarity,
        proof_step.inner.depth,
        proof_step,
        before.stats@,
    );
    let grown = inserted(before.scored_leaf_proof_steps@, entry);
    lemma_inserted_view(before.scored_leaf_proof_steps@, entry);
    lemma_ancestry_last(&*proof_step.inner);
    crate::prover::leaf_proofs::lemma_rank_position(before.scored_leaf_proof_steps@, entry, 0);
    if before.max_proofs is Some && grown.len() > before.max_proofs->0 {
        assert(leaves_view(grown.drop_last()) =~= leaves_view(grown).drop_last());
        if grown.len() > 1 {
            assert(leaves_view(grown)[grown.len() - 2] == leaf_view(grown[grown.len() - 2]));
        }
    }
}

} // verus!
