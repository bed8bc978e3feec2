//! What a search computes, stated as a function of its inputs.
//!
//! A pending goal is a clause with the chain of steps that led to it; the
//! state of the search is the list of the proofs found, the floor, the
//! shared counters, the shared cache and the record of the resolvents seen;
//! a batch at work has counters and a cache of its own.
//!
//! The check for seen resolvents goes by a hash of the resolvent, and of the
//! hashes nothing is known.  So the model takes them as given: each function
//! is handed the hashes that are still to come, uses one for every check it
//! makes, and hands back those that are left.  Without the check no hash is
//! used, and the search is a function of its other inputs alone.

use crate::prover::similarity::higher;
use crate::prover::operations::resolve::resolve_spec;
use crate::prover::proof_context::admission;
use crate::prover::proof_context::MemoModel;
use crate::prover::proof_stats::larger;
use crate::prover::proof_stats::merged;
use crate::prover::proof_stats::FrozenProofStats;
use crate::prover::proof_step::StepRecord;
use crate::types::LiteralModel;
use crate::types::SymbolModel;
use vstd::prelude::*;

verus! {

/// A pending goal: the clause to resolve and the steps that led to it, none
/// for a clause of the negated goal.
pub struct ItemModel {
    pub goal: Seq<LiteralModel>,
    pub chain: Option<Seq<StepRecord>>,
}

/// A recorded proof: the running similarity and the depth of its last step,
/// its steps, and the shared counters at the time it was recorded.
pub struct LeafModel {
    pub similarity: u64,
    pub depth: usize,
    pub chain: Seq<StepRecord>,
    pub stats: FrozenProofStats,
}

/// What the whole search shares.
pub struct SearchModel {
    pub leaves: Seq<LeafModel>,
    pub floor: u64,
    pub stats: FrozenProofStats,
    pub cache: Option<Map<u64, u64>>,
    pub seen: Map<u64, (usize, u64)>,
}

/// What a batch at work keeps for itself.
pub struct WorkerModel {
    pub stats: FrozenProofStats,
    pub cache: Option<Map<u64, u64>>,
}

/// The state of a batch at work: the shared state, the batch's own, and the
/// goals gathered for the next round.
pub struct Progress {
    pub search: SearchModel,
    pub worker: WorkerModel,
    pub pending: Seq<ItemModel>,
}

/// What a search is given.
pub struct SearchEnv {
    pub raw: spec_fn(SymbolModel, SymbolModel) -> u64,
    pub pattern: Seq<char>,
    pub knowledge: Seq<Seq<LiteralModel>>,
    pub max_proof_depth: usize,
    pub max_resolution_attempts: Option<usize>,
    pub max_resolvent_width: Option<usize>,
    pub find_highest_similarity_proofs: bool,
    pub eval_batch_size: usize,
    pub max_proofs: Option<usize>,
    pub skip_seen_resolvents: bool,
}

/// `a` ranks strictly after `b`: it is less similar, or as similar and
/// deeper.
pub open spec fn leaf_ranks_after(a: LeafModel, b: LeafModel) -> bool {
    a.similarity < b.similarity || (a.similarity == b.similarity && a.depth > b.depth)
}

/// The first position at or after `from` whose leaf ranks strictly after
/// `leaf`; the length of the list if there is none.
pub open spec fn leaf_position(leaves: Seq<LeafModel>, leaf: LeafModel, from: int) -> int
    decreases leaves.len() - from,
{
    if from < 0 || from >= leaves.len() {
        leaves.len() as int
    } else if leaf_ranks_after(leaves[from], leaf) {
        from
    } else {
        leaf_position(leaves, leaf, from + 1)
    }
}

/// The list with `leaf` behind every leaf that does not rank strictly after
/// it.
pub open spec fn with_leaf(leaves: Seq<LeafModel>, leaf: LeafModel) -> Seq<LeafModel> {
    leaves.insert(leaf_position(leaves, leaf, 0), leaf)
}

/// The shared state after the proof with the steps `chain` is recorded: the
/// proof is put in its place; if the list is then longer than `max_proofs`,
/// its last proof is dropped, the drop is counted, and the floor is raised
/// to the similarity of the new last proof, if it was below that.
pub open spec fn record_leaf(
    max_proofs: Option<usize>,
    search: SearchModel,
    chain: Seq<StepRecord>,
) -> SearchModel {
    let leaf = LeafModel {
        similarity: chain.last().running_similarity,
        depth: chain.last().depth,
        chain,
        stats: search.stats,
    };
    let grown = with_leaf(search.leaves, leaf);
    if max_proofs is Some && grown.len() > max_proofs->0 {
        SearchModel {
            leaves: grown.drop_last(),
            floor: if grown.len() > 1 {
                higher(search.floor, grown[grown.len() - 2].similarity)
            } else {
                search.floor
            },
            stats: FrozenProofStats {
                discarded_proofs: search.stats.discarded_proofs.wrapping_add(1),
                ..search.stats
            },
            cache: search.cache,
            seen: search.seen,
        }
    } else {
        SearchModel { leaves: grown, ..search }
    }
}

/// The chain of a step: the chain of the goal it started from, and the step.
pub open spec fn extend_chain(parent: Option<Seq<StepRecord>>, record: StepRecord) -> Seq<
    StepRecord,
> {
    match parent {
        Some(chain) => chain.push(record),
        None => seq![record],
    }
}

/// The running similarity and the depth of the last step of a goal's chain.
pub open spec fn chain_summary(chain: Option<Seq<StepRecord>>) -> Option<(u64, usize)> {
    match chain {
        Some(steps) => Some((steps.last().running_similarity, steps.last().depth)),
        None => None,
    }
}

/// The depth at which a goal is expanded.
pub open spec fn item_depth(item: ItemModel) -> usize {
    match item.chain {
        Some(steps) => steps.last().depth,
        None => 0,
    }
}

/// The state with the resolvent of the last step of `chain` gathered as a
/// pending goal, and the width of the resolvent noted.
pub open spec fn gathered(progress: Progress, chain: Seq<StepRecord>) -> Progress {
    let step = chain.last();
    Progress {
        search: progress.search,
        worker: WorkerModel {
            stats: FrozenProofStats {
                max_resolvent_width_seen: larger(
                    progress.worker.stats.max_resolvent_width_seen,
                    step.resolvent.len() as usize,
                ),
                ..progress.worker.stats
            },
            cache: progress.worker.cache,
        },
        pending: progress.pending.push(ItemModel { goal: step.resolvent, chain: Some(chain) }),
    }
}

/// What becomes of a new step, the last of `chain`, and the hashes that are
/// left.  A step whose resolvent has no literals is recorded as a proof.
/// Any other step becomes a pending goal if the depth allows another round,
/// if its running similarity is above `threshold`, and if the check for
/// seen resolvents lets it pass: the check takes the next hash as the hash
/// of the resolvent, holds the step against what is on record under it, and
/// brings the record up to date.
pub open spec fn deal_with(
    env: SearchEnv,
    depth: usize,
    threshold: u64,
    progress: Progress,
    chain: Seq<StepRecord>,
    hashes: Seq<u64>,
) -> (Progress, Seq<u64>) {
    let step = chain.last();
    if step.resolvent.len() == 0 {
        (Progress { search: record_leaf(env.max_proofs, progress.search, chain), ..progress }, hashes)
    } else if depth + 1 < env.max_proof_depth && step.running_similarity > threshold {
        if !env.skip_seen_resolvents {
            (gathered(progress, chain), hashes)
        } else if hashes.len() == 0 {
            (progress, hashes)
        } else {
            let (fresh, seen) = admission(
                progress.search.seen,
                hashes[0],
                step.depth,
                step.running_similarity,
            );
            let checked = Progress { search: SearchModel { seen, ..progress.search }, ..progress };
            if fresh {
                (gathered(checked, chain), hashes.skip(1))
            } else {
                (checked, hashes.skip(1))
            }
        }
    } else {
        (progress, hashes)
    }
}

/// What becomes of the first `n` of the steps that a resolution gave, and
/// the hashes that are left.
pub open spec fn dealt_upto(
    env: SearchEnv,
    depth: usize,
    threshold: u64,
    progress: Progress,
    parent: Option<Seq<StepRecord>>,
    steps: Seq<StepRecord>,
    n: int,
    hashes: Seq<u64>,
) -> (Progress, Seq<u64>)
    decreases n,
{
    if n <= 0 || n > steps.len() {
        (progress, hashes)
    } else {
        let (before, left) = dealt_upto(env, depth, threshold, progress, parent, steps, n - 1, hashes);
        deal_with(env, depth, threshold, before, extend_chain(parent, steps[n - 1]), left)
    }
}

/// Whether a clause is too wide to resolve the goal against.
pub open spec fn too_wide(env: SearchEnv, goal: Seq<LiteralModel>, clause: Seq<LiteralModel>) -> bool {
    env.max_resolvent_width matches Some(width) && clause.len() + goal.len() > width + 2
}

/// The state after the goal is resolved against `clause` and the steps are
/// dealt with, whether there was any step, and the hashes that are left.  A
/// clause that is too wide is passed over.  The floor that the steps are
/// held against is the floor at the time the resolution is done.
pub open spec fn expand_against(
    env: SearchEnv,
    item: ItemModel,
    progress: Progress,
    clause: Seq<LiteralModel>,
    hashes: Seq<u64>,
) -> (Progress, bool, Seq<u64>) {
    if too_wide(env, item.goal, clause) {
        (progress, false, hashes)
    } else {
        let outcome = resolve_spec(
            env.raw,
            progress.search.floor,
            env.pattern,
            item.goal,
            clause,
            chain_summary(item.chain),
            MemoModel { local: progress.worker.cache, shared: progress.search.cache },
            progress.worker.stats,
        );
        let resolved = Progress {
            search: SearchModel { cache: outcome.memo.shared, ..progress.search },
            worker: WorkerModel { stats: outcome.stats, cache: outcome.memo.local },
            pending: progress.pending,
        };
        let (after, left) = dealt_upto(
            env,
            item_depth(item),
            progress.search.floor,
            resolved,
            item.chain,
            outcome.steps,
            outcome.steps.len() as int,
            hashes,
        );
        (after, outcome.steps.len() > 0, left)
    }
}

/// The state after the goal is resolved against the first `n` clauses of
/// the knowledge, the number of clauses that gave a step, and the hashes
/// that are left.
pub open spec fn expand_upto(
    env: SearchEnv,
    item: ItemModel,
    progress: Progress,
    n: int,
    hashes: Seq<u64>,
) -> (Progress, usize, Seq<u64>)
    decreases n,
{
    if n <= 0 || n > env.knowledge.len() {
        (progress, 0, hashes)
    } else {
        let (before, successes, left) = expand_upto(env, item, progress, n - 1, hashes);
        let (after, success, rest) = expand_against(env, item, before, env.knowledge[n - 1], left);
        (
            after,
            if success {
                (successes + 1) as usize
            } else {
                successes
            },
            rest,
        )
    }
}

/// Whether a pending goal is passed over.
pub open spec fn passes_over(env: SearchEnv, item: ItemModel, search: SearchModel) -> bool {
    ||| item.chain is Some && item_depth(item) >= env.max_proof_depth
    ||| env.max_resolution_attempts matches Some(most) && search.stats.attempted_resolutions
        >= most
    ||| env.max_proofs matches Some(most) && !env.find_highest_similarity_proofs
        && search.leaves.len() >= most
    ||| item.goal.len() == 0
}

/// The state after a pending goal is expanded, and the hashes that are
/// left.  A goal that is passed over changes nothing.  For any other goal
/// the depth is noted, the goal is resolved against every clause of the
/// knowledge, and the resolutions are counted: one attempt for each clause,
/// one success for each clause that gave a step.
pub open spec fn expand(env: SearchEnv, item: ItemModel, progress: Progress, hashes: Seq<u64>) -> (
    Progress,
    Seq<u64>,
) {
    if passes_over(env, item, progress.search) {
        (progress, hashes)
    } else {
        let started = Progress {
            search: progress.search,
            worker: WorkerModel {
                stats: FrozenProofStats {
                    max_depth_seen: larger(
                        progress.worker.stats.max_depth_seen,
                        (item_depth(item) + 1) as usize,
                    ),
                    ..progress.worker.stats
                },
                cache: progress.worker.cache,
            },
            pending: progress.pending,
        };
        let (after, successes, left) = expand_upto(
            env,
            item,
            started,
            env.knowledge.len() as int,
            hashes,
        );
        (
            Progress {
                search: after.search,
                worker: WorkerModel {
                    stats: FrozenProofStats {
                        attempted_resolutions: after.worker.stats.attempted_resolutions.wrapping_add(
                            env.knowledge.len() as usize,
                        ),
                        successful_resolutions: after.worker.stats.successful_resolutions.wrapping_add(
                            successes,
                        ),
                        ..after.worker.stats
                    },
                    cache: after.worker.cache,
                },
                pending: after.pending,
            },
            left,
        )
    }
}

/// The state of a round: that of the batch at work, and the batches set
/// apart so far.
pub struct RoundModel {
    pub progress: Progress,
    pub spawned: Seq<Seq<ItemModel>>,
}

/// The state of a round after the first `n` goals of the batch are
/// expanded, and the hashes that are left.  Whenever `eval_batch_size` goals
/// or more are gathered, the first `eval_batch_size` of them are set apart
/// as a batch of their own.
pub open spec fn round_upto(
    env: SearchEnv,
    batch: Seq<ItemModel>,
    start: RoundModel,
    n: int,
    hashes: Seq<u64>,
) -> (RoundModel, Seq<u64>)
    decreases n,
{
    if n <= 0 || n > batch.len() {
        (start, hashes)
    } else {
        let (before, left) = round_upto(env, batch, start, n - 1, hashes);
        let (expanded, rest) = expand(env, batch[n - 1], before.progress, left);
        if expanded.pending.len() >= env.eval_batch_size {
            (
                RoundModel {
                    progress: Progress {
                        pending: expanded.pending.skip(env.eval_batch_size as int),
                        ..expanded
                    },
                    spawned: before.spawned.push(
                        expanded.pending.take(env.eval_batch_size as int),
                    ),
                },
                rest,
            )
        } else {
            (RoundModel { progress: expanded, spawned: before.spawned }, rest)
        }
    }
}

/// The shared state and the batches set apart after a batch is worked
/// through, round by round, and the hashes that are left.  After each round
/// the batch's counts are added to the shared counters; the goals gathered
/// in a round are the batch of the next; the work ends with the first round
/// that gathers none.  No more than `rounds` further rounds are worked.
pub open spec fn batch_outcome(
    env: SearchEnv,
    batch: Seq<ItemModel>,
    search: SearchModel,
    worker: WorkerModel,
    spawned: Seq<Seq<ItemModel>>,
    rounds: int,
    hashes: Seq<u64>,
) -> (SearchModel, Seq<Seq<ItemModel>>, Seq<u64>)
    decreases rounds,
{
    let (round, left) = round_upto(
        env,
        batch,
        RoundModel { progress: Progress { search, worker, pending: Seq::empty() }, spawned },
        batch.len() as int,
        hashes,
    );
    let synced = SearchModel {
        stats: merged(round.progress.search.stats, round.progress.worker.stats),
        ..round.progress.search
    };
    let rested = WorkerModel { stats: FrozenProofStats::zero(), cache: round.progress.worker.cache };
    if round.progress.pending.len() == 0 || rounds <= 0 {
        (synced, round.spawned, left)
    } else {
        batch_outcome(env, round.progress.pending, synced, rested, round.spawned, rounds - 1, left)
    }
}

/// What a batch starts with: no counts, and an empty cache if the search
/// caches similarities at all.
pub open spec fn fresh_worker(search: SearchModel) -> WorkerModel {
    WorkerModel {
        stats: FrozenProofStats::zero(),
        cache: if search.cache is Some {
            Some(Map::empty())
        } else {
            None
        },
    }
}

/// The shared state after a batch is run, and then the batches that were
/// set apart while it ran, the latest first, each with all that it sets
/// apart in turn; and the hashes that are left.
pub open spec fn run_outcome(
    env: SearchEnv,
    batch: Seq<ItemModel>,
    search: SearchModel,
    rounds: int,
    hashes: Seq<u64>,
) -> (SearchModel, Seq<u64>)
    decreases rounds, 0int,
{
    if rounds <= 0 {
        (search, hashes)
    } else {
        let (after, spawned, left) = batch_outcome(
            env,
            batch,
            search,
            fresh_worker(search),
            Seq::empty(),
            rounds,
            hashes,
        );
        run_spawned(env, spawned, after, rounds - 1, spawned.len() as int, left)
    }
}

/// The shared state after the first `n` of the batches set apart are run,
/// the last of them first, and the hashes that are left.  A batch without
/// goals is passed over.
pub open spec fn run_spawned(
    env: SearchEnv,
    spawned: Seq<Seq<ItemModel>>,
    search: SearchModel,
    rounds: int,
    n: int,
    hashes: Seq<u64>,
) -> (SearchModel, Seq<u64>)
    decreases rounds, n + 1,
{
    if n <= 0 || n > spawned.len() {
        (search, hashes)
    } else {
        let chunk = spawned[n - 1];
        let (after, left) = if chunk.len() > 0 {
            run_outcome(env, chunk, search, rounds, hashes)
        } else {
            (search, hashes)
        };
        run_spawned(env, spawned, after, rounds, n - 1, left)
    }
}

/// A proof as a search hands it on: its goal, its similarity, the counters
/// at the time it was found, and its steps.
pub struct ProofModel {
    pub goal: Seq<LiteralModel>,
    pub similarity: u64,
    pub stats: FrozenProofStats,
    pub chain: Seq<StepRecord>,
}

/// The proofs that a search hands on: the recorded ones in rank order, and
/// no more than `max_proofs` of them.
pub open spec fn proofs_of(leaves: Seq<LeafModel>, max_proofs: Option<usize>) -> Seq<ProofModel> {
    let wanted = match max_proofs {
        Some(most) => if most < leaves.len() {
            most as int
        } else {
            leaves.len() as int
        },
        None => leaves.len() as int,
    };
    Seq::new(
        wanted as nat,
        |i: int|
            ProofModel {
                goal: leaves[i].chain[0].source,
                similarity: leaves[i].chain.last().running_similarity,
                stats: leaves[i].stats,
                chain: leaves[i].chain,
            },
    )
}

/// The clauses of the negated goal as the first batch.
pub open spec fn root_items(goals: Seq<Seq<LiteralModel>>) -> Seq<ItemModel> {
    Seq::new(goals.len(), |i: int| ItemModel { goal: goals[i], chain: None })
}

/// What a search comes to: its proofs, its counters, and the similarities
/// that are cached after it.
pub struct SearchOutcome {
    pub proofs: Seq<ProofModel>,
    pub stats: FrozenProofStats,
    pub cache: Option<Map<u64, u64>>,
}

/// The search.  `goals` are the clauses of the negated goal in ascending
/// order, `env.knowledge` all the clauses to resolve against in ascending
/// order, `floor` the floor to start with, `cache` the similarities that
/// are cached beforehand, and `hashes` the hashes that the checks for seen
/// resolvents come upon, in order.
pub open spec fn search_outcome(
    env: SearchEnv,
    goals: Seq<Seq<LiteralModel>>,
    floor: u64,
    cache: Option<Map<u64, u64>>,
    hashes: Seq<u64>,
) -> SearchOutcome {
    if goals.len() == 0 {
        SearchOutcome { proofs: Seq::empty(), stats: FrozenProofStats::zero(), cache }
    } else {
        let start = SearchModel {
            leaves: Seq::empty(),
            floor,
            stats: FrozenProofStats::zero(),
            cache,
            seen: Map::empty(),
        };
        let end = run_outcome(env, root_items(goals), start, env.max_proof_depth + 1, hashes).0;
        SearchOutcome {
            proofs: proofs_of(end.leaves, env.max_proofs),
            stats: end.stats,
            cache: end.cache,
        }
    }
}

/// The search comes upon the hashes `hashes` and no others: every check for
/// a seen resolvent finds its hash there, and given more hashes the search
/// ends in the same state and leaves what it was given more.
pub open spec fn search_takes(
    env: SearchEnv,
    goals: Seq<Seq<LiteralModel>>,
    floor: u64,
    cache: Option<Map<u64, u64>>,
    hashes: Seq<u64>,
) -> bool {
    if goals.len() == 0 {
        hashes.len() == 0
    } else {
        let start = SearchModel {
            leaves: Seq::empty(),
            floor,
            stats: FrozenProofStats::zero(),
            cache,
            seen: Map::empty(),
        };
        let end = run_outcome(env, root_items(goals), start, env.max_proof_depth + 1, hashes).0;
        forall|rest: Seq<u64>|
            #[trigger] run_outcome(
                env,
                root_items(goals),
                start,
                env.max_proof_depth + 1,
                hashes + rest,
            ) == (end, rest)
    }
}

proof fn lemma_leaf_position_in_range(leaves: Seq<LeafModel>, leaf: LeafModel, from: int)
    requires
        0 <= from <= leaves.len(),
    ensures
        from <= leaf_position(leaves, leaf, from) <= leaves.len(),
    decreases leaves.len() - from,
{
    if from < leaves.len() && !leaf_ranks_after(leaves[from], leaf) {
        lemma_leaf_position_in_range(leaves, leaf, from + 1);
    }
}

/// A step whose resolvent has no literals is recorded as a proof, once: the
/// list of proofs gets the proof as one more entry before it is cut to
/// `max_proofs`, the step becomes no pending goal, the batch's own state
/// stays, and no hash is used.  The proof has one step at least.
pub proof fn lemma_empty_resolvent_is_recorded_once(
    env: SearchEnv,
    depth: usize,
    threshold: u64,
    progress: Progress,
    chain: Seq<StepRecord>,
    hashes: Seq<u64>,
)
    requires
        chain.len() >= 1,
        chain.last().resolvent.len() == 0,
    ensures
        deal_with(env, depth, threshold, progress, chain, hashes) == (
            Progress { search: record_leaf(env.max_proofs, progress.search, chain), ..progress },
            hashes,
        ),
        ({
            let leaf = LeafModel {
                similarity: chain.last().running_similarity,
                depth: chain.last().depth,
                chain,
                stats: progress.search.stats,
            };
            let grown = with_leaf(progress.search.leaves, leaf);
            &&& grown.len() == progress.search.leaves.len() + 1
            &&& grown[leaf_position(progress.search.leaves, leaf, 0)] == leaf
            &&& record_leaf(env.max_proofs, progress.search, chain).leaves == (if env.max_proofs
                is Some && grown.len() > env.max_proofs->0 {
                grown.drop_last()
            } else {
                grown
            })
        }),
{
    let leaf = LeafModel {
        similarity: chain.last().running_similarity,
        depth: chain.last().depth,
        chain,
        stats: progress.search.stats,
    };
    lemma_leaf_position_in_range(progress.search.leaves, leaf, 0);
}

} // verus!
