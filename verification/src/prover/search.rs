//! The search for refutations.
//!
//! A search starts from the clauses of the negated goal.  It resolves each
//! pending goal on its least literal against every clause of the knowledge;
//! a resolvent without literals is a finished proof, any other resolvent is
//! a goal of the next round.  The search is cut off by the depth of a proof,
//! by the width of a resolvent, by the number of resolutions attempted and by
//! the number of proofs asked for.
//!
//! Each function here keeps the search sound, whatever the check for seen
//! resolvents decides; and without that check it does exactly what the model
//! of the search says.

use crate::prover::finished_proof::Proof;
use crate::prover::operations::fresh_names::VarNamePattern;
use crate::prover::operations::resolve::lemma_resolve_counters;
use crate::prover::operations::resolve::parent_link;
use crate::prover::operations::resolve::parent_summary;
use crate::prover::operations::resolve::resolve;
use crate::prover::operations::resolve::resolve_spec;
use crate::prover::operations::resolve::step_resolves;
use crate::prover::proof_context::admission;
use crate::prover::proof_context::LocalProofContext;
use crate::prover::proof_context::SharedProofContext;
use crate::prover::proof_stats::larger;
use crate::prover::proof_stats::FrozenProofStats;
use crate::prover::proof_step::ancestry;
use crate::prover::proof_step::ProofStep;
use crate::prover::proof_step::ProofStepNode;
use crate::prover::proof_step::StepRecord;
use crate::prover::search_config::BatchItem;
use crate::prover::search_config::ResolutionProverConfig;
use crate::prover::search_model::batch_outcome;
use crate::prover::search_model::deal_with;
use crate::prover::search_model::dealt_upto;
use crate::prover::search_model::expand;
use crate::prover::search_model::expand_against;
use crate::prover::search_model::expand_upto;
use crate::prover::search_model::extend_chain;
use crate::prover::search_model::fresh_worker;
use crate::prover::search_model::round_upto;
use crate::prover::search_model::run_outcome;
use crate::prover::search_model::run_spawned;
use crate::prover::search_model::gathered;
use crate::prover::search_model::chain_summary;
use crate::prover::search_model::proofs_of;
use crate::prover::search_model::root_items;
use crate::prover::search_model::ItemModel;
use crate::prover::search_model::Progress;
use crate::prover::search_model::RoundModel;
use crate::prover::search_model::SearchEnv;
use crate::prover::search_soundness::chain_above;
use crate::prover::search_soundness::is_refutation;
use crate::prover::search_soundness::item_above;
use crate::prover::search_soundness::items_above;
use crate::prover::search_soundness::leaves_above;
use crate::prover::search_soundness::lemma_chain_above;
use crate::prover::search_soundness::lemma_resolve_steps_above;
use crate::prover::search_soundness::lemma_inserted_entries;
use crate::prover::search_soundness::lemma_resolve_steps;
use crate::prover::search_soundness::lemma_sound_chain;
use crate::prover::search_soundness::rounds_left;
use crate::prover::search_soundness::sound_chain;
use crate::prover::search_soundness::sound_item;
use crate::prover::search_soundness::sound_items;
use crate::prover::search_soundness::sound_leaf;
use crate::prover::search_soundness::sound_leaves;
use crate::prover::search_soundness::within_rounds;
use crate::prover::search_views::batches_view;
use crate::prover::search_views::chain_of;
use crate::prover::search_views::env_of;
use crate::prover::search_views::item_view;
use crate::prover::search_views::leaves_view;
use crate::prover::search_views::proofs_view;
use crate::prover::search_views::items_view;
use crate::prover::search_views::lemma_ancestry_last;
use crate::prover::search_views::lemma_recorded_view;
use crate::prover::search_views::progress_view;
use crate::prover::search_views::search_view;
use crate::prover::search_views::worker_view;
use crate::types::CNFDisjunction;
use crate::types::LiteralModel;
use crate::util::clause_set::ClauseSet;
use crate::util::py_arc_item::PyArcItem;
use vstd::prelude::*;

verus! {

/// What stays the same throughout a search: what the search is given, and
/// the clauses of the negated goal.
pub struct SearchFrame {
    pub env: SearchEnv,
    pub goals: Set<Seq<LiteralModel>>,
    /// The floor that the search started with.
    pub floor: u64,
}

/// The frame is that of a search with these bounds, this knowledge and
/// this shared state, and the comparator is fit for use.
pub open spec fn frame_holds<F: Fn(&String, Option<u64>, &String, Option<u64>) -> u64>(
    frame: SearchFrame,
    config: &ResolutionProverConfig,
    knowledge: Seq<Seq<LiteralModel>>,
    pattern: Seq<char>,
    shared: &SharedProofContext<F>,
) -> bool {
    &&& frame.env == env_of(config, knowledge, pattern, shared)
    &&& shared.comparator_ok()
}

/// No hashes.
pub open spec fn no_hashes() -> Seq<u64> {
    Seq::empty()
}

/// The proofs recorded and the goals gathered are sound, with every step
/// above the floor that the search started with; the floor has not sunk;
/// and the goals leave no more than `bound` rounds.
pub open spec fn state_sound<F: Fn(&String, Option<u64>, &String, Option<u64>) -> u64>(
    frame: SearchFrame,
    shared: &SharedProofContext<F>,
    pending: Seq<BatchItem>,
    bound: int,
) -> bool {
    &&& sound_leaves(
        shared.scored_leaf_proof_steps@,
        frame.env.pattern,
        frame.env.knowledge.to_set(),
        frame.goals,
    )
    &&& sound_items(pending, frame.env.pattern, frame.env.knowledge.to_set(), frame.goals)
    &&& within_rounds(pending, frame.env.max_proof_depth, bound)
    &&& shared.min_similarity_threshold >= frame.floor
    &&& leaves_above(shared.scored_leaf_proof_steps@, frame.floor)
    &&& items_above(pending, frame.floor)
}

/// `after` has the setup of `before`: the same number of proofs asked for,
/// the same comparator, and the same choices for the check of seen
/// resolvents and for caching.
pub open spec fn same_setup<F: Fn(&String, Option<u64>, &String, Option<u64>) -> u64>(
    before: &SharedProofContext<F>,
    after: &SharedProofContext<F>,
) -> bool {
    &&& after.max_proofs == before.max_proofs
    &&& after.skip_seen_resolvents == before.skip_seen_resolvents
    &&& after.similarity_fn == before.similarity_fn
    &&& after.similarity_cache is Some == before.similarity_cache is Some
}

/// `after` holds the items of `before` and perhaps more behind them.
pub open spec fn extends(before: Seq<BatchItem>, after: Seq<BatchItem>) -> bool {
    after.len() >= before.len() && after.take(before.len() as int) == before
}

/// The depth at which a pending goal is expanded: that of the step behind
/// it, and 0 for a clause of the negated goal.
pub open spec fn goal_depth(parent_state: Option<ProofStepNode>) -> usize {
    match parent_state {
        Some(parent) => parent.inner.depth,
        None => 0,
    }
}

/// A pending goal is passed over, and nothing at all is done for it: if it
/// was reached in `max_proof_depth` steps or more; once
/// `max_resolution_attempts` resolutions are on the shared counter; once
/// there are `max_proofs` proofs and better ones are not looked for; and if
/// it has no literals.
pub open spec fn passed_over<F: Fn(&String, Option<u64>, &String, Option<u64>) -> u64>(
    goal: PyArcItem<CNFDisjunction>,
    parent_state: Option<ProofStepNode>,
    config: &ResolutionProverConfig,
    shared: &SharedProofContext<F>,
) -> bool {
    ||| parent_state is Some && goal_depth(parent_state) >= config.max_proof_depth
    ||| config.max_resolution_attempts matches Some(most) && shared.stats.attempted_resolutions
        >= most
    ||| shared.max_proofs matches Some(most) && !config.find_highest_similarity_proofs
        && shared.scored_leaf_proof_steps@.len() >= most
    ||| goal.item@.len() == 0
}

/// Deals with one new step.  A step whose resolvent has no literals is a
/// finished proof and is recorded, once.  Any other step becomes a pending
/// goal, provided that the depth allows another round, that its running
/// similarity is above `threshold`, and that the check for seen resolvents
/// lets it pass; the width of its resolvent is then noted.
///
/// Hands back the hashes that its checks came upon: with them the model
/// does what was done here.
fn admit_step<F: Fn(&String, Option<u64>, &String, Option<u64>) -> u64>(
    next_step: ProofStepNode,
    depth: usize,
    threshold: u64,
    config: &ResolutionProverConfig,
    ctx: &mut LocalProofContext,
    shared: &mut SharedProofContext<F>,
    results_accumulator: &mut Vec<BatchItem>,
    Ghost(frame): Ghost<SearchFrame>,
    Ghost(bound): Ghost<int>,
) -> (consumed: Ghost<Seq<u64>>)
    requires
        frame.env.max_proof_depth == config.max_proof_depth,
        frame.env.max_proofs == old(shared).max_proofs,
        frame.env.skip_seen_resolvents == old(shared).skip_seen_resolvents,
        state_sound(frame, old(shared), old(results_accumulator)@, bound),
        sound_chain(
            *next_step.inner,
            frame.env.pattern,
            frame.env.knowledge.to_set(),
            frame.goals,
        ),
        chain_above(*next_step.inner, frame.floor),
        next_step.inner.depth <= depth + 1,
        config.max_proof_depth - next_step.inner.depth <= bound,
    ensures
        forall|rest: Seq<u64>|
            #[trigger] deal_with(
                frame.env,
                depth,
                threshold,
                progress_view(old(shared), old(ctx), old(results_accumulator)@),
                ancestry(*next_step.inner),
                consumed@ + rest,
            ) == (progress_view(final(shared), final(ctx), final(results_accumulator)@), rest),
        !old(shared).skip_seen_resolvents ==> consumed@ == no_hashes(),
        next_step.inner@.resolvent.len() == 0 ==> old(shared).leaf_recorded(
            final(shared),
            next_step,
        ) && final(results_accumulator)@ == old(results_accumulator)@ && *final(ctx) == *old(ctx),
        final(ctx).stats == (FrozenProofStats {
            max_resolvent_width_seen: final(ctx).stats.max_resolvent_width_seen,
            ..old(ctx).stats
        }),
        final(ctx).stats.max_resolvent_width_seen >= old(ctx).stats.max_resolvent_width_seen,
        final(ctx).cache() == old(ctx).cache(),
        final(shared).similarity_cache == old(shared).similarity_cache,
        extends(old(results_accumulator)@, final(results_accumulator)@),
        same_setup(old(shared), final(shared)),
        state_sound(frame, final(shared), final(results_accumulator)@, bound),
{
    let ghost before = progress_view(shared, ctx, results_accumulator@);
    let ghost chain = chain_of(next_step);
    proof {
        lemma_ancestry_last(&*next_step.inner);
        assert(results_accumulator@.take(results_accumulator@.len() as int)
            =~= results_accumulator@);
    }
    if next_step.inner.resolvent.item.literals.is_empty() {
        proof {
            let entry = (
                next_step.inner.running_similarity,
                next_step.inner.depth,
                next_step,
                shared.stats@,
            );
            lemma_inserted_entries(shared.scored_leaf_proof_steps@, entry);
            let grown = crate::prover::leaf_proofs::inserted(shared.scored_leaf_proof_steps@, entry);
            lemma_chain_above(
                &*next_step.inner,
                frame.env.pattern,
                frame.env.knowledge.to_set(),
                frame.goals,
                frame.floor,
            );
            assert forall|i: int| 0 <= i < grown.len() implies chain_above(
                *(#[trigger] grown[i]).2.inner,
                frame.floor,
            ) && grown[i].0 > frame.floor by {
                if grown[i] != entry {
                    let k = choose|k: int|
                        0 <= k < shared.scored_leaf_proof_steps@.len()
                            && shared.scored_leaf_proof_steps@[k] == grown[i];
                    assert(sound_leaf(
                        shared.scored_leaf_proof_steps@[k],
                        frame.env.pattern,
                        frame.env.knowledge.to_set(),
                        frame.goals,
                    ));
                    lemma_chain_above(
                        &*grown[i].2.inner,
                        frame.env.pattern,
                        frame.env.knowledge.to_set(),
                        frame.goals,
                        frame.floor,
                    );
                }
            }
        }
        let ghost earlier = *shared;
        shared.record_leaf_proof(next_step);
        proof {
            lemma_recorded_view(&earlier, &*shared, next_step);
            assert forall|rest: Seq<u64>|
                #[trigger] deal_with(frame.env, depth, threshold, before, chain, no_hashes() + rest)
                    == (progress_view(shared, ctx, results_accumulator@), rest) by {
                assert(no_hashes() + rest =~= rest);
            }
        }
        return Ghost(no_hashes());
    }
    if !(depth < config.max_proof_depth && depth + 1 < config.max_proof_depth)
        || next_step.inner.running_similarity <= threshold {
        proof {
            assert forall|rest: Seq<u64>|
                #[trigger] deal_with(frame.env, depth, threshold, before, chain, no_hashes() + rest)
                    == (progress_view(shared, ctx, results_accumulator@), rest) by {
                assert(no_hashes() + rest =~= rest);
            }
        }
        return Ghost(no_hashes());
    }
    let ghost seen_before = shared.seen();
    let fresh = ctx.check_resolvent(shared, &next_step.inner);
    let ghost consumed = if shared.skip_seen_resolvents {
        let hash = choose|hash: u64|
            (fresh, shared.seen()) == #[trigger] admission(
                seen_before,
                hash,
                next_step.inner.depth,
                next_step.inner.running_similarity,
            );
        seq![hash]
    } else {
        no_hashes()
    };
    let ghost checked = progress_view(shared, ctx, results_accumulator@);
    if !fresh {
        proof {
            assert forall|rest: Seq<u64>|
                #[trigger] deal_with(frame.env, depth, threshold, before, chain, consumed + rest)
                    == (progress_view(shared, ctx, results_accumulator@), rest) by {
                assert((consumed + rest).skip(1) =~= rest);
                assert((consumed + rest)[0] == consumed[0]);
            }
        }
        return Ghost(consumed);
    }
    let resolvent_width = next_step.inner.resolvent.item.literals.len();
    if resolvent_width > ctx.stats.max_resolvent_width_seen {
        ctx.stats.max_resolvent_width_seen = resolvent_width;
    }
    let item: BatchItem = (next_step.inner.resolvent.clone(), Some(next_step));
    let ghost already = results_accumulator@;
    results_accumulator.push(item);
    proof {
        assert(results_accumulator@.take(already.len() as int) =~= already);
        assert(items_view(results_accumulator@) =~= items_view(already).push(item_view(item)));
        assert(progress_view(shared, ctx, results_accumulator@) == gathered(checked, chain));
        assert forall|rest: Seq<u64>|
            #[trigger] deal_with(frame.env, depth, threshold, before, chain, consumed + rest) == (
                progress_view(shared, ctx, results_accumulator@),
                rest,
            ) by {
            if shared.skip_seen_resolvents {
                assert((consumed + rest).skip(1) =~= rest);
                assert((consumed + rest)[0] == consumed[0]);
            } else {
                assert(consumed + rest =~= rest);
            }
        }
    }
    Ghost(consumed)
}

/// The chains of the steps that came of one resolution: each is the chain
/// of the goal with the step behind it.
pub open spec fn chains_follow(
    next_steps: Seq<ProofStepNode>,
    parent: Option<Seq<StepRecord>>,
    records: Seq<StepRecord>,
) -> bool {
    &&& next_steps.len() == records.len()
    &&& forall|k: int|
        0 <= k < next_steps.len() ==> ancestry(*(#[trigger] next_steps[k]).inner) == extend_chain(
            parent,
            records[k],
        )
}

/// Deals with the steps that came of one resolution, in order.
fn admit_steps<F: Fn(&String, Option<u64>, &String, Option<u64>) -> u64>(
    next_steps: &Vec<ProofStepNode>,
    depth: usize,
    threshold: u64,
    config: &ResolutionProverConfig,
    ctx: &mut LocalProofContext,
    shared: &mut SharedProofContext<F>,
    results_accumulator: &mut Vec<BatchItem>,
    Ghost(frame): Ghost<SearchFrame>,
    Ghost(bound): Ghost<int>,
    Ghost(parent): Ghost<Option<Seq<StepRecord>>>,
    Ghost(records): Ghost<Seq<StepRecord>>,
) -> (consumed: Ghost<Seq<u64>>)
    requires
        frame.env.max_proof_depth == config.max_proof_depth,
        frame.env.max_proofs == old(shared).max_proofs,
        frame.env.skip_seen_resolvents == old(shared).skip_seen_resolvents,
        state_sound(frame, old(shared), old(results_accumulator)@, bound),
        chains_follow(next_steps@, parent, records),
        forall|k: int|
            0 <= k < next_steps.len() ==> sound_chain(
                *(#[trigger] next_steps[k]).inner,
                frame.env.pattern,
                frame.env.knowledge.to_set(),
                frame.goals,
            ) && next_steps[k].inner.depth <= depth + 1 && config.max_proof_depth
                - next_steps[k].inner.depth <= bound && chain_above(
                *next_steps[k].inner,
                frame.floor,
            ),
    ensures
        forall|rest: Seq<u64>|
            #[trigger] dealt_upto(
                frame.env,
                depth,
                threshold,
                progress_view(old(shared), old(ctx), old(results_accumulator)@),
                parent,
                records,
                records.len() as int,
                consumed@ + rest,
            ) == (progress_view(final(shared), final(ctx), final(results_accumulator)@), rest),
        !old(shared).skip_seen_resolvents ==> consumed@ == no_hashes(),
        final(ctx).stats == (FrozenProofStats {
            max_resolvent_width_seen: final(ctx).stats.max_resolvent_width_seen,
            ..old(ctx).stats
        }),
        final(ctx).stats.max_resolvent_width_seen >= old(ctx).stats.max_resolvent_width_seen,
        final(ctx).cache() == old(ctx).cache(),
        final(shared).similarity_cache == old(shared).similarity_cache,
        extends(old(results_accumulator)@, final(results_accumulator)@),
        same_setup(old(shared), final(shared)),
        state_sound(frame, final(shared), final(results_accumulator)@, bound),
{
    let ghost start = progress_view(shared, ctx, results_accumulator@);
    let ghost mut consumed = no_hashes();
    let mut k: usize = 0;
    proof {
        assert(results_accumulator@.take(results_accumulator@.len() as int)
            =~= results_accumulator@);
        assert forall|rest: Seq<u64>|
            #[trigger] dealt_upto(
                frame.env,
                depth,
                threshold,
                start,
                parent,
                records,
                0,
                consumed + rest,
            ) == (start, rest) by {
            assert(consumed + rest =~= rest);
        }
    }
    while k < next_steps.len()
        invariant
            k <= next_steps.len(),
            frame.env.max_proof_depth == config.max_proof_depth,
            frame.env.max_proofs == shared.max_proofs,
            frame.env.skip_seen_resolvents == shared.skip_seen_resolvents,
            start == progress_view(old(shared), old(ctx), old(results_accumulator)@),
            chains_follow(next_steps@, parent, records),
            forall|j: int|
                0 <= j < next_steps.len() ==> sound_chain(
                    *(#[trigger] next_steps[j]).inner,
                    frame.env.pattern,
                    frame.env.knowledge.to_set(),
                    frame.goals,
                ) && next_steps[j].inner.depth <= depth + 1 && config.max_proof_depth
                    - next_steps[j].inner.depth <= bound && chain_above(
                    *next_steps[j].inner,
                    frame.floor,
                ),
            forall|rest: Seq<u64>|
                #[trigger] dealt_upto(
                    frame.env,
                    depth,
                    threshold,
                    start,
                    parent,
                    records,
                    k as int,
                    consumed + rest,
                ) == (progress_view(shared, ctx, results_accumulator@), rest),
            !old(shared).skip_seen_resolvents ==> consumed == no_hashes(),
            ctx.stats == (FrozenProofStats {
                max_resolvent_width_seen: ctx.stats.max_resolvent_width_seen,
                ..old(ctx).stats
            }),
            ctx.stats.max_resolvent_width_seen >= old(ctx).stats.max_resolvent_width_seen,
            ctx.cache() == old(ctx).cache(),
            shared.similarity_cache == old(shared).similarity_cache,
            extends(old(results_accumulator)@, results_accumulator@),
            same_setup(old(shared), shared),
            state_sound(frame, shared, results_accumulator@, bound),
        decreases next_steps.len() - k,
    {
        let next_step = next_steps[k].clone();
        let ghost gathered_before = results_accumulator@;
        let ghost before = progress_view(shared, ctx, results_accumulator@);
        let ghost chain = chain_of(next_step);
        let used = admit_step(
            next_step,
            depth,
            threshold,
            config,
            ctx,
            shared,
            results_accumulator,
            Ghost(frame),
            Ghost(bound),
        );
        proof {
            assert(results_accumulator@.take(old(results_accumulator)@.len() as int)
                =~= gathered_before.take(old(results_accumulator)@.len() as int));
            let longer = consumed + used@;
            assert forall|rest: Seq<u64>|
                #[trigger] dealt_upto(
                    frame.env,
                    depth,
                    threshold,
                    start,
                    parent,
                    records,
                    k as int + 1,
                    longer + rest,
                ) == (progress_view(shared, ctx, results_accumulator@), rest) by {
                assert(longer + rest =~= consumed + (used@ + rest));
                assert(dealt_upto(
                    frame.env,
                    depth,
                    threshold,
                    start,
                    parent,
                    records,
                    k as int,
                    consumed + (used@ + rest),
                ) == (before, used@ + rest));
                assert(deal_with(frame.env, depth, threshold, before, chain, used@ + rest) == (
                    progress_view(shared, ctx, results_accumulator@),
                    rest,
                ));
            }
            consumed = longer;
            if !old(shared).skip_seen_resolvents {
                assert(consumed =~= no_hashes());
            }
        }
        k += 1;
    }
    Ghost(consumed)
}

/// Resolves a goal against one clause of the knowledge and deals with the
/// steps that come of it.  Says whether there was any step.  A clause whose
/// resolvent with the goal would be wider than `max_resolvent_width` is
/// passed over.
fn expand_goal_against<F: Fn(&String, Option<u64>, &String, Option<u64>) -> u64>(
    goal: &PyArcItem<CNFDisjunction>,
    parent_state: &Option<ProofStepNode>,
    clause: &PyArcItem<CNFDisjunction>,
    depth: usize,
    config: &ResolutionProverConfig,
    ctx: &mut LocalProofContext,
    shared: &mut SharedProofContext<F>,
    results_accumulator: &mut Vec<BatchItem>,
    pattern: &VarNamePattern,
    Ghost(frame): Ghost<SearchFrame>,
    Ghost(bound): Ghost<int>,
) -> (res: (bool, Ghost<Seq<u64>>))
    requires
        frame.env.pattern == pattern.source(),
        frame.env.raw == old(shared).raw(),
        frame.env.max_proof_depth == config.max_proof_depth,
        frame.env.max_resolvent_width == config.max_resolvent_width,
        frame.env.max_proofs == old(shared).max_proofs,
        frame.env.skip_seen_resolvents == old(shared).skip_seen_resolvents,
        old(shared).comparator_ok(),
        state_sound(frame, old(shared), old(results_accumulator)@, bound),
        sound_item(
            (*goal, *parent_state),
            frame.env.pattern,
            frame.env.knowledge.to_set(),
            frame.goals,
        ),
        item_above((*goal, *parent_state), frame.floor),
        frame.env.knowledge.to_set().contains(clause.item@),
        goal.item@.len() > 0,
        depth == goal_depth(*parent_state),
        parent_state is Some ==> depth < config.max_proof_depth,
        rounds_left((*goal, *parent_state), config.max_proof_depth) - 1 <= bound,
    ensures
        forall|rest: Seq<u64>|
            #[trigger] expand_against(
                frame.env,
                item_view((*goal, *parent_state)),
                progress_view(old(shared), old(ctx), old(results_accumulator)@),
                clause.item@,
                res.1@ + rest,
            ) == (progress_view(final(shared), final(ctx), final(results_accumulator)@), res.0, rest),
        !old(shared).skip_seen_resolvents ==> res.1@ == no_hashes(),
        final(ctx).stats.attempted_resolutions == old(ctx).stats.attempted_resolutions,
        final(ctx).stats.successful_resolutions == old(ctx).stats.successful_resolutions,
        final(ctx).stats.discarded_proofs == old(ctx).stats.discarded_proofs,
        final(ctx).stats.max_depth_seen == old(ctx).stats.max_depth_seen,
        final(ctx).stats.max_resolvent_width_seen >= old(ctx).stats.max_resolvent_width_seen,
        final(shared).comparator_ok(),
        extends(old(results_accumulator)@, final(results_accumulator)@),
        same_setup(old(shared), final(shared)),
        state_sound(frame, final(shared), final(results_accumulator)@, bound),
{
    let ghost item = item_view((*goal, *parent_state));
    let ghost before = progress_view(shared, ctx, results_accumulator@);
    // a resolution takes one literal from the clause and one from the goal,
    // so the width of the resolvent is known beforehand
    if let Some(max_resolvent_width) = config.max_resolvent_width {
        let clause_size = clause.item.literals.len();
        let goal_size = goal.item.literals.len();
        if clause_size as u128 + goal_size as u128 > max_resolvent_width as u128 + 2 {
            proof {
                assert(results_accumulator@.take(results_accumulator@.len() as int)
                    =~= results_accumulator@);
                assert forall|rest: Seq<u64>|
                    #[trigger] expand_against(
                        frame.env,
                        item,
                        before,
                        clause.item@,
                        no_hashes() + rest,
                    ) == (before, false, rest) by {
                    assert(no_hashes() + rest =~= rest);
                }
            }
            return (false, Ghost(no_hashes()));
        }
    }
    let ghost raw = shared.raw();
    let ghost threshold = shared.min_similarity_threshold;
    let ghost memo = ctx.memo(shared);
    let ghost stats = ctx.stats;
    let next_steps = match parent_state {
        Some(parent) => resolve(goal, clause, ctx, shared, Some(parent), pattern),
        None => resolve(goal, clause, ctx, shared, None, pattern),
    };
    let min_similarity_threshold = shared.min_similarity_threshold;
    let ghost outcome = resolve_spec(
        raw,
        threshold,
        pattern.source(),
        goal.item@,
        clause.item@,
        chain_summary(item.chain),
        memo,
        stats,
    );
    let ghost resolved = progress_view(shared, ctx, results_accumulator@);
    proof {
        let parent_ref: Option<&ProofStepNode> = match parent_state {
            Some(parent) => Some(parent),
            None => None,
        };
        match parent_state {
            Some(parent) => {
                lemma_ancestry_last(&*parent.inner);
            },
            None => {},
        }
        assert(chain_summary(item.chain) == parent_summary(parent_ref));
        lemma_resolve_steps(
            raw,
            threshold,
            pattern.source(),
            goal.item@,
            clause.item@,
            parent_summary(parent_ref),
            memo,
            stats,
            clause.item@.len() as int,
        );
        lemma_resolve_counters(
            raw,
            threshold,
            pattern.source(),
            goal.item@,
            clause.item@,
            parent_summary(parent_ref),
            memo,
            stats,
            clause.item@.len() as int,
        );
        lemma_resolve_steps_above(
            raw,
            threshold,
            pattern.source(),
            goal.item@,
            clause.item@,
            parent_summary(parent_ref),
            memo,
            stats,
            clause.item@.len() as int,
        );
        assert forall|k: int| 0 <= k < next_steps.len() implies sound_chain(
            *(#[trigger] next_steps[k]).inner,
            frame.env.pattern,
            frame.env.knowledge.to_set(),
            frame.goals,
        ) && next_steps[k].inner.depth <= depth + 1 && config.max_proof_depth
            - next_steps[k].inner.depth <= bound && chain_above(
            *next_steps[k].inner,
            frame.floor,
        ) && ancestry(*next_steps[k].inner) == extend_chain(item.chain, outcome.steps[k]) by {
            assert(next_steps[k].inner.parent == parent_link(parent_ref));
            assert(step_resolves(next_steps[k].inner@, pattern.source()));
            assert(next_steps[k].inner@ == outcome.steps[k]);
            assert(outcome.steps[k].similarity > threshold);
        }
    }
    let consumed = admit_steps(
        &next_steps,
        depth,
        min_similarity_threshold,
        config,
        ctx,
        shared,
        results_accumulator,
        Ghost(frame),
        Ghost(bound),
        Ghost(item.chain),
        Ghost(outcome.steps),
    );
    proof {
        assert forall|rest: Seq<u64>|
            #[trigger] expand_against(frame.env, item, before, clause.item@, consumed@ + rest) == (
                progress_view(shared, ctx, results_accumulator@),
                next_steps.len() > 0,
                rest,
            ) by {
            assert(dealt_upto(
                frame.env,
                depth,
                threshold,
                resolved,
                item.chain,
                outcome.steps,
                outcome.steps.len() as int,
                consumed@ + rest,
            ) == (progress_view(shared, ctx, results_accumulator@), rest));
        }
    }
    (next_steps.len() > 0, consumed)
}

/// Expands one pending goal: resolves it against every clause of the
/// knowledge and deals with each step that comes of it.  Nothing is done
/// for a goal that is passed over (see `passed_over`).  For any other goal
/// the depth is noted first, and the resolutions are counted at the end: an
/// attempt for each clause, a success for each clause that gave a step.
fn search_proof_step<F: Fn(&String, Option<u64>, &String, Option<u64>) -> u64>(
    goal: PyArcItem<CNFDisjunction>,
    config: &ResolutionProverConfig,
    knowledge: &ClauseSet,
    ctx: &mut LocalProofContext,
    shared: &mut SharedProofContext<F>,
    parent_state: Option<ProofStepNode>,
    results_accumulator: &mut Vec<BatchItem>,
    pattern: &VarNamePattern,
    Ghost(frame): Ghost<SearchFrame>,
    Ghost(bound): Ghost<int>,
) -> (consumed: Ghost<Seq<u64>>)
    requires
        frame_holds(frame, config, knowledge@, pattern.source(), old(shared)),
        state_sound(frame, old(shared), old(results_accumulator)@, bound),
        sound_item(
            (goal, parent_state),
            frame.env.pattern,
            frame.env.knowledge.to_set(),
            frame.goals,
        ),
        item_above((goal, parent_state), frame.floor),
        rounds_left((goal, parent_state), config.max_proof_depth) - 1 <= bound,
    ensures
        forall|rest: Seq<u64>|
            #[trigger] expand(
                frame.env,
                item_view((goal, parent_state)),
                progress_view(old(shared), old(ctx), old(results_accumulator)@),
                consumed@ + rest,
            ) == (progress_view(final(shared), final(ctx), final(results_accumulator)@), rest),
        !old(shared).skip_seen_resolvents ==> consumed@ == no_hashes(),
        passed_over(goal, parent_state, config, old(shared)) ==> {
            &&& *final(ctx) == *old(ctx)
            &&& final(results_accumulator)@ == old(results_accumulator)@
            &&& *final(shared) == *old(shared)
        },
        !passed_over(goal, parent_state, config, old(shared)) ==> {
            &&& final(ctx).stats.attempted_resolutions
                == old(ctx).stats.attempted_resolutions.wrapping_add(knowledge@.len() as usize)
            &&& final(ctx).stats.max_depth_seen == larger(
                old(ctx).stats.max_depth_seen,
                (goal_depth(parent_state) + 1) as usize,
            )
            &&& exists|successes: usize|
                successes <= knowledge@.len() && final(ctx).stats.successful_resolutions
                    == #[trigger] old(ctx).stats.successful_resolutions.wrapping_add(successes)
            &&& final(ctx).stats.discarded_proofs == old(ctx).stats.discarded_proofs
            &&& final(ctx).stats.max_resolvent_width_seen
                >= old(ctx).stats.max_resolvent_width_seen
        },
        extends(old(results_accumulator)@, final(results_accumulator)@),
        same_setup(old(shared), final(shared)),
        frame_holds(frame, config, knowledge@, pattern.source(), final(shared)),
        state_sound(frame, final(shared), final(results_accumulator)@, bound),
{
    let ghost item = item_view((goal, parent_state));
    proof {
        match &parent_state {
            Some(parent) => {
                lemma_ancestry_last(&*parent.inner);
            },
            None => {},
        }
        assert(results_accumulator@.take(results_accumulator@.len() as int)
            =~= results_accumulator@);
        assert forall|rest: Seq<u64>| no_hashes() + rest == rest by {
            assert(no_hashes() + rest =~= rest);
        }
    }
    let depth = match &parent_state {
        Some(parent) => parent.inner.depth,
        None => 0,
    };
    if parent_state.is_some() && depth >= config.max_proof_depth {
        return Ghost(no_hashes());
    }
    if let Some(max_resolution_attempts) = config.max_resolution_attempts {
        if shared.stats.attempted_resolutions >= max_resolution_attempts {
            return Ghost(no_hashes());
        }
    }
    if let Some(max_proofs) = shared.max_proofs {
        if !config.find_highest_similarity_proofs && shared.total_leaf_proofs() >= max_proofs {
            return Ghost(no_hashes());
        }
    }
    if goal.item.literals.is_empty() {
        return Ghost(no_hashes());
    }
    if depth >= ctx.stats.max_depth_seen {
        ctx.stats.max_depth_seen = depth + 1;
    }
    let ghost started = progress_view(shared, ctx, results_accumulator@);
    let ghost mut consumed = no_hashes();
    let mut num_successful_resolutions: usize = 0;
    let clause_count = knowledge.len();
    let mut c: usize = 0;
    while c < clause_count
        invariant
            c <= clause_count,
            clause_count == knowledge@.len(),
            item == item_view((goal, parent_state)),
            goal.item@.len() > 0,
            depth == goal_depth(parent_state),
            parent_state is Some ==> depth < config.max_proof_depth,
            num_successful_resolutions <= c,
            !passed_over(goal, parent_state, config, old(shared)),
            forall|rest: Seq<u64>|
                #[trigger] expand_upto(frame.env, item, started, c as int, consumed + rest) == (
                    progress_view(shared, ctx, results_accumulator@),
                    num_successful_resolutions,
                    rest,
                ),
            !old(shared).skip_seen_resolvents ==> consumed == no_hashes(),
            ctx.stats.attempted_resolutions == old(ctx).stats.attempted_resolutions,
            ctx.stats.successful_resolutions == old(ctx).stats.successful_resolutions,
            ctx.stats.discarded_proofs == old(ctx).stats.discarded_proofs,
            ctx.stats.max_depth_seen == larger(
                old(ctx).stats.max_depth_seen,
                (depth + 1) as usize,
            ),
            ctx.stats.max_resolvent_width_seen >= old(ctx).stats.max_resolvent_width_seen,
            extends(old(results_accumulator)@, results_accumulator@),
            same_setup(old(shared), shared),
            frame_holds(frame, config, knowledge@, pattern.source(), shared),
            state_sound(frame, shared, results_accumulator@, bound),
            sound_item(
                (goal, parent_state),
                frame.env.pattern,
                frame.env.knowledge.to_set(),
                frame.goals,
            ),
            item_above((goal, parent_state), frame.floor),
            rounds_left((goal, parent_state), config.max_proof_depth) - 1 <= bound,
        decreases clause_count - c,
    {
        let clause = knowledge.get(c);
        assert(frame.env.knowledge.to_set().contains(clause.item@)) by {
            assert(knowledge@[c as int] == clause.item@);
        }
        let ghost gathered_before = results_accumulator@;
        let ghost here = progress_view(shared, ctx, results_accumulator@);
        let ghost successes_before = num_successful_resolutions;
        let (success, used) = expand_goal_against(
            &goal,
            &parent_state,
            clause,
            depth,
            config,
            ctx,
            shared,
            results_accumulator,
            pattern,
            Ghost(frame),
            Ghost(bound),
        );
        if success {
            num_successful_resolutions += 1;
        }
        proof {
            assert(results_accumulator@.take(old(results_accumulator)@.len() as int)
                =~= gathered_before.take(old(results_accumulator)@.len() as int));
            let longer = consumed + used@;
            assert forall|rest: Seq<u64>|
                #[trigger] expand_upto(frame.env, item, started, c as int + 1, longer + rest) == (
                    progress_view(shared, ctx, results_accumulator@),
                    num_successful_resolutions,
                    rest,
                ) by {
                assert(longer + rest =~= consumed + (used@ + rest));
                assert(expand_upto(frame.env, item, started, c as int, consumed + (used@ + rest))
                    == (here, successes_before, used@ + rest));
                assert(expand_against(frame.env, item, here, clause.item@, used@ + rest) == (
                    progress_view(shared, ctx, results_accumulator@),
                    success,
                    rest,
                ));
            }
            consumed = longer;
            if !old(shared).skip_seen_resolvents {
                assert(consumed =~= no_hashes());
            }
        }
        c += 1;
    }
    // the counters are brought up to date once for the whole expansion
    ctx.stats.attempted_resolutions = ctx.stats.attempted_resolutions.wrapping_add(clause_count);
    ctx.stats.successful_resolutions = ctx.stats.successful_resolutions.wrapping_add(
        num_successful_resolutions,
    );
    assert(num_successful_resolutions <= knowledge@.len() && ctx.stats.successful_resolutions
        == old(ctx).stats.successful_resolutions.wrapping_add(num_successful_resolutions));
    Ghost(consumed)
}

/// A copy of a pending goal that shares its clause and its step.
fn share_item(item: &BatchItem) -> (res: BatchItem)
    ensures
        res == *item,
{
    let parent = match &item.1 {
        Some(step) => Some(step.clone()),
        None => None,
    };
    (item.0.clone(), parent)
}

/// The views of the goals of a batch's start are the start of the views.
proof fn lemma_items_view_split(items: Seq<BatchItem>, n: int)
    requires
        0 <= n <= items.len(),
    ensures
        items_view(items.take(n)) == items_view(items).take(n),
        items_view(items.skip(n)) == items_view(items).skip(n),
{
    assert(items_view(items.take(n)) =~= items_view(items).take(n));
    assert(items_view(items.skip(n)) =~= items_view(items).skip(n));
}

/// Works through a batch of pending goals, round by round: the goals that
/// come of one round are the batch of the next.  Whenever a round has
/// gathered `eval_batch_size` goals, that many are set apart as a batch of
/// their own; these batches are handed back, in the order in which they were
/// set apart.  At the end of each round the batch's counts are added to the
/// shared counters.  The work ends with the first round that leaves no goals.
fn search_for_proofs_batch<F: Fn(&String, Option<u64>, &String, Option<u64>) -> u64>(
    batch: Vec<BatchItem>,
    config: &ResolutionProverConfig,
    knowledge: &ClauseSet,
    ctx: LocalProofContext,
    shared: &mut SharedProofContext<F>,
    pattern: &VarNamePattern,
    Ghost(frame): Ghost<SearchFrame>,
    Ghost(bound): Ghost<int>,
) -> (res: (Vec<Vec<BatchItem>>, Ghost<Seq<u64>>))
    requires
        frame_holds(frame, config, knowledge@, pattern.source(), old(shared)),
        state_sound(frame, old(shared), batch@, bound),
    ensures
        forall|rest: Seq<u64>|
            #[trigger] batch_outcome(
                frame.env,
                items_view(batch@),
                search_view(old(shared)),
                worker_view(&ctx),
                Seq::empty(),
                bound,
                res.1@ + rest,
            ) == (search_view(final(shared)), batches_view(res.0@), rest),
        !old(shared).skip_seen_resolvents ==> res.1@ == no_hashes(),
        same_setup(old(shared), final(shared)),
        frame_holds(frame, config, knowledge@, pattern.source(), final(shared)),
        state_sound(frame, final(shared), Seq::empty(), bound),
        forall|i: int|
            0 <= i < res.0.len() ==> sound_items(
                (#[trigger] res.0[i])@,
                frame.env.pattern,
                frame.env.knowledge.to_set(),
                frame.goals,
            ) && within_rounds(res.0[i]@, config.max_proof_depth, bound - 1) && items_above(
                res.0[i]@,
                frame.floor,
            ),
{
    let mut worker = ctx;
    let mut next_batch = batch;
    let mut spawned: Vec<Vec<BatchItem>> = Vec::new();
    let ghost mut level = bound;
    let ghost mut consumed = no_hashes();
    proof {
        assert(batches_view(spawned@) =~= Seq::<Seq<ItemModel>>::empty());
        assert forall|rest: Seq<u64>| no_hashes() + rest == rest by {
            assert(no_hashes() + rest =~= rest);
        }
    }
    loop
        invariant
            level <= bound,
            frame.env.max_proof_depth == config.max_proof_depth,
            frame.env.eval_batch_size == config.eval_batch_size,
            forall|rest: Seq<u64>|
                #[trigger] batch_outcome(
                    frame.env,
                    items_view(batch@),
                    search_view(old(shared)),
                    worker_view(&ctx),
                    Seq::empty(),
                    bound,
                    consumed + rest,
                ) == batch_outcome(
                    frame.env,
                    items_view(next_batch@),
                    search_view(shared),
                    worker_view(&worker),
                    batches_view(spawned@),
                    level,
                    rest,
                ),
            !old(shared).skip_seen_resolvents ==> consumed == no_hashes(),
            same_setup(old(shared), shared),
            frame_holds(frame, config, knowledge@, pattern.source(), shared),
            state_sound(frame, shared, next_batch@, level),
            forall|i: int|
                0 <= i < spawned.len() ==> sound_items(
                    (#[trigger] spawned[i])@,
                    frame.env.pattern,
                    frame.env.knowledge.to_set(),
                    frame.goals,
                ) && within_rounds(spawned[i]@, config.max_proof_depth, bound - 1)
                    && items_above(spawned[i]@, frame.floor),
        decreases level,
    {
        let mut results_accumulator: Vec<BatchItem> = Vec::new();
        let ghost start = RoundModel {
            progress: Progress {
                search: search_view(shared),
                worker: worker_view(&worker),
                pending: Seq::empty(),
            },
            spawned: batches_view(spawned@),
        };
        let ghost round_batch = items_view(next_batch@);
        let ghost mut used = no_hashes();
        proof {
            assert(items_view(results_accumulator@) =~= Seq::<ItemModel>::empty());
            assert forall|rest: Seq<u64>| no_hashes() + rest == rest by {
                assert(no_hashes() + rest =~= rest);
            }
        }
        let mut i: usize = 0;
        while i < next_batch.len()
            invariant
                i <= next_batch.len(),
                level <= bound,
                round_batch == items_view(next_batch@),
                frame.env.max_proof_depth == config.max_proof_depth,
                frame.env.eval_batch_size == config.eval_batch_size,
                forall|rest: Seq<u64>|
                    #[trigger] round_upto(frame.env, round_batch, start, i as int, used + rest) == (
                        RoundModel {
                            progress: progress_view(shared, &worker, results_accumulator@),
                            spawned: batches_view(spawned@),
                        },
                        rest,
                    ),
                !old(shared).skip_seen_resolvents ==> used == no_hashes(),
                same_setup(old(shared), shared),
                frame_holds(frame, config, knowledge@, pattern.source(), shared),
                state_sound(frame, shared, next_batch@, level),
                state_sound(frame, shared, results_accumulator@, level - 1),
                forall|k: int|
                    0 <= k < spawned.len() ==> sound_items(
                        (#[trigger] spawned[k])@,
                        frame.env.pattern,
                        frame.env.knowledge.to_set(),
                        frame.goals,
                    ) && within_rounds(spawned[k]@, config.max_proof_depth, bound - 1)
                        && items_above(spawned[k]@, frame.floor),
            decreases next_batch.len() - i,
        {
            let (goal_clause, parent_state) = share_item(&next_batch[i]);
            assert(round_batch[i as int] == item_view((goal_clause, parent_state)));
            let ghost before = RoundModel {
                progress: progress_view(shared, &worker, results_accumulator@),
                spawned: batches_view(spawned@),
            };
            let taken = search_proof_step(
                goal_clause,
                config,
                knowledge,
                &mut worker,
                shared,
                parent_state,
                &mut results_accumulator,
                pattern,
                Ghost(frame),
                Ghost(level - 1),
            );
            let ghost expanded = progress_view(shared, &worker, results_accumulator@);
            if results_accumulator.len() >= config.eval_batch_size {
                let ghost gathered_all = results_accumulator@;
                let ghost set_apart = batches_view(spawned@);
                let mut chunk = results_accumulator.split_off(config.eval_batch_size);
                std::mem::swap(&mut results_accumulator, &mut chunk);
                proof {
                    let size = config.eval_batch_size as int;
                    assert(chunk@ =~= gathered_all.take(size));
                    assert(results_accumulator@ =~= gathered_all.skip(size));
                    lemma_items_view_split(gathered_all, size);
                    assert forall|k: int| 0 <= k < chunk.len() implies sound_item(
                        #[trigger] chunk[k],
                        frame.env.pattern,
                        frame.env.knowledge.to_set(),
                        frame.goals,
                    ) && 1 <= rounds_left(chunk[k], config.max_proof_depth) <= bound - 1
                        && item_above(chunk[k], frame.floor) by {
                        assert(chunk[k] == gathered_all[k]);
                    }
                    assert forall|k: int| 0 <= k < results_accumulator.len() implies sound_item(
                        #[trigger] results_accumulator[k],
                        frame.env.pattern,
                        frame.env.knowledge.to_set(),
                        frame.goals,
                    ) && 1 <= rounds_left(results_accumulator[k], config.max_proof_depth) <= level
                        - 1 && item_above(results_accumulator[k], frame.floor) by {
                        assert(results_accumulator[k] == gathered_all[k + size]);
                    }
                }
                spawned.push(chunk);
                assert(batches_view(spawned@) =~= set_apart.push(items_view(chunk@)));
            }
            proof {
                let longer = used + taken@;
                assert forall|rest: Seq<u64>|
                    #[trigger] round_upto(
                        frame.env,
                        round_batch,
                        start,
                        i as int + 1,
                        longer + rest,
                    ) == (
                        RoundModel {
                            progress: progress_view(shared, &worker, results_accumulator@),
                            spawned: batches_view(spawned@),
                        },
                        rest,
                    ) by {
                    assert(longer + rest =~= used + (taken@ + rest));
                    assert(round_upto(
                        frame.env,
                        round_batch,
                        start,
                        i as int,
                        used + (taken@ + rest),
                    ) == (before, taken@ + rest));
                    assert(expand(
                        frame.env,
                        round_batch[i as int],
                        before.progress,
                        taken@ + rest,
                    ) == (expanded, rest));
                }
                used = longer;
                if !old(shared).skip_seen_resolvents {
                    assert(used =~= no_hashes());
                }
            }
            i += 1;
        }
        worker.sync_with_shared_ctx(shared);
        let ghost longer = consumed + used;
        proof {
            if !old(shared).skip_seen_resolvents {
                assert(longer =~= no_hashes());
            }
        }
        if results_accumulator.len() == 0 {
            proof {
                assert forall|rest: Seq<u64>|
                    #[trigger] batch_outcome(
                        frame.env,
                        items_view(batch@),
                        search_view(old(shared)),
                        worker_view(&ctx),
                        Seq::empty(),
                        bound,
                        longer + rest,
                    ) == (search_view(shared), batches_view(spawned@), rest) by {
                    assert(longer + rest =~= consumed + (used + rest));
                    assert(round_upto(
                        frame.env,
                        round_batch,
                        start,
                        round_batch.len() as int,
                        used + rest,
                    ).1 == rest);
                }
            }
            return (spawned, Ghost(longer));
        }
        proof {
            assert(1 <= rounds_left(results_accumulator[0], config.max_proof_depth) <= level - 1);
            assert forall|rest: Seq<u64>|
                #[trigger] batch_outcome(
                    frame.env,
                    items_view(batch@),
                    search_view(old(shared)),
                    worker_view(&ctx),
                    Seq::empty(),
                    bound,
                    longer + rest,
                ) == batch_outcome(
                    frame.env,
                    items_view(results_accumulator@),
                    search_view(shared),
                    worker_view(&worker),
                    batches_view(spawned@),
                    level - 1,
                    rest,
                ) by {
                assert(longer + rest =~= consumed + (used + rest));
                assert(round_upto(
                    frame.env,
                    round_batch,
                    start,
                    round_batch.len() as int,
                    used + rest,
                ).1 == rest);
            }
            level = level - 1;
            consumed = longer;
        }
        next_batch = results_accumulator;
    }
}

/// Runs a batch of pending goals, and then the batches that were set apart
/// while it ran, the latest first, each with all that it sets apart in turn.
pub(crate) fn run_batch<F: Fn(&String, Option<u64>, &String, Option<u64>) -> u64>(
    batch: Vec<BatchItem>,
    config: &ResolutionProverConfig,
    knowledge: &ClauseSet,
    shared: &mut SharedProofContext<F>,
    pattern: &VarNamePattern,
    Ghost(frame): Ghost<SearchFrame>,
    Ghost(bound): Ghost<int>,
) -> (consumed: Ghost<Seq<u64>>)
    requires
        batch.len() > 0,
        frame_holds(frame, config, knowledge@, pattern.source(), old(shared)),
        state_sound(frame, old(shared), batch@, bound),
    ensures
        forall|rest: Seq<u64>|
            #[trigger] run_outcome(
                frame.env,
                items_view(batch@),
                search_view(old(shared)),
                bound,
                consumed@ + rest,
            ) == (search_view(final(shared)), rest),
        !old(shared).skip_seen_resolvents ==> consumed@ == no_hashes(),
        same_setup(old(shared), final(shared)),
        frame_holds(frame, config, knowledge@, pattern.source(), final(shared)),
        state_sound(frame, final(shared), Seq::empty(), bound),
    decreases bound,
{
    assert(1 <= rounds_left(batch[0], config.max_proof_depth) <= bound);
    let ctx = LocalProofContext::new(shared);
    let ghost first_worker = worker_view(&ctx);
    assert(first_worker == fresh_worker(search_view(shared)));
    let (mut spawned, first) = search_for_proofs_batch(
        batch,
        config,
        knowledge,
        ctx,
        shared,
        pattern,
        Ghost(frame),
        Ghost(bound),
    );
    let ghost all = batches_view(spawned@);
    let ghost after_batch = search_view(shared);
    let ghost mut consumed = no_hashes();
    proof {
        assert forall|rest: Seq<u64>| no_hashes() + rest == rest by {
            assert(no_hashes() + rest =~= rest);
        }
    }
    while spawned.len() > 0
        invariant
            bound >= 1,
            spawned.len() <= all.len(),
            batches_view(spawned@) == all.take(spawned.len() as int),
            forall|rest: Seq<u64>|
                #[trigger] run_spawned(
                    frame.env,
                    all,
                    after_batch,
                    bound - 1,
                    all.len() as int,
                    consumed + rest,
                ) == run_spawned(
                    frame.env,
                    all,
                    search_view(shared),
                    bound - 1,
                    spawned.len() as int,
                    rest,
                ),
            !old(shared).skip_seen_resolvents ==> consumed == no_hashes(),
            same_setup(old(shared), shared),
            frame_holds(frame, config, knowledge@, pattern.source(), shared),
            state_sound(frame, shared, Seq::empty(), bound),
            forall|i: int|
                0 <= i < spawned.len() ==> sound_items(
                    (#[trigger] spawned[i])@,
                    frame.env.pattern,
                    frame.env.knowledge.to_set(),
                    frame.goals,
                ) && within_rounds(spawned[i]@, config.max_proof_depth, bound - 1)
                    && items_above(spawned[i]@, frame.floor),
        decreases spawned.len(),
    {
        let ghost last = spawned[spawned.len() - 1];
        let ghost before = batches_view(spawned@);
        let ghost here = search_view(shared);
        let ghost count = spawned.len() as int;
        let chunk = spawned.pop().unwrap();
        proof {
            assert(chunk == last);
            assert(before[before.len() - 1] == items_view(chunk@));
            assert(all[before.len() - 1] == items_view(chunk@));
            assert(batches_view(spawned@) =~= all.take(spawned.len() as int));
        }
        let ghost chunk_view = items_view(chunk@);
        // a batch without goals does nothing
        let ghost mut used = no_hashes();
        if chunk.len() > 0 {
            let taken = run_batch(
                chunk,
                config,
                knowledge,
                shared,
                pattern,
                Ghost(frame),
                Ghost(bound - 1),
            );
            proof {
                used = taken@;
            }
        }
        proof {
            let longer = consumed + used;
            assert forall|rest: Seq<u64>|
                #[trigger] run_spawned(
                    frame.env,
                    all,
                    after_batch,
                    bound - 1,
                    all.len() as int,
                    longer + rest,
                ) == run_spawned(
                    frame.env,
                    all,
                    search_view(shared),
                    bound - 1,
                    count - 1,
                    rest,
                ) by {
                assert(longer + rest =~= consumed + (used + rest));
                assert(run_spawned(
                    frame.env,
                    all,
                    after_batch,
                    bound - 1,
                    all.len() as int,
                    consumed + (used + rest),
                ) == run_spawned(frame.env, all, here, bound - 1, count, used + rest));
                if chunk_view.len() > 0 {
                    assert(run_outcome(frame.env, chunk_view, here, bound - 1, used + rest) == (
                        search_view(shared),
                        rest,
                    ));
                } else {
                    assert(used + rest =~= rest);
                }
            }
            consumed = longer;
            if !old(shared).skip_seen_resolvents {
                assert(consumed =~= no_hashes());
            }
        }
    }
    proof {
        let total = first@ + consumed;
        assert forall|rest: Seq<u64>|
            #[trigger] run_outcome(
                frame.env,
                items_view(batch@),
                search_view(old(shared)),
                bound,
                total + rest,
            ) == (search_view(shared), rest) by {
            assert(total + rest =~= first@ + (consumed + rest));
            assert(batch_outcome(
                frame.env,
                items_view(batch@),
                search_view(old(shared)),
                first_worker,
                Seq::empty(),
                bound,
                first@ + (consumed + rest),
            ) == (after_batch, all, consumed + rest));
            assert(run_spawned(
                frame.env,
                all,
                after_batch,
                bound - 1,
                all.len() as int,
                consumed + rest,
            ) == run_spawned(frame.env, all, search_view(shared), bound - 1, 0, rest));
        }
        if !old(shared).skip_seen_resolvents {
            assert(total =~= no_hashes());
        }
    }
    Ghost(first@ + consumed)
}

/// The first step of the chain that ends in `step`.
fn first_step(step: &ProofStep) -> (first: &ProofStep)
    ensures
        first@ == ancestry(*step)[0],
    decreases step,
{
    match &step.parent {
        Some(parent) => {
            let first = first_step(&parent.inner);
            assert(ancestry(*step)[0] == ancestry(*parent.inner)[0]);
            first
        },
        None => step,
    }
}

/// The first batch of a search: the clauses of the negated goal, none with
/// a step behind it.
pub(crate) fn root_batch(
    goals: &ClauseSet,
    Ghost(pattern): Ghost<Seq<char>>,
    Ghost(knowledge): Ghost<Set<Seq<LiteralModel>>>,
    Ghost(max_proof_depth): Ghost<usize>,
) -> (batch: Vec<BatchItem>)
    ensures
        batch.len() == goals@.len(),
        items_view(batch@) == root_items(goals@),
        forall|floor: u64| items_above(batch@, floor),
        sound_items(batch@, pattern, knowledge, goals@.to_set()),
        within_rounds(batch@, max_proof_depth, max_proof_depth + 1),
{
    let goal_count = goals.len();
    let mut batch: Vec<BatchItem> = Vec::new();
    let mut g: usize = 0;
    while g < goal_count
        invariant
            g <= goal_count,
            goal_count == goals@.len(),
            batch.len() == g,
            forall|j: int| 0 <= j < g ==> (#[trigger] batch[j]).0.item@ == goals@[j] && batch[j].1 is None,
            sound_items(batch@, pattern, knowledge, goals@.to_set()),
            within_rounds(batch@, max_proof_depth, max_proof_depth + 1),
        decreases goal_count - g,
    {
        assert(goals@.to_set().contains(goals@[g as int]));
        let item: BatchItem = (goals.get(g).clone(), None);
        batch.push(item);
        g += 1;
    }
    assert(items_view(batch@) =~= root_items(goals@));
    batch
}

/// The proofs that a search has recorded, the most similar first, and at
/// most `max_proofs` of them.
pub(crate) fn finished_proofs<F: Fn(&String, Option<u64>, &String, Option<u64>) -> u64>(
    ctx: &SharedProofContext<F>,
    max_proofs: Option<usize>,
    Ghost(pattern): Ghost<Seq<char>>,
    Ghost(knowledge): Ghost<Set<Seq<LiteralModel>>>,
    Ghost(goals): Ghost<Set<Seq<LiteralModel>>>,
    Ghost(floor): Ghost<u64>,
) -> (proofs: Vec<Proof>)
    requires
        sound_leaves(ctx.scored_leaf_proof_steps@, pattern, knowledge, goals),
        leaves_above(ctx.scored_leaf_proof_steps@, floor),
    ensures
        forall|i: int| 0 <= i < proofs.len() ==> (#[trigger] proofs[i]).similarity > floor,
        forall|i: int, j: int|
            0 <= i < j < proofs.len() ==> proofs[i].similarity >= proofs[j].similarity,
        max_proofs matches Some(most) ==> proofs.len() <= most,
        proofs.len() <= ctx.scored_leaf_proof_steps@.len(),
        proofs_view(proofs@) == proofs_of(leaves_view(ctx.scored_leaf_proof_steps@), max_proofs),
        forall|i: int|
            0 <= i < proofs.len() ==> is_refutation(#[trigger] proofs[i], pattern, knowledge, goals),
{
    let leaves = ctx.leaf_proof_steps_with_stats();
    let mut proofs: Vec<Proof> = Vec::new();
    let mut l: usize = 0;
    let wanted = match max_proofs {
        Some(most) => if most < leaves.len() {
            most
        } else {
            leaves.len()
        },
        None => leaves.len(),
    };
    // the recorded proofs are in rank order, so the most similar come first
    // without sorting
    while l < wanted
        invariant
            l <= wanted,
            wanted <= leaves.len(),
            max_proofs matches Some(most) ==> wanted <= most,
            proofs.len() == l,
            leaves.len() == ctx.scored_leaf_proof_steps@.len(),
            crate::prover::leaf_proofs::ranked(ctx.scored_leaf_proof_steps@),
            sound_leaves(ctx.scored_leaf_proof_steps@, pattern, knowledge, goals),
            leaves_above(ctx.scored_leaf_proof_steps@, floor),
            forall|i: int| 0 <= i < l ==> (#[trigger] proofs[i]).similarity > floor,
            forall|i: int|
                0 <= i < leaves.len() ==> {
                    &&& (#[trigger] leaves[i]).0@ == ctx.scored_leaf_proof_steps@[i].2.inner@
                    &&& leaves[i].0.parent == ctx.scored_leaf_proof_steps@[i].2.inner.parent
                    &&& ancestry(leaves[i].0) == ancestry(*ctx.scored_leaf_proof_steps@[i].2.inner)
                    &&& leaves[i].1 == ctx.scored_leaf_proof_steps@[i].3
                },
            forall|i: int|
                0 <= i < l ==> (#[trigger] proofs[i]).similarity
                    == ctx.scored_leaf_proof_steps@[i].0 && is_refutation(
                    proofs[i],
                    pattern,
                    knowledge,
                    goals,
                ) && proofs[i].stats == ctx.scored_leaf_proof_steps@[i].3 && ancestry(
                    proofs[i].leaf_proof_step,
                ) == ancestry(*ctx.scored_leaf_proof_steps@[i].2.inner),
        decreases wanted - l,
    {
        let leaf_proof_step = leaves[l].0.clone();
        let first = first_step(&leaf_proof_step);
        let goal: CNFDisjunction = (*first.source.item).clone();
        proof {
            let recorded = ctx.scored_leaf_proof_steps@[l as int];
            assert(sound_leaf(recorded, pattern, knowledge, goals));
            assert(sound_chain(leaf_proof_step, pattern, knowledge, goals));
            lemma_sound_chain(&leaf_proof_step, pattern, knowledge, goals);
            assert(chain_above(*recorded.2.inner, floor));
            lemma_chain_above(&*recorded.2.inner, pattern, knowledge, goals, floor);
        }
        let proof_found = Proof::new(
            goal,
            leaf_proof_step.running_similarity,
            leaves[l].1,
            leaf_proof_step,
        );
        proofs.push(proof_found);
        l += 1;
    }
    proof {
        let list = ctx.scored_leaf_proof_steps@;
        assert forall|i: int, j: int| 0 <= i < j < proofs.len() implies proofs[i].similarity
            >= proofs[j].similarity by {
            assert(!crate::prover::leaf_proofs::ranks_after(list[i], list[j]));
        }
        let expected = proofs_of(leaves_view(list), max_proofs);
        assert forall|i: int| 0 <= i < proofs.len() implies proofs_view(proofs@)[i]
            == expected[i] by {
            assert(sound_leaf(list[i], pattern, knowledge, goals));
            assert(is_refutation(proofs[i], pattern, knowledge, goals));
            assert(leaves_view(list)[i] == crate::prover::search_views::leaf_view(list[i]));
            lemma_ancestry_last(&*list[i].2.inner);
        }
        assert(proofs_view(proofs@) =~= expected);
    }
    proofs
}

} // verus!
