//! The prover: knowledge, comparator and bounds, and the searches it runs.

use crate::prover::finished_proof::Proof;
use crate::prover::operations::fresh_names::pattern_compiles;
use crate::prover::operations::fresh_names::PatternError;
use crate::prover::operations::fresh_names::INDEX_SUFFIX;
use crate::prover::operations::fresh_names::VarNamePattern;
use crate::prover::proof_context::SharedProofContext;
use crate::prover::proof_stats::FrozenProofStats;
use crate::prover::proof_context::raw_with;
use crate::prover::search::finished_proofs;
use crate::prover::search::SearchFrame;
use crate::prover::search_model::search_outcome;
use crate::prover::search_model::search_takes;
use crate::prover::search_model::SearchEnv;
use crate::prover::search_views::ascending_clauses;
use crate::prover::search_views::leaves_view;
use crate::prover::search_views::lemma_ascending_clauses;
use crate::prover::search_views::proofs_view;
use crate::prover::search_views::search_view;
use crate::prover::similarity_cache::cache_entries;
use crate::prover::search_config::ResolutionProverConfig;
use crate::prover::search::root_batch;
use crate::prover::search::run_batch;
use crate::prover::search_soundness::clause_views;
use crate::prover::search_soundness::is_refutation;
use crate::prover::search_soundness::search_knowledge;
use crate::prover::similarity::comparator_functional;
use crate::prover::similarity::comparator_total;
use crate::prover::similarity_cache::similarity_cache_new;
use crate::prover::similarity_cache::SimilarityCache;
use crate::types::CNFDisjunction;
use crate::types::LiteralModel;
use crate::util::clause_set::by_clause;
use crate::util::clause_set::ClauseSet;
use crate::util::sorted::ascending;
use crate::util::py_arc_item::PyArcItem;
use vstd::prelude::*;

verus! {

/// The set of the given clauses, each behind a shared handle.
pub fn knowledge_to_arc(knowledge: Vec<CNFDisjunction>) -> (res: ClauseSet)
    ensures
        res@.to_set() == clause_views(knowledge@).to_set(),
        ascending(res@, by_clause()),
{
    let ghost clauses = clause_views(knowledge@);
    let mut res = ClauseSet::new();
    let mut i: usize = 0;
    assert(res@.to_set() =~= clauses.take(0).to_set());
    while i < knowledge.len()
        invariant
            i <= knowledge.len(),
            clauses == clause_views(knowledge@),
            res@.to_set() == clauses.take(i as int).to_set(),
            ascending(res@, by_clause()),
        decreases knowledge.len() - i,
    {
        res.insert(PyArcItem::new(knowledge[i].clone()));
        proof {
            crate::util::sorted::lemma_prefix_set_step(clauses, i as int);
        }
        i += 1;
    }
    assert(clauses.take(knowledge.len() as int) =~= clauses);
    res
}

/// A resolution prover: the knowledge it reasons from, the comparator of
/// symbols with its floor and its cache, and the bounds of its searches.
pub struct ResolutionProverBackend<F> {
    pub min_similarity_threshold: u64,
    pub similarity_fn: Option<F>,
    pub similarity_cache: Option<SimilarityCache>,
    pub base_knowledge: ClauseSet,
    /// The number of workers that a caller who spreads the batches over
    /// threads is asked to use.  The search of this library runs the batches
    /// one after the other.
    pub num_workers: usize,
    pub config: ResolutionProverConfig,
    pub var_name_pattern: VarNamePattern,
}

impl<F: Fn(&String, Option<u64>, &String, Option<u64>) -> u64> ResolutionProverBackend<F> {
    /// The comparator, if there is one, accepts every pair and is a function.
    pub open spec fn comparator_ok(&self) -> bool {
        self.similarity_fn matches Some(f) ==> comparator_total(&f) && comparator_functional(&f)
    }

    /// Makes a prover as `with_pattern` does, with the pattern `INDEX_SUFFIX`.
    /// It fails if and only if that pattern does not compile.
    pub fn new(
        max_proof_depth: usize,
        max_resolvent_width: Option<usize>,
        max_resolution_attempts: Option<usize>,
        similarity_fn: Option<F>,
        min_similarity_threshold: u64,
        cache_similarity: bool,
        skip_seen_resolvents: bool,
        find_highest_similarity_proofs: bool,
        base_knowledge: ClauseSet,
        num_workers: usize,
        eval_batch_size: usize,
    ) -> (res: Result<Self, PatternError>)
        ensures
            res is Ok == pattern_compiles(INDEX_SUFFIX@),
            res matches Ok(prover) ==> {
                &&& prover.min_similarity_threshold == min_similarity_threshold
                &&& prover.similarity_fn == similarity_fn
                &&& prover.similarity_cache is Some == cache_similarity
                &&& prover.cached() == (if cache_similarity {
                    Some(Map::<u64, u64>::empty())
                } else {
                    None
                })
                &&& prover.base_knowledge == base_knowledge
                &&& prover.num_workers == num_workers
                &&& prover.config.max_proof_depth == max_proof_depth
                &&& prover.config.max_resolution_attempts == max_resolution_attempts
                &&& prover.config.max_resolvent_width == max_resolvent_width
                &&& prover.config.skip_seen_resolvents == skip_seen_resolvents
                &&& prover.config.find_highest_similarity_proofs == find_highest_similarity_proofs
                &&& prover.config.eval_batch_size == eval_batch_size
                &&& prover.var_name_pattern.source() == INDEX_SUFFIX@
            },
    {
        match VarNamePattern::new() {
            Ok(pattern) => Ok(
                Self::with_pattern(
                    max_proof_depth,
                    max_resolvent_width,
                    max_resolution_attempts,
                    similarity_fn,
                    min_similarity_threshold,
                    cache_similarity,
                    skip_seen_resolvents,
                    find_highest_similarity_proofs,
                    base_knowledge,
                    num_workers,
                    eval_batch_size,
                    pattern,
                ),
            ),
            Err(error) => Err(error),
        }
    }

    /// Makes a prover that names fresh variables by `var_name_pattern`.  If
    /// it is to cache similarities, its cache is empty.
    pub fn with_pattern(
        max_proof_depth: usize,
        max_resolvent_width: Option<usize>,
        max_resolution_attempts: Option<usize>,
        similarity_fn: Option<F>,
        min_similarity_threshold: u64,
        cache_similarity: bool,
        skip_seen_resolvents: bool,
        find_highest_similarity_proofs: bool,
        base_knowledge: ClauseSet,
        num_workers: usize,
        eval_batch_size: usize,
        var_name_pattern: VarNamePattern,
    ) -> (prover: Self)
        ensures
            prover.min_similarity_threshold == min_similarity_threshold,
            prover.similarity_fn == similarity_fn,
            prover.similarity_cache is Some == cache_similarity,
            prover.cached() == (if cache_similarity {
                Some(Map::<u64, u64>::empty())
            } else {
                None
            }),
            prover.base_knowledge == base_knowledge,
            prover.num_workers == num_workers,
            prover.config == (ResolutionProverConfig {
                max_proof_depth,
                max_resolution_attempts,
                max_resolvent_width,
                skip_seen_resolvents,
                find_highest_similarity_proofs,
                eval_batch_size,
            }),
            prover.var_name_pattern == var_name_pattern,
    {
        let config = ResolutionProverConfig {
            max_proof_depth,
            max_resolvent_width,
            max_resolution_attempts,
            skip_seen_resolvents,
            find_highest_similarity_proofs,
            eval_batch_size,
        };
        ResolutionProverBackend {
            similarity_fn,
            min_similarity_threshold,
            similarity_cache: if cache_similarity {
                Some(similarity_cache_new())
            } else {
                None
            },
            base_knowledge,
            num_workers,
            config,
            var_name_pattern,
        }
    }

    /// The entries of the prover's similarity cache, if it caches.
    pub open spec fn cached(&self) -> Option<Map<u64, u64>> {
        match self.similarity_cache {
            Some(cache) => Some(cache_entries(cache)),
            None => None,
        }
    }

    /// What a search of this prover is given: its comparator, its bounds,
    /// and the clauses to resolve against in ascending order.
    pub open spec fn search_env(
        &self,
        inverted_goals: Seq<CNFDisjunction>,
        extra_knowledge: Option<Vec<CNFDisjunction>>,
        max_proofs: Option<usize>,
        skip_seen_resolvents: Option<bool>,
    ) -> SearchEnv {
        SearchEnv {
            raw: raw_with(
                match self.similarity_fn {
                    Some(f) => Some(&f),
                    None => None,
                },
            ),
            pattern: self.var_name_pattern.source(),
            knowledge: ascending_clauses(
                search_knowledge(self.base_knowledge@, extra_knowledge, inverted_goals),
            ),
            max_proof_depth: self.config.max_proof_depth,
            max_resolution_attempts: self.config.max_resolution_attempts,
            max_resolvent_width: self.config.max_resolvent_width,
            find_highest_similarity_proofs: self.config.find_highest_similarity_proofs,
            eval_batch_size: self.config.eval_batch_size,
            max_proofs,
            skip_seen_resolvents: match skip_seen_resolvents {
                Some(skip) => skip,
                None => self.config.skip_seen_resolvents,
            },
        }
    }

    /// The proofs, the counters and the cache after a search are what the
    /// model of the search comes to, given the hashes `hashes`, and the
    /// search comes upon those hashes and no others.
    pub open spec fn search_is(
        &self,
        after: &Self,
        res: (Vec<Proof>, FrozenProofStats),
        env: SearchEnv,
        goals: Seq<Seq<LiteralModel>>,
        hashes: Seq<u64>,
    ) -> bool {
        let outcome = search_outcome(env, goals, self.min_similarity_threshold, self.cached(), hashes);
        &&& proofs_view(res.0@) == outcome.proofs
        &&& res.1 == outcome.stats
        &&& after.cached() == outcome.cache
        &&& search_takes(env, goals, self.min_similarity_threshold, self.cached(), hashes)
    }

    /// Two searches of one prover that are given the same things and come
    /// upon the same hashes come to the same proofs, the same counters and
    /// the same cached similarities.
    pub proof fn lemma_same_search_same_outcome(
        &self,
        first_after: &Self,
        first: (Vec<Proof>, FrozenProofStats),
        second_after: &Self,
        second: (Vec<Proof>, FrozenProofStats),
        env: SearchEnv,
        goals: Seq<Seq<LiteralModel>>,
        hashes: Seq<u64>,
    )
        requires
            self.search_is(first_after, first, env, goals, hashes),
            self.search_is(second_after, second, env, goals, hashes),
        ensures
            proofs_view(first.0@) == proofs_view(second.0@),
            first.1 == second.1,
            first_after.cached() == second_after.cached(),
    {
    }

    /// Searches for refutations of the clauses of a negated goal, from the
    /// prover's knowledge, the extra knowledge and those clauses themselves.
    /// Gives the proofs found, the most similar first and at most
    /// `max_proofs` of them, and the counters of the search.
    ///
    /// The proofs, the counters and the similarities cached afterwards are
    /// those of `search_outcome`.  Where the check for seen resolvents is
    /// switched on, that is so for the hashes that the checks came upon:
    /// each check had its hash, and nothing else is known of them.  Where
    /// the check is switched off, no hash plays a part.  Every proof is a refutation as `is_refutation` says, with a
    /// similarity above the prover's floor, and without clauses to refute
    /// there are no proofs and nothing is counted.
    pub fn prove_all_with_stats(
        &mut self,
        inverted_goals: Vec<CNFDisjunction>,
        extra_knowledge: Option<Vec<CNFDisjunction>>,
        max_proofs: Option<usize>,
        skip_seen_resolvents: Option<bool>,
    ) -> (res: (Vec<Proof>, FrozenProofStats))
        requires
            old(self).comparator_ok(),
        ensures
            forall|i: int, j: int|
                0 <= i < j < res.0.len() ==> res.0[i].similarity >= res.0[j].similarity,
            max_proofs matches Some(most) ==> res.0.len() <= most,
            forall|i: int|
                0 <= i < res.0.len() ==> is_refutation(
                    #[trigger] res.0[i],
                    old(self).var_name_pattern.source(),
                    search_knowledge(old(self).base_knowledge@, extra_knowledge, inverted_goals@),
                    clause_views(inverted_goals@).to_set(),
                ),
            forall|i: int|
                0 <= i < res.0.len() ==> (#[trigger] res.0[i]).similarity > old(
                    self,
                ).min_similarity_threshold,
            inverted_goals.len() == 0 ==> res.0.len() == 0 && res.1 == FrozenProofStats::zero(),
            exists|hashes: Seq<u64>| #[trigger]
                old(self).search_is(
                    final(self),
                    res,
                    old(self).search_env(
                        inverted_goals@,
                        extra_knowledge,
                        max_proofs,
                        skip_seen_resolvents,
                    ),
                    ascending_clauses(clause_views(inverted_goals@).to_set()),
                    hashes,
                ),
            !(match skip_seen_resolvents {
                Some(skip) => skip,
                None => old(self).config.skip_seen_resolvents,
            }) ==> old(self).search_is(
                final(self),
                res,
                old(self).search_env(
                    inverted_goals@,
                    extra_knowledge,
                    max_proofs,
                    skip_seen_resolvents,
                ),
                ascending_clauses(clause_views(inverted_goals@).to_set()),
                Seq::empty(),
            ),
            final(self).base_knowledge == old(self).base_knowledge,
            final(self).min_similarity_threshold == old(self).min_similarity_threshold,
            final(self).similarity_fn == old(self).similarity_fn,
            final(self).similarity_cache is Some == old(self).similarity_cache is Some,
            final(self).num_workers == old(self).num_workers,
            final(self).config == old(self).config,
            final(self).var_name_pattern == old(self).var_name_pattern,
    {
        let ghost goals = clause_views(inverted_goals@).to_set();
        let ghost known = search_knowledge(self.base_knowledge@, extra_knowledge, inverted_goals@);
        let ghost env = self.search_env(
            inverted_goals@,
            extra_knowledge,
            max_proofs,
            skip_seen_resolvents,
        );
        let ghost sorted_goals = ascending_clauses(clause_views(inverted_goals@).to_set());
        let ghost prover_before = *self;
        let parsed_extra_knowledge = match extra_knowledge {
            Some(extra) => extra,
            None => Vec::new(),
        };
        let mut knowledge = self.base_knowledge.clone();
        let arc_inverted_goals = knowledge_to_arc(inverted_goals);
        let arc_extra_knowledge = knowledge_to_arc(parsed_extra_knowledge);
        knowledge.extend(&arc_extra_knowledge);
        knowledge.extend(&arc_inverted_goals);
        let goal_count = arc_inverted_goals.len();
        proof {
            assert(clause_views(Seq::<CNFDisjunction>::empty()).to_set() =~= Set::<
                Seq<LiteralModel>,
            >::empty());
            assert(knowledge@.to_set() =~= known);
            if inverted_goals.len() == 0 {
                assert(goals =~= Set::<Seq<LiteralModel>>::empty());
            }
            lemma_ascending_clauses(knowledge@);
            lemma_ascending_clauses(arc_inverted_goals@);
        }
        if goal_count == 0 {
            assert(goals =~= Set::<Seq<LiteralModel>>::empty());
            let res = (Vec::new(), FrozenProofStats::new());
            proof {
                assert(proofs_view(res.0@) =~= Seq::<crate::prover::search_model::ProofModel>::empty());
                assert(prover_before.search_is(&*self, res, env, sorted_goals, Seq::empty()));
            }
            return res;
        }
        let skip = match skip_seen_resolvents {
            Some(skip) => skip,
            None => self.config.skip_seen_resolvents,
        };
        let similarity_cache = self.similarity_cache.take();
        let similarity_fn: Option<&F> = match &self.similarity_fn {
            Some(f) => Some(f),
            None => None,
        };
        let mut ctx = SharedProofContext::new(
            self.min_similarity_threshold,
            max_proofs,
            skip,
            similarity_cache,
            similarity_fn,
        );
        let ghost frame = SearchFrame { env, goals, floor: self.min_similarity_threshold };
        assert(leaves_view(ctx.scored_leaf_proof_steps@) =~= Seq::<
            crate::prover::search_model::LeafModel,
        >::empty());
        let batch = root_batch(
            &arc_inverted_goals,
            Ghost(self.var_name_pattern.source()),
            Ghost(known),
            Ghost(self.config.max_proof_depth),
        );
        let ghost start = search_view(&ctx);
        let hashes = run_batch(
            batch,
            &self.config,
            &knowledge,
            &mut ctx,
            &self.var_name_pattern,
            Ghost(frame),
            Ghost(self.config.max_proof_depth + 1),
        );
        let ghost end = search_view(&ctx);
        proof {
            assert(hashes@ + Seq::<u64>::empty() =~= hashes@);
            assert(crate::prover::search_model::run_outcome(
                env,
                crate::prover::search_model::root_items(sorted_goals),
                start,
                self.config.max_proof_depth + 1,
                hashes@ + Seq::<u64>::empty(),
            ) == (end, Seq::<u64>::empty()));
            assert forall|rest: Seq<u64>|
                #[trigger] crate::prover::search_model::run_outcome(
                    env,
                    crate::prover::search_model::root_items(sorted_goals),
                    start,
                    self.config.max_proof_depth + 1,
                    hashes@ + rest,
                ) == (end, rest) by {}
        }
        let frozen_stats = ctx.stats.copy_and_freeze();
        let proofs = finished_proofs(
            &ctx,
            max_proofs,
            Ghost(self.var_name_pattern.source()),
            Ghost(known),
            Ghost(goals),
            Ghost(self.min_similarity_threshold),
        );
        let SharedProofContext { similarity_cache, .. } = ctx;
        self.similarity_cache = similarity_cache;
        let res = (proofs, frozen_stats);
        proof {
            assert(prover_before.search_is(&*self, res, env, sorted_goals, hashes@));
        }
        res
    }

    /// Adds clauses to the knowledge.
    pub fn extend_knowledge(&mut self, knowledge: Vec<CNFDisjunction>)
        ensures
            final(self).base_knowledge@.to_set() == old(self).base_knowledge@.to_set().union(
                clause_views(knowledge@).to_set(),
            ),
            final(self).min_similarity_threshold == old(self).min_similarity_threshold,
            final(self).similarity_fn == old(self).similarity_fn,
            final(self).similarity_cache == old(self).similarity_cache,
            final(self).num_workers == old(self).num_workers,
            final(self).config == old(self).config,
    {
        let added = knowledge_to_arc(knowledge);
        self.base_knowledge.extend(&added);
    }

    /// Forgets the cached similarities.
    pub fn purge_similarity_cache(&mut self)
        ensures
            final(self).similarity_cache is Some == old(self).similarity_cache is Some,
            final(self).similarity_cache matches Some(cache)
                ==> crate::prover::similarity_cache::cache_entries(cache) == Map::<
                u64,
                u64,
            >::empty(),
            final(self).base_knowledge == old(self).base_knowledge,
            final(self).min_similarity_threshold == old(self).min_similarity_threshold,
            final(self).similarity_fn == old(self).similarity_fn,
            final(self).num_workers == old(self).num_workers,
            final(self).config == old(self).config,
    {
        if self.similarity_cache.is_some() {
            self.similarity_cache = Some(similarity_cache_new());
        }
    }

    /// Forgets the knowledge and the cached similarities.
    pub fn reset(&mut self)
        ensures
            final(self).base_knowledge@ == Seq::<Seq<LiteralModel>>::empty(),
            final(self).similarity_cache is Some == old(self).similarity_cache is Some,
            final(self).similarity_cache matches Some(cache)
                ==> crate::prover::similarity_cache::cache_entries(cache) == Map::<
                u64,
                u64,
            >::empty(),
            final(self).min_similarity_threshold == old(self).min_similarity_threshold,
            final(self).similarity_fn == old(self).similarity_fn,
            final(self).num_workers == old(self).num_workers,
            final(self).config == old(self).config,
    {
        self.base_knowledge = ClauseSet::new();
        self.purge_similarity_cache();
    }
}

} // verus!
