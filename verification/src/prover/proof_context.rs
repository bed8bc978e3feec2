//! The state of one search: the proofs found, the resolvents seen, the
//! similarity floor, the counters and the cached similarities.

use crate::prover::leaf_proofs::inserted;
use crate::prover::leaf_proofs::lemma_rank_position;
use crate::prover::leaf_proofs::ranked;
use crate::prover::leaf_proofs::ScoredLeaf;
use crate::prover::leaf_proofs::ScoredLeafProofs;
use crate::prover::proof_stats::merged;
use crate::prover::proof_stats::FrozenProofStats;
use crate::prover::proof_stats::ProofStats;
use crate::prover::proof_step::ancestry;
use crate::prover::proof_step::ProofStep;
use crate::prover::proof_step::ProofStepNode;
use crate::prover::similarity::comparator_functional;
use crate::prover::similarity::comparator_total;
use crate::prover::similarity::higher;
use crate::prover::similarity::lemma_comparator_value;
use crate::prover::similarity::max_similarity;
use crate::prover::similarity::pair_key;
use crate::prover::similarity::raw_similarity;
use crate::prover::similarity::SIMILARITY_ONE;
use crate::prover::similarity::SIMILARITY_ZERO;
use crate::prover::similarity_cache::cache_entries;
use crate::prover::similarity_cache::seen_entries;
use crate::prover::similarity_cache::seen_resolvents_get;
use crate::prover::similarity_cache::seen_resolvents_insert;
use crate::prover::similarity_cache::seen_resolvents_new;
use crate::prover::similarity_cache::similarity_cache_get;
use crate::prover::similarity_cache::similarity_cache_insert;
use crate::prover::similarity_cache::FallthroughSimilarityCache;
use crate::prover::similarity_cache::SeenResolventsMap;
use crate::prover::similarity_cache::SimilarityCache;
use crate::types::CNFDisjunction;
use crate::types::SimilarityComparable;
use crate::types::SymbolModel;
use rustc_hash::FxHasher;
use std::collections::HashMap;
use std::hash::Hash;
use std::hash::Hasher;
use vstd::prelude::*;
use vstd::std_specs::hash::group_hash_axioms;

verus! {

broadcast use group_hash_axioms;

/// Feeds a clause to `rustc_hash::FxHasher` (`Hash::hash`, then
/// `Hasher::finish`) and hands back the digest.  The digest depends on the
/// target's word size and byte order, so nothing is claimed of its value.
#[verifier::external_body]
fn fx_hash_clause(clause: &CNFDisjunction) -> u64 {
    let mut hasher = FxHasher::default();
    clause.hash(&mut hasher);
    hasher.finish()
}

/// The cached scores that a similarity lookup reads and writes: those of the
/// batch at work and those that the whole search shares.  `None` stands for a
/// cache that is switched off.
pub struct MemoModel {
    pub local: Option<Map<u64, u64>>,
    pub shared: Option<Map<u64, u64>>,
}

/// A lookup in the shared cache: the stored score if there is one, else
/// `fresh`, which is then stored.
pub open spec fn shared_lookup(cache: Option<Map<u64, u64>>, key: u64, fresh: u64) -> (
    u64,
    Option<Map<u64, u64>>,
) {
    match cache {
        Some(entries) => if entries.contains_key(key) {
            (entries[key], cache)
        } else {
            (fresh, Some(entries.insert(key, fresh)))
        },
        None => (fresh, None),
    }
}

/// A lookup that asks the batch's cache first and the shared cache next, and
/// stores what it learns in both.  `fresh` is the comparator's score for the
/// pair, used only where neither cache has the key.
pub open spec fn memo_lookup(memo: MemoModel, key: u64, fresh: u64) -> (u64, MemoModel) {
    match memo.local {
        Some(entries) => if entries.contains_key(key) {
            (entries[key], memo)
        } else {
            let (score, shared) = shared_lookup(memo.shared, key, fresh);
            (score, MemoModel { local: Some(entries.insert(key, score)), shared })
        },
        None => {
            let (score, shared) = shared_lookup(memo.shared, key, fresh);
            (score, MemoModel { local: None, shared })
        },
    }
}

/// Whether a step may go on, given what was seen of its resolvent before,
/// and what is then on record: a step is turned away when the record is no
/// deeper and no less similar; otherwise the step takes the record's place.
pub open spec fn admission(
    seen: Map<u64, (usize, u64)>,
    hash: u64,
    depth: usize,
    running_similarity: u64,
) -> (bool, Map<u64, (usize, u64)>) {
    if seen.contains_key(hash) && seen[hash].0 <= depth && seen[hash].1 >= running_similarity {
        (false, seen)
    } else {
        (true, seen.insert(hash, (depth, running_similarity)))
    }
}

/// A lookup gives the same score for a pair of symbols in either order, and
/// leaves the same scores cached.
pub proof fn lemma_lookup_symmetric(memo: MemoModel, a: SymbolModel, b: SymbolModel, fresh: u64)
    ensures
        memo_lookup(memo, pair_key(a, b), fresh) == memo_lookup(memo, pair_key(b, a), fresh),
{
    crate::prover::similarity::lemma_pair_key_symmetric(a, b);
}

/// With the shared cache switched on, the comparator is asked at most once
/// for a key: after a first lookup, a second lookup of the same key gives
/// the first one's score whatever the comparator would say then, and changes
/// nothing.
pub proof fn lemma_comparator_asked_once(memo: MemoModel, key: u64, first: u64, second: u64)
    requires
        memo.shared is Some,
    ensures
        memo_lookup(memo_lookup(memo, key, first).1, key, second) == (
            memo_lookup(memo, key, first).0,
            memo_lookup(memo, key, first).1,
        ),
{
    let after = memo_lookup(memo, key, first).1;
    match memo.local {
        Some(entries) => {
            if !entries.contains_key(key) {
                assert(after.local->0.contains_key(key));
            }
        },
        None => {
            assert(after.shared->0.contains_key(key));
        },
    }
}

/// A key that is cached stays cached, with its score, through any later
/// lookup.
pub proof fn lemma_cached_scores_stay(memo: MemoModel, cached: u64, key: u64, fresh: u64)
    requires
        memo.shared matches Some(entries) && entries.contains_key(cached),
    ensures
        memo_lookup(memo, key, fresh).1.shared matches Some(entries) && entries.contains_key(cached)
            && entries[cached] == memo.shared->0[cached],
{
}

/// Of two steps that come to one resolvent, the later one is let pass only
/// if it is strictly better than the earlier one in depth or in similarity.
/// Here the record under the resolvent's hash is the same when the later
/// step is checked as it was after the earlier step was checked.
pub proof fn lemma_later_step_must_be_better(
    seen: Map<u64, (usize, u64)>,
    between: Map<u64, (usize, u64)>,
    hash: u64,
    first_depth: usize,
    first_similarity: u64,
    second_depth: usize,
    second_similarity: u64,
)
    requires
        between.contains_key(hash),
        between[hash] == admission(seen, hash, first_depth, first_similarity).1[hash],
        admission(between, hash, second_depth, second_similarity).0,
    ensures
        second_depth < first_depth || second_similarity > first_similarity,
{
}

/// A step that is checked leaves a record under its hash that is no deeper
/// and no less similar than the step.
pub proof fn lemma_admission_records(
    seen: Map<u64, (usize, u64)>,
    hash: u64,
    depth: usize,
    running_similarity: u64,
)
    ensures
        admission(seen, hash, depth, running_similarity).1.contains_key(hash),
        admission(seen, hash, depth, running_similarity).1[hash].0 <= depth,
        admission(seen, hash, depth, running_similarity).1[hash].1 >= running_similarity,
{
}

/// The score of a pair of symbols before any caching, as a function of the
/// pair: the comparator's where there is one, and else whether the names
/// are equal.
pub open spec fn raw_with<F: Fn(&String, Option<u64>, &String, Option<u64>) -> u64>(
    similarity_fn: Option<&F>,
) -> spec_fn(SymbolModel, SymbolModel) -> u64 {
    |a: SymbolModel, b: SymbolModel| raw_similarity(similarity_fn, a, b)
}

/// The state that all the work of one search shares.
pub struct SharedProofContext<'a, F> {
    pub stats: ProofStats,
    /// The floor that a similarity must exceed.  It rises when the list of
    /// proofs is full and a proof is dropped from it.
    pub min_similarity_threshold: u64,
    pub max_proofs: Option<usize>,
    pub scored_leaf_proof_steps: ScoredLeafProofs,
    pub skip_seen_resolvents: bool,
    pub seen_resolvents: SeenResolventsMap,
    pub similarity_cache: Option<SimilarityCache>,
    pub similarity_fn: Option<&'a F>,
}

impl<'a, F: Fn(&String, Option<u64>, &String, Option<u64>) -> u64> SharedProofContext<'a, F> {
    /// The entries of the shared similarity cache, if it is switched on.
    pub open spec fn cache(&self) -> Option<Map<u64, u64>> {
        match self.similarity_cache {
            Some(cache) => Some(cache_entries(cache)),
            None => None,
        }
    }

    /// What is on record of the resolvents seen.
    pub open spec fn seen(&self) -> Map<u64, (usize, u64)> {
        seen_entries(self.seen_resolvents)
    }

    /// The comparator, if there is one, accepts every pair and is a function.
    pub open spec fn comparator_ok(&self) -> bool {
        self.similarity_fn matches Some(f) ==> comparator_total(f) && comparator_functional(f)
    }

    /// The score of a pair of symbols before any caching.
    pub open spec fn raw(&self) -> spec_fn(SymbolModel, SymbolModel) -> u64 {
        raw_with(self.similarity_fn)
    }

    /// `other` differs from this context in the entries of its similarity
    /// cache at most.
    pub open spec fn same_search_state(&self, other: &Self) -> bool {
        &&& other.similarity_cache is Some == self.similarity_cache is Some
        &&& other.stats == self.stats
        &&& other.min_similarity_threshold == self.min_similarity_threshold
        &&& other.max_proofs == self.max_proofs
        &&& other.scored_leaf_proof_steps == self.scored_leaf_proof_steps
        &&& other.skip_seen_resolvents == self.skip_seen_resolvents
        &&& other.seen_resolvents == self.seen_resolvents
        &&& other.similarity_fn == self.similarity_fn
    }

    /// `after` is this context with the proof that ends in `proof_step`
    /// recorded: the proof is put in its place in the list; if the list is
    /// then longer than `max_proofs`, its last entry is dropped, the drop is
    /// counted, and the floor is raised to the similarity of the new last
    /// entry, if it was below that.
    pub open spec fn leaf_recorded(&self, after: &Self, proof_step: ProofStepNode) -> bool {
        let entry = (
            proof_step.inner.running_similarity,
            proof_step.inner.depth,
            proof_step,
            self.stats@,
        );
        let grown = inserted(self.scored_leaf_proof_steps@, entry);
        &&& if self.max_proofs is Some && grown.len() > self.max_proofs->0 {
            &&& after.scored_leaf_proof_steps@ == grown.drop_last()
            &&& after.stats@ == (FrozenProofStats {
                discarded_proofs: self.stats.discarded_proofs.wrapping_add(1),
                ..self.stats@
            })
            &&& after.min_similarity_threshold == (if grown.len() > 1 {
                higher(self.min_similarity_threshold, grown[grown.len() - 2].0)
            } else {
                self.min_similarity_threshold
            })
        } else {
            &&& after.scored_leaf_proof_steps@ == grown
            &&& after.stats@ == self.stats@
            &&& after.min_similarity_threshold == self.min_similarity_threshold
        }
        &&& after.max_proofs == self.max_proofs
        &&& after.skip_seen_resolvents == self.skip_seen_resolvents
        &&& after.seen_resolvents == self.seen_resolvents
        &&& after.similarity_cache == self.similarity_cache
        &&& after.similarity_fn == self.similarity_fn
    }

    /// Recording a proof never lowers the floor.  Where the list is not cut,
    /// the floor and the count of dropped proofs stay as they are; where it
    /// is cut, the drop is counted, and a new last entry whose similarity is
    /// not below the old floor gives the new floor.
    pub proof fn lemma_floor_never_falls(&self, after: &Self, proof_step: ProofStepNode)
        requires
            self.leaf_recorded(after, proof_step),
        ensures
            after.min_similarity_threshold >= self.min_similarity_threshold,
            !(self.max_proofs matches Some(most) && self.scored_leaf_proof_steps@.len() >= most)
                ==> after.min_similarity_threshold == self.min_similarity_threshold
                && after.stats@ == self.stats@,
            self.max_proofs matches Some(most) && self.scored_leaf_proof_steps@.len() >= most
                ==> after.stats@.discarded_proofs == self.stats@.discarded_proofs.wrapping_add(1),
            self.max_proofs matches Some(most) && self.scored_leaf_proof_steps@.len() >= most
                && after.scored_leaf_proof_steps@.len() > 0
                && after.scored_leaf_proof_steps@.last().0 >= self.min_similarity_threshold
                ==> after.min_similarity_threshold == after.scored_leaf_proof_steps@.last().0,
    {
        let entry = (
            proof_step.inner.running_similarity,
            proof_step.inner.depth,
            proof_step,
            self.stats@,
        );
        lemma_rank_position(self.scored_leaf_proof_steps@, entry, 0);
    }

    /// Recording a proof adds one entry to the list, the proof's, unless the
    /// list is cut: a list that was full is as long as before.
    pub proof fn lemma_recording_adds_one(&self, after: &Self, proof_step: ProofStepNode)
        requires
            self.leaf_recorded(after, proof_step),
        ensures
            !(self.max_proofs matches Some(most) && self.scored_leaf_proof_steps@.len() >= most)
                ==> after.scored_leaf_proof_steps@.len() == self.scored_leaf_proof_steps@.len() + 1
                && exists|i: int|
                0 <= i < after.scored_leaf_proof_steps@.len()
                    && (#[trigger] after.scored_leaf_proof_steps@[i]).2 == proof_step,
            self.max_proofs matches Some(most) && self.scored_leaf_proof_steps@.len() >= most
                ==> after.scored_leaf_proof_steps@.len() == self.scored_leaf_proof_steps@.len(),
    {
        let entry = (
            proof_step.inner.running_similarity,
            proof_step.inner.depth,
            proof_step,
            self.stats@,
        );
        lemma_rank_position(self.scored_leaf_proof_steps@, entry, 0);
        let at = crate::prover::leaf_proofs::rank_position(self.scored_leaf_proof_steps@, entry, 0);
        let grown = inserted(self.scored_leaf_proof_steps@, entry);
        assert(grown[at] == entry);
    }

    pub fn new(
        initial_min_similarity_threshold: u64,
        max_proofs: Option<usize>,
        skip_seen_resolvents: bool,
        similarity_cache: Option<SimilarityCache>,
        similarity_fn: Option<&'a F>,
    ) -> (res: Self)
        ensures
            res.stats@ == FrozenProofStats::zero(),
            res.min_similarity_threshold == initial_min_similarity_threshold,
            res.max_proofs == max_proofs,
            res.scored_leaf_proof_steps@ == Seq::<ScoredLeaf>::empty(),
            res.skip_seen_resolvents == skip_seen_resolvents,
            res.seen() == Map::<u64, (usize, u64)>::empty(),
            res.similarity_cache == similarity_cache,
            res.similarity_fn == similarity_fn,
    {
        SharedProofContext {
            stats: ProofStats::new(),
            min_similarity_threshold: initial_min_similarity_threshold,
            max_proofs,
            scored_leaf_proof_steps: ScoredLeafProofs::new(),
            skip_seen_resolvents,
            seen_resolvents: seen_resolvents_new(),
            similarity_cache,
            similarity_fn,
        }
    }

    /// Records a finished proof; see `leaf_recorded`.
    pub fn record_leaf_proof(&mut self, proof_step: ProofStepNode)
        ensures
            old(self).leaf_recorded(final(self), proof_step),
    {
        let entry = (
            proof_step.inner.running_similarity,
            proof_step.inner.depth,
            proof_step,
            self.stats.copy_and_freeze(),
        );
        self.scored_leaf_proof_steps.insert(entry);
        if let Some(max_proofs) = self.max_proofs {
            if self.scored_leaf_proof_steps.len() > max_proofs {
                self.scored_leaf_proof_steps.pop();
                self.stats.discarded_proofs = self.stats.discarded_proofs.wrapping_add(1);
                if let Some(similarity) = self.scored_leaf_proof_steps.last_similarity() {
                    self.min_similarity_threshold = max_similarity(
                        self.min_similarity_threshold,
                        similarity,
                    );
                }
            }
        }
    }

    /// A copy of each recorded proof's last step, with the counters at the
    /// time the proof was found, in rank order.
    pub fn leaf_proof_steps_with_stats(&self) -> (res: Vec<(ProofStep, FrozenProofStats)>)
        ensures
            res.len() == self.scored_leaf_proof_steps@.len(),
            ranked(self.scored_leaf_proof_steps@),
            forall|i: int|
                0 <= i < res.len() ==> {
                    &&& (#[trigger] res[i]).0@ == self.scored_leaf_proof_steps@[i].2.inner@
                    &&& res[i].0.parent == self.scored_leaf_proof_steps@[i].2.inner.parent
                    &&& ancestry(res[i].0) == ancestry(*self.scored_leaf_proof_steps@[i].2.inner)
                    &&& res[i].1 == self.scored_leaf_proof_steps@[i].3
                },
    {
        let mut res: Vec<(ProofStep, FrozenProofStats)> = Vec::new();
        let n = self.scored_leaf_proof_steps.len();
        let mut i: usize = 0;
        while i < n
            invariant
                i <= n,
                n == self.scored_leaf_proof_steps@.len(),
                res.len() == i,
                forall|j: int|
                    0 <= j < i ==> {
                        &&& (#[trigger] res[j]).0@ == self.scored_leaf_proof_steps@[j].2.inner@
                        &&& res[j].0.parent == self.scored_leaf_proof_steps@[j].2.inner.parent
                        &&& ancestry(res[j].0) == ancestry(
                            *self.scored_leaf_proof_steps@[j].2.inner,
                        )
                        &&& res[j].1 == self.scored_leaf_proof_steps@[j].3
                    },
            decreases n - i,
        {
            let entry = self.scored_leaf_proof_steps.get(i);
            let step: ProofStep = (*entry.2.inner).clone();
            res.push((step, entry.3));
            i += 1;
        }
        res
    }

    pub fn total_leaf_proofs(&self) -> (n: usize)
        ensures
            n == self.scored_leaf_proof_steps@.len(),
            ranked(self.scored_leaf_proof_steps@),
    {
        self.scored_leaf_proof_steps.len()
    }

    /// Says whether `proof_step` may be expanded.  Without the check for
    /// seen resolvents every step may.  With it, the resolvent is hashed and
    /// the step is held against what is on record under that hash.
    pub fn check_resolvent(&mut self, proof_step: &ProofStep) -> (fresh: bool)
        ensures
            !old(self).skip_seen_resolvents ==> fresh && final(self).seen() == old(self).seen(),
            old(self).skip_seen_resolvents ==> exists|hash: u64|
                (fresh, final(self).seen()) == #[trigger] admission(
                    old(self).seen(),
                    hash,
                    proof_step.depth,
                    proof_step.running_similarity,
                ),
            final(self).stats == old(self).stats,
            final(self).min_similarity_threshold == old(self).min_similarity_threshold,
            final(self).max_proofs == old(self).max_proofs,
            final(self).scored_leaf_proof_steps == old(self).scored_leaf_proof_steps,
            final(self).skip_seen_resolvents == old(self).skip_seen_resolvents,
            final(self).similarity_cache == old(self).similarity_cache,
            final(self).similarity_fn == old(self).similarity_fn,
    {
        if !self.skip_seen_resolvents {
            return true;
        }
        let resolvent_hash = fx_hash_clause(&proof_step.resolvent.item);
        let (is_new, _) = self.check_seen_resolvent_info(resolvent_hash, proof_step);
        is_new
    }

    /// Holds `proof_step` against what is on record under `resolvent_hash`:
    /// says whether the step may go on, and what is on record afterwards.
    pub fn check_seen_resolvent_info(&mut self, resolvent_hash: u64, proof_step: &ProofStep) -> (res:
        (bool, (usize, u64)))
        ensures
            (res.0, final(self).seen()) == admission(
                old(self).seen(),
                resolvent_hash,
                proof_step.depth,
                proof_step.running_similarity,
            ),
            res.1 == final(self).seen()[resolvent_hash],
            final(self).seen().contains_key(resolvent_hash),
            final(self).stats == old(self).stats,
            final(self).min_similarity_threshold == old(self).min_similarity_threshold,
            final(self).max_proofs == old(self).max_proofs,
            final(self).scored_leaf_proof_steps == old(self).scored_leaf_proof_steps,
            final(self).skip_seen_resolvents == old(self).skip_seen_resolvents,
            final(self).similarity_cache == old(self).similarity_cache,
            final(self).similarity_fn == old(self).similarity_fn,
    {
        if let Some(seen_resolvent_data) = seen_resolvents_get(&self.seen_resolvents, resolvent_hash) {
            let (prev_depth, prev_similarity) = seen_resolvent_data;
            if prev_depth <= proof_step.depth && prev_similarity >= proof_step.running_similarity {
                return (false, (prev_depth, prev_similarity));
            }
        }
        let seen_resolvent_data = (proof_step.depth, proof_step.running_similarity);
        seen_resolvents_insert(&mut self.seen_resolvents, resolvent_hash, seen_resolvent_data);
        (true, seen_resolvent_data)
    }

    /// The similarity of two symbols: from the shared cache where it is
    /// switched on and has the pair's key, else from the comparator.
    pub fn calc_similarity<T: SimilarityComparable>(&mut self, source: &T, target: &T) -> (score:
        u64)
        requires
            old(self).comparator_ok(),
        ensures
            (score, final(self).cache()) == shared_lookup(
                old(self).cache(),
                pair_key(source.model(), target.model()),
                raw_similarity(old(self).similarity_fn, source.model(), target.model()),
            ),
            old(self).same_search_state(final(self)),
    {
        let key = source.similarity_key() ^ target.similarity_key();
        self.calc_similarity_cached(source, target, key)
    }

    /// The similarity of two symbols, cached under `key`.
    pub fn calc_similarity_cached<T: SimilarityComparable>(
        &mut self,
        source: &T,
        target: &T,
        key: u64,
    ) -> (score: u64)
        requires
            old(self).comparator_ok(),
        ensures
            (score, final(self).cache()) == shared_lookup(
                old(self).cache(),
                key,
                raw_similarity(old(self).similarity_fn, source.model(), target.model()),
            ),
            old(self).same_search_state(final(self)),
    {
        match &mut self.similarity_cache {
            Some(cache) => {
                if let Some(similarity) = similarity_cache_get(cache, key) {
                    return similarity;
                }
                let similarity = raw_calc_similarity(self.similarity_fn, source, target);
                similarity_cache_insert(cache, key, similarity);
                similarity
            },
            None => raw_calc_similarity(self.similarity_fn, source, target),
        }
    }
}

/// The similarity of two symbols without any caching: the comparator's
/// score, or, without a comparator, whether the names are equal.
pub fn raw_calc_similarity<
    F: Fn(&String, Option<u64>, &String, Option<u64>) -> u64,
    T: SimilarityComparable,
>(similarity_fn: Option<&F>, src: &T, tgt: &T) -> (score: u64)
    requires
        similarity_fn matches Some(f) ==> comparator_total(f) && comparator_functional(f),
    ensures
        score == raw_similarity(similarity_fn, src.model(), tgt.model()),
{
    match similarity_fn {
        Some(f) => {
            let a = src.symbol();
            let b = tgt.symbol();
            let ea = src.embedding();
            let eb = tgt.embedding();
            let score = f(a, ea, b, eb);
            proof {
                lemma_comparator_value(f, *a, ea, *b, eb, score);
            }
            score
        },
        None => {
            if *src.symbol() == *tgt.symbol() {
                SIMILARITY_ONE
            } else {
                SIMILARITY_ZERO
            }
        },
    }
}

/// The state of one batch of work: the counts not yet added to the shared
/// counters, and a cache that is asked before the shared one.
pub struct LocalProofContext {
    pub stats: FrozenProofStats,
    pub fallthrough_similarity_cache: Option<FallthroughSimilarityCache>,
}

impl LocalProofContext {
    /// The entries of the batch's cache, if it is switched on.
    pub open spec fn cache(&self) -> Option<Map<u64, u64>> {
        match self.fallthrough_similarity_cache {
            Some(cache) => Some(cache@),
            None => None,
        }
    }

    /// The cached scores that a lookup of this batch reads and writes.
    pub open spec fn memo<F: Fn(&String, Option<u64>, &String, Option<u64>) -> u64>(
        &self,
        shared: &SharedProofContext<F>,
    ) -> MemoModel {
        MemoModel { local: self.cache(), shared: shared.cache() }
    }

    /// A context for a new batch: no counts yet, and an empty cache if the
    /// search caches similarities at all.
    pub fn new<F: Fn(&String, Option<u64>, &String, Option<u64>) -> u64>(
        shared: &SharedProofContext<F>,
    ) -> (res: Self)
        ensures
            res.stats == FrozenProofStats::zero(),
            res.cache() == (if shared.similarity_cache is Some {
                Some(Map::<u64, u64>::empty())
            } else {
                None
            }),
    {
        let fallthrough_similarity_cache = match &shared.similarity_cache {
            Some(_) => Some(HashMap::new()),
            None => None,
        };
        LocalProofContext { stats: FrozenProofStats::new(), fallthrough_similarity_cache }
    }

    /// The similarity of two symbols: from the batch's cache, else from the
    /// shared cache, else from the comparator; what is learnt is stored.
    pub fn calc_similarity<
        F: Fn(&String, Option<u64>, &String, Option<u64>) -> u64,
        T: SimilarityComparable,
    >(&mut self, shared: &mut SharedProofContext<F>, source: &T, target: &T) -> (score: u64)
        requires
            old(shared).comparator_ok(),
        ensures
            (score, final(self).memo(final(shared))) == memo_lookup(
                old(self).memo(old(shared)),
                pair_key(source.model(), target.model()),
                raw_similarity(old(shared).similarity_fn, source.model(), target.model()),
            ),
            final(self).stats == old(self).stats,
            old(shared).same_search_state(final(shared)),
    {
        let key = source.similarity_key() ^ target.similarity_key();
        match &mut self.fallthrough_similarity_cache {
            Some(cache) => {
                if let Some(similarity) = cache.get(&key) {
                    return *similarity;
                }
                let similarity = shared.calc_similarity_cached(source, target, key);
                cache.insert(key, similarity);
                similarity
            },
            None => shared.calc_similarity(source, target),
        }
    }

    /// Says whether `proof_step` may be expanded; see
    /// `SharedProofContext::check_resolvent`.
    pub fn check_resolvent<F: Fn(&String, Option<u64>, &String, Option<u64>) -> u64>(
        &mut self,
        shared: &mut SharedProofContext<F>,
        proof_step: &ProofStep,
    ) -> (fresh: bool)
        ensures
            !old(shared).skip_seen_resolvents ==> fresh && final(shared).seen() == old(
                shared,
            ).seen(),
            old(shared).skip_seen_resolvents ==> exists|hash: u64|
                (fresh, final(shared).seen()) == #[trigger] admission(
                    old(shared).seen(),
                    hash,
                    proof_step.depth,
                    proof_step.running_similarity,
                ),
            *final(self) == *old(self),
            final(shared).stats == old(shared).stats,
            final(shared).min_similarity_threshold == old(shared).min_similarity_threshold,
            final(shared).max_proofs == old(shared).max_proofs,
            final(shared).scored_leaf_proof_steps == old(shared).scored_leaf_proof_steps,
            final(shared).skip_seen_resolvents == old(shared).skip_seen_resolvents,
            final(shared).similarity_cache == old(shared).similarity_cache,
            final(shared).similarity_fn == old(shared).similarity_fn,
    {
        shared.check_resolvent(proof_step)
    }

    /// The floor that a similarity must exceed at this moment.
    pub fn min_similarity_threshold<F: Fn(&String, Option<u64>, &String, Option<u64>) -> u64>(
        &self,
        shared: &SharedProofContext<F>,
    ) -> (floor: u64)
        ensures
            floor == shared.min_similarity_threshold,
    {
        shared.min_similarity_threshold
    }

    /// Adds the batch's counts to the shared counters and starts counting
    /// from nothing again.
    pub fn sync_with_shared_ctx<F: Fn(&String, Option<u64>, &String, Option<u64>) -> u64>(
        &mut self,
        shared: &mut SharedProofContext<F>,
    )
        ensures
            final(shared).stats@ == merged(old(shared).stats@, old(self).stats),
            final(self).stats == FrozenProofStats::zero(),
            final(self).fallthrough_similarity_cache == old(self).fallthrough_similarity_cache,
            final(shared).min_similarity_threshold == old(shared).min_similarity_threshold,
            final(shared).max_proofs == old(shared).max_proofs,
            final(shared).scored_leaf_proof_steps == old(shared).scored_leaf_proof_steps,
            final(shared).skip_seen_resolvents == old(shared).skip_seen_resolvents,
            final(shared).seen_resolvents == old(shared).seen_resolvents,
            final(shared).similarity_cache == old(shared).similarity_cache,
            final(shared).similarity_fn == old(shared).similarity_fn,
    {
        shared.stats.absorb(&self.stats);
        self.stats = FrozenProofStats::new();
    }
}

} // verus!
