use fuzzy_resolution::prover::proof_context::raw_calc_similarity;
use fuzzy_resolution::prover::similarity::min_similarity;
use fuzzy_resolution::prover::similarity::SIMILARITY_ONE;
use fuzzy_resolution::prover::similarity::SIMILARITY_ZERO;
use fuzzy_resolution::prover::similarity_cache::SimilarityCache;
use fuzzy_resolution::prover::FrozenProofStats;
use fuzzy_resolution::prover::LocalProofContext;
use fuzzy_resolution::prover::ProofStats;
use fuzzy_resolution::prover::SharedProofContext;
use fuzzy_resolution::types::Constant;
use fuzzy_resolution::types::Predicate;
use fuzzy_resolution::types::SimilarityComparable;
use std::sync::atomic::AtomicUsize;
use std::sync::atomic::Ordering;

type Comparator = fn(&String, Option<u64>, &String, Option<u64>) -> u64;

static CALLS_CACHED: AtomicUsize = AtomicUsize::new(0);
static CALLS_PLAIN: AtomicUsize = AtomicUsize::new(0);
static CALLS_SHARED: AtomicUsize = AtomicUsize::new(0);

fn score(a: &String, b: &String) -> u64 {
    // the longer the common start of the two names, the more similar they are
    let common = a.chars().zip(b.chars()).take_while(|(x, y)| x == y).count();
    let longest = a.chars().count().max(b.chars().count()).max(1);
    (common as f64 / longest as f64).to_bits()
}

fn counted_cached(a: &String, _ea: Option<u64>, b: &String, _eb: Option<u64>) -> u64 {
    CALLS_CACHED.fetch_add(1, Ordering::SeqCst);
    score(a, b)
}

fn counted_plain(a: &String, _ea: Option<u64>, b: &String, _eb: Option<u64>) -> u64 {
    CALLS_PLAIN.fetch_add(1, Ordering::SeqCst);
    score(a, b)
}

fn counted_shared(a: &String, _ea: Option<u64>, b: &String, _eb: Option<u64>) -> u64 {
    CALLS_SHARED.fetch_add(1, Ordering::SeqCst);
    score(a, b)
}

const CACHED: Comparator = counted_cached;
const PLAIN: Comparator = counted_plain;
const SHARED: Comparator = counted_shared;

#[test]
fn the_ones_and_zeros_of_similarity_are_the_floats_bits() {
    assert_eq!(SIMILARITY_ONE, 1.0f64.to_bits());
    assert_eq!(SIMILARITY_ZERO, 0.0f64.to_bits());
    assert!(0.4f64.to_bits() < 0.5f64.to_bits());
    assert!(0.999f64.to_bits() < SIMILARITY_ONE);
    assert_eq!(min_similarity(0.7f64.to_bits(), 0.9f64.to_bits()), 0.7f64.to_bits());
    assert_eq!(min_similarity(SIMILARITY_ONE, SIMILARITY_ZERO), SIMILARITY_ZERO);
}

#[test]
fn without_a_comparator_equal_names_are_similar_and_no_others() {
    let none: Option<&Comparator> = None;
    let a = Constant::new("a", None);
    let also_a = Constant::new("a", Some(3));
    let b = Constant::new("b", None);
    assert_eq!(raw_calc_similarity(none, &a, &a), SIMILARITY_ONE);
    assert_eq!(raw_calc_similarity(none, &a, &also_a), SIMILARITY_ONE);
    assert_eq!(raw_calc_similarity(none, &a, &b), SIMILARITY_ZERO);
    assert_eq!(raw_calc_similarity(Some(&PLAIN), &a, &a), SIMILARITY_ONE);
}

#[test]
fn a_cached_pair_is_not_compared_again() {
    let cache = Some(SimilarityCache::default());
    let mut shared = SharedProofContext::new(0, None, false, cache, Some(&CACHED));
    let mut ctx = LocalProofContext::new(&shared);
    let abc = Predicate::new("abc", None);
    let abd = Predicate::new("abd", None);
    let expected = (2.0f64 / 3.0).to_bits();
    assert_eq!(ctx.calc_similarity(&mut shared, &abc, &abd), expected);
    assert_eq!(CALLS_CACHED.load(Ordering::SeqCst), 1);
    // the same pair, and the pair turned round, come from the batch's cache
    assert_eq!(ctx.calc_similarity(&mut shared, &abc, &abd), expected);
    assert_eq!(ctx.calc_similarity(&mut shared, &abd, &abc), expected);
    assert_eq!(CALLS_CACHED.load(Ordering::SeqCst), 1);
    // another batch finds the pair in the shared cache
    let mut other = LocalProofContext::new(&shared);
    assert_eq!(other.calc_similarity(&mut shared, &abd, &abc), expected);
    assert_eq!(shared.calc_similarity(&abc, &abd), expected);
    assert_eq!(CALLS_CACHED.load(Ordering::SeqCst), 1);
    let key = abc.similarity_key() ^ abd.similarity_key();
    assert_eq!(key, abd.similarity_key() ^ abc.similarity_key());
    assert_eq!(shared.similarity_cache.as_ref().unwrap().get(&key).map(|v| *v), Some(expected));
    // a key decides, not the pair: what is stored under a key is what is found
    let abe = Predicate::new("abe", None);
    assert_eq!(shared.calc_similarity_cached(&abc, &abe, key), expected);
    assert_eq!(CALLS_CACHED.load(Ordering::SeqCst), 1);
}

#[test]
fn without_a_cache_every_lookup_asks_the_comparator() {
    let mut shared = SharedProofContext::new(0, None, false, None, Some(&PLAIN));
    let mut ctx = LocalProofContext::new(&shared);
    assert!(ctx.fallthrough_similarity_cache.is_none());
    let before = CALLS_PLAIN.load(Ordering::SeqCst);
    let abc = Constant::new("abc", None);
    let xyz = Constant::new("xyz", None);
    assert_eq!(ctx.calc_similarity(&mut shared, &abc, &xyz), SIMILARITY_ZERO);
    assert_eq!(ctx.calc_similarity(&mut shared, &abc, &xyz), SIMILARITY_ZERO);
    assert_eq!(CALLS_PLAIN.load(Ordering::SeqCst), before + 2);
}

#[test]
fn the_shared_cache_alone_serves_a_second_lookup() {
    let cache = Some(SimilarityCache::default());
    let mut shared = SharedProofContext::new(0, None, false, cache, Some(&SHARED));
    let ab = Constant::new("ab", None);
    let ac = Constant::new("ac", None);
    assert_eq!(shared.calc_similarity(&ab, &ac), 0.5f64.to_bits());
    assert_eq!(shared.calc_similarity(&ac, &ab), 0.5f64.to_bits());
    assert_eq!(CALLS_SHARED.load(Ordering::SeqCst), 1);
}

#[test]
fn a_batchs_counts_are_added_to_the_shared_counters() {
    let mut shared = SharedProofContext::<Comparator>::new(7, None, false, None, None);
    let mut ctx = LocalProofContext::new(&shared);
    assert_eq!(ctx.min_similarity_threshold(&shared), 7);
    ctx.stats.attempted_resolutions = 5;
    ctx.stats.successful_resolutions = 2;
    ctx.stats.max_depth_seen = 3;
    ctx.stats.attempted_unifications = 9;
    ctx.sync_with_shared_ctx(&mut shared);
    assert_eq!(ctx.stats, FrozenProofStats::new());
    ctx.stats.attempted_resolutions = 4;
    ctx.stats.max_depth_seen = 2;
    ctx.stats.max_resolvent_width_seen = 6;
    ctx.stats.discarded_proofs = usize::MAX;
    shared.stats.discarded_proofs = 2;
    ctx.sync_with_shared_ctx(&mut shared);
    let total = shared.stats.copy_and_freeze();
    assert_eq!(total.attempted_resolutions, 9);
    assert_eq!(total.successful_resolutions, 2);
    assert_eq!(total.attempted_unifications, 9);
    assert_eq!(total.max_depth_seen, 3);
    assert_eq!(total.max_resolvent_width_seen, 6);
    // sums wrap round
    assert_eq!(total.discarded_proofs, 1);
    assert_eq!(ProofStats::new().copy_and_freeze(), FrozenProofStats::new());
}
