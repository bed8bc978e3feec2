//! The concurrent maps that a search keeps: cached similarity scores and the
//! best sighting of each resolvent.

use dashmap::DashMap;
use rustc_hash::FxHasher;
use std::collections::HashMap;
use std::hash::BuildHasherDefault;
use vstd::prelude::*;

verus! {

/// `dashmap::DashMap`, a hash map that may be shared between threads.  Its
/// inside is hidden; what it holds goes by the names `cache_entries` and
/// `seen_entries`.
#[verifier::external_type_specification]
#[verifier::external_body]
#[verifier::reject_recursive_types(K)]
#[verifier::reject_recursive_types(V)]
#[verifier::reject_recursive_types(S)]
pub struct ExDashMap<K, V, S>(DashMap<K, V, S>);

/// `rustc_hash::FxHasher`, the hasher of the two maps.  Its inside is
/// hidden.
#[verifier::external_type_specification]
#[verifier::external_body]
pub struct ExFxHasher(FxHasher);

/// `std::hash::BuildHasherDefault`, which makes the maps' hashers.  Its
/// inside is hidden.
#[verifier::external_type_specification]
#[verifier::external_body]
#[verifier::reject_recursive_types(H)]
pub struct ExBuildHasherDefault<H>(BuildHasherDefault<H>);

/// Similarity scores by the key of the pair of symbols they belong to.
pub type SimilarityCache = DashMap<u64, u64, BuildHasherDefault<FxHasher>>;

/// A cache of one batch of work, asked before the shared one.
pub type FallthroughSimilarityCache = HashMap<u64, u64>;

/// For the hash of a resolvent, the depth and the running similarity of the
/// best step that produced it so far.
pub type SeenResolventsMap = DashMap<u64, (usize, u64), BuildHasherDefault<FxHasher>>;

/// The entries of a similarity cache: what `DashMap::get` finds under each
/// key.
pub uninterp spec fn cache_entries(cache: SimilarityCache) -> Map<u64, u64>;

/// The entries of a map of seen resolvents: what `DashMap::get` finds
/// under each key.
pub uninterp spec fn seen_entries(seen: SeenResolventsMap) -> Map<u64, (usize, u64)>;

/// `DashMap::default`: a map without entries.
#[verifier::external_body]
pub(crate) fn similarity_cache_new() -> (cache: SimilarityCache)
    ensures
        (cache_entries(cache) == Map::<u64, u64>::empty()),
{
    DashMap::default()
}

/// `DashMap::get`: the value stored under `key`, if there is one.
#[verifier::external_body]
pub(crate) fn similarity_cache_get(cache: &SimilarityCache, key: u64) -> (value: Option<u64>)
    ensures
        value == (if cache_entries(*cache).contains_key(key) {
            Some(cache_entries(*cache)[key])
        } else {
            None
        }),
{
    cache.get(&key).map(|entry| *entry)
}

/// `DashMap::insert`: stores `value` under `key`, in place of what was there.
#[verifier::external_body]
pub(crate) fn similarity_cache_insert(cache: &mut SimilarityCache, key: u64, value: u64)
    ensures
        cache_entries(*final(cache)) == cache_entries(*old(cache)).insert(key, value),
{
    cache.insert(key, value);
}

/// `DashMap::default`: a map without entries.
#[verifier::external_body]
pub(crate) fn seen_resolvents_new() -> (seen: SeenResolventsMap)
    ensures
        (seen_entries(seen) == Map::<u64, (usize, u64)>::empty()),
{
    DashMap::default()
}

/// `DashMap::get`: the value stored under `key`, if there is one.
#[verifier::external_body]
pub(crate) fn seen_resolvents_get(seen: &SeenResolventsMap, key: u64) -> (value: Option<
    (usize, u64),
>)
    ensures
        value == (if seen_entries(*seen).contains_key(key) {
            Some(seen_entries(*seen)[key])
        } else {
            None
        }),
{
    seen.get(&key).map(|entry| *entry)
}

/// `DashMap::insert`: stores `value` under `key`, in place of what was there.
#[verifier::external_body]
pub(crate) fn seen_resolvents_insert(seen: &mut SeenResolventsMap, key: u64, value: (usize, u64))
    ensures
        seen_entries(*final(seen)) == seen_entries(*old(seen)).insert(key, value),
{
    seen.insert(key, value);
}

} // verus!
