//! Similarity scores and the comparator that supplies them.
//!
//! A score is a 64-bit key whose order is the order of the similarities.
//! The bit pattern of an IEEE-754 double in the range from 0 to 1 is such a
//! key: for doubles that are not negative, a greater number has a greater
//! pattern.  `SIMILARITY_ZERO` and `SIMILARITY_ONE` are the patterns of 0 and
//! of 1.

use crate::types::SymbolModel;
use vstd::prelude::*;

verus! {

/// The score of two symbols that have nothing in common.
pub const SIMILARITY_ZERO: u64 = 0;

/// The score of two symbols that are the same.
pub const SIMILARITY_ONE: u64 = 0x3FF0_0000_0000_0000;

/// The lesser of two scores.
pub open spec fn lower(a: u64, b: u64) -> u64 {
    if a <= b {
        a
    } else {
        b
    }
}

pub fn min_similarity(a: u64, b: u64) -> (r: u64)
    ensures
        r == lower(a, b),
{
    if a <= b {
        a
    } else {
        b
    }
}

/// The greater of two scores.
pub open spec fn higher(a: u64, b: u64) -> u64 {
    if a >= b {
        a
    } else {
        b
    }
}

pub fn max_similarity(a: u64, b: u64) -> (r: u64)
    ensures
        r == higher(a, b),
{
    if a >= b {
        a
    } else {
        b
    }
}

/// The comparator accepts every pair of symbols.
pub open spec fn comparator_total<F: Fn(&String, Option<u64>, &String, Option<u64>) -> u64>(
    f: &F,
) -> bool {
    forall|a: String, ea: Option<u64>, b: String, eb: Option<u64>| #[trigger]
        f.requires((&a, ea, &b, eb))
}

/// `score` is what some call of the comparator may return for a pair of
/// symbols, each given by name and embedding identity.
pub open spec fn comparator_gives<F: Fn(&String, Option<u64>, &String, Option<u64>) -> u64>(
    f: &F,
    a: Seq<char>,
    ea: Option<u64>,
    b: Seq<char>,
    eb: Option<u64>,
    score: u64,
) -> bool {
    exists|sa: String, sb: String|
        sa@ == a && sb@ == b && #[trigger] f.ensures((&sa, ea, &sb, eb), score)
}

/// The score that the comparator gives a pair of symbols, each given by name
/// and embedding identity.
pub open spec fn comparator_value<F: Fn(&String, Option<u64>, &String, Option<u64>) -> u64>(
    f: &F,
    a: Seq<char>,
    ea: Option<u64>,
    b: Seq<char>,
    eb: Option<u64>,
) -> u64 {
    choose|score: u64| comparator_gives(f, a, ea, b, eb, score)
}

/// The comparator is a function: its score depends on nothing but the names
/// and the embedding identities of the two symbols.  Two calls on names
/// that read the same, with the same embedding identities, return the same
/// score.
pub open spec fn comparator_functional<F: Fn(&String, Option<u64>, &String, Option<u64>) -> u64>(
    f: &F,
) -> bool {
    forall|
        a: String,
        b: String,
        c: String,
        d: String,
        ea: Option<u64>,
        eb: Option<u64>,
        first: u64,
        second: u64,
    |
        #![trigger f.ensures((&a, ea, &b, eb), first), f.ensures((&c, ea, &d, eb), second)]
        f.ensures((&a, ea, &b, eb), first) && f.ensures((&c, ea, &d, eb), second) && a@ == c@
            && b@ == d@ ==> first == second
}

/// What a call of a comparator that is a function returns is the score
/// that the comparator gives the pair.
pub proof fn lemma_comparator_value<F: Fn(&String, Option<u64>, &String, Option<u64>) -> u64>(
    f: &F,
    a: String,
    ea: Option<u64>,
    b: String,
    eb: Option<u64>,
    score: u64,
)
    requires
        comparator_functional(f),
        f.ensures((&a, ea, &b, eb), score),
    ensures
        score == comparator_value(f, a@, ea, b@, eb),
{
    assert(comparator_gives(f, a@, ea, b@, eb, score));
    let chosen = comparator_value(f, a@, ea, b@, eb);
    assert(comparator_gives(f, a@, ea, b@, eb, chosen));
    let (sa, sb) = choose|sa: String, sb: String|
        sa@ == a@ && sb@ == b@ && #[trigger] f.ensures((&sa, ea, &sb, eb), chosen);
    assert(f.ensures((&a, ea, &b, eb), score) && f.ensures((&sa, ea, &sb, eb), chosen));
}

/// The score of a pair of symbols before any caching: the comparator's, or,
/// without a comparator, `SIMILARITY_ONE` for equal names and
/// `SIMILARITY_ZERO` for different ones.
pub open spec fn raw_similarity<F: Fn(&String, Option<u64>, &String, Option<u64>) -> u64>(
    f: Option<&F>,
    a: SymbolModel,
    b: SymbolModel,
) -> u64 {
    match f {
        Some(f) => comparator_value(f, a.symbol, a.embedding, b.symbol, b.embedding),
        None => if a.symbol == b.symbol {
            SIMILARITY_ONE
        } else {
            SIMILARITY_ZERO
        },
    }
}

/// The key under which the score of a pair of symbols is cached.  It does not
/// depend on the order of the pair.
pub open spec fn pair_key(a: SymbolModel, b: SymbolModel) -> u64 {
    a.key ^ b.key
}

/// The key of a pair of symbols is the same in either order, so a score
/// cached for a pair is the score found for the pair turned round.
pub proof fn lemma_pair_key_symmetric(a: SymbolModel, b: SymbolModel)
    ensures
        pair_key(a, b) == pair_key(b, a),
{
    let x = a.key;
    let y = b.key;
    assert(x ^ y == y ^ x) by (bit_vector);
}

} // verus!
