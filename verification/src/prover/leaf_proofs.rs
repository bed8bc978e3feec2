//! The ranked list of the proofs that a search has found.

use crate::prover::proof_stats::FrozenProofStats;
use crate::prover::proof_step::ProofStepNode;
use vstd::prelude::*;

verus! {

/// A finished proof as the search keeps it: the running similarity and the
/// depth of its last step, that step, and the counters at the time it was
/// found.
pub type ScoredLeaf = (u64, usize, ProofStepNode, FrozenProofStats);

/// `a` ranks strictly after `b`: it is less similar, or as similar and deeper.
pub open spec fn ranks_after(a: ScoredLeaf, b: ScoredLeaf) -> bool {
    a.0 < b.0 || (a.0 == b.0 && a.1 > b.1)
}

/// No entry ranks strictly after one that follows it.
pub open spec fn ranked(list: Seq<ScoredLeaf>) -> bool {
    forall|i: int, j: int| 0 <= i < j < list.len() ==> !ranks_after(list[i], list[j])
}

/// The first position at or after `from` whose entry ranks strictly after
/// `entry`; the length of the list if there is none.
pub open spec fn rank_position(list: Seq<ScoredLeaf>, entry: ScoredLeaf, from: int) -> int
    decreases list.len() - from,
{
    if from < 0 || from >= list.len() {
        list.len() as int
    } else if ranks_after(list[from], entry) {
        from
    } else {
        rank_position(list, entry, from + 1)
    }
}

/// The list with `entry` put behind every entry that does not rank strictly
/// after it: what a stable sort makes of the list with `entry` at its end.
pub open spec fn inserted(list: Seq<ScoredLeaf>, entry: ScoredLeaf) -> Seq<ScoredLeaf> {
    list.insert(rank_position(list, entry, 0), entry)
}

pub proof fn lemma_rank_position(list: Seq<ScoredLeaf>, entry: ScoredLeaf, from: int)
    requires
        0 <= from <= list.len(),
    ensures
        from <= rank_position(list, entry, from) <= list.len(),
        forall|i: int|
            from <= i < rank_position(list, entry, from) ==> !ranks_after(
                #[trigger] list[i],
                entry,
            ),
        rank_position(list, entry, from) < list.len() ==> ranks_after(
            list[rank_position(list, entry, from)],
            entry,
        ),
    decreases list.len() - from,
{
    if from < list.len() && !ranks_after(list[from], entry) {
        lemma_rank_position(list, entry, from + 1);
    }
}

/// Inserting into a ranked list gives a ranked list.
pub proof fn lemma_inserted_ranked(list: Seq<ScoredLeaf>, entry: ScoredLeaf)
    requires
        ranked(list),
    ensures
        ranked(inserted(list, entry)),
        inserted(list, entry).len() == list.len() + 1,
{
    lemma_rank_position(list, entry, 0);
    let p = rank_position(list, entry, 0);
    let out = inserted(list, entry);
    assert forall|i: int, j: int| 0 <= i < j < out.len() implies !ranks_after(out[i], out[j]) by {
        if j < p {
            assert(out[i] == list[i] && out[j] == list[j]);
        } else if j == p {
            assert(out[i] == list[i]);
        } else if i < p {
            assert(out[i] == list[i] && out[j] == list[j - 1]);
        } else if i == p {
            assert(out[j] == list[j - 1]);
            if p < j - 1 {
                assert(!ranks_after(list[p], list[j - 1]));
            }
        } else {
            assert(out[i] == list[i - 1] && out[j] == list[j - 1]);
        }
    }
}

/// The proofs found so far, the most similar first and, among equally
/// similar ones, the shallowest first.
#[derive(Debug)]
pub struct ScoredLeafProofs {
    entries: Vec<ScoredLeaf>,
}

impl View for ScoredLeafProofs {
    type V = Seq<ScoredLeaf>;

    closed spec fn view(&self) -> Seq<ScoredLeaf> {
        self.entries@
    }
}

impl ScoredLeafProofs {
    #[verifier::type_invariant]
    spec fn in_rank_order(self) -> bool {
        ranked(self.entries@)
    }

    pub fn new() -> (res: Self)
        ensures
            res@ == Seq::<ScoredLeaf>::empty(),
    {
        ScoredLeafProofs { entries: Vec::new() }
    }

    pub fn len(&self) -> (n: usize)
        ensures
            n == self@.len(),
            ranked(self@),
    {
        proof {
            use_type_invariant(self);
        }
        self.entries.len()
    }

    pub fn get(&self, i: usize) -> (entry: &ScoredLeaf)
        requires
            i < self@.len(),
        ensures
            *entry == self@[i as int],
    {
        &self.entries[i]
    }

    /// Puts `entry` in its place.
    pub fn insert(&mut self, entry: ScoredLeaf)
        ensures
            final(self)@ == inserted(old(self)@, entry),
            ranked(final(self)@),
    {
        proof {
            use_type_invariant(&*self);
        }
        let mut i: usize = 0;
        while i < self.entries.len() && !(self.entries[i].0 < entry.0 || (self.entries[i].0
            == entry.0 && self.entries[i].1 > entry.1))
            invariant
                i <= self.entries.len(),
                rank_position(self.entries@, entry, 0) == rank_position(
                    self.entries@,
                    entry,
                    i as int,
                ),
            decreases self.entries.len() - i,
        {
            i += 1;
        }
        proof {
            lemma_inserted_ranked(self.entries@, entry);
        }
        let mut entries: Vec<ScoredLeaf> = Vec::new();
        std::mem::swap(&mut self.entries, &mut entries);
        entries.insert(i, entry);
        self.entries = entries;
    }

    /// Drops the last entry, if there is one.
    pub fn pop(&mut self) -> (dropped: Option<ScoredLeaf>)
        ensures
            old(self)@.len() == 0 ==> dropped is None && final(self)@ == old(self)@,
            old(self)@.len() > 0 ==> dropped == Some(old(self)@.last()) && final(self)@ == old(
                self,
            )@.drop_last(),
    {
        proof {
            use_type_invariant(&*self);
        }
        let mut entries: Vec<ScoredLeaf> = Vec::new();
        std::mem::swap(&mut self.entries, &mut entries);
        let dropped = entries.pop();
        self.entries = entries;
        dropped
    }

    /// The similarity of the last entry, if there is one.
    pub fn last_similarity(&self) -> (similarity: Option<u64>)
        ensures
            self@.len() == 0 ==> similarity is None,
            self@.len() > 0 ==> similarity == Some(self@.last().0),
    {
        if self.entries.len() == 0 {
            None
        } else {
            Some(self.entries[self.entries.len() - 1].0)
        }
    }
}

} // verus!
