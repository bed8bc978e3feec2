//! A finite set of shared clauses, kept in ascending order.

use crate::order::clause_order;
use crate::order::lemma_literals_order_flip;
use crate::order::lemma_literals_order_same;
use crate::order::lemma_literals_order_trans;
use crate::order::Precedence;
use crate::types::CNFDisjunction;
use crate::types::LiteralModel;
use crate::util::py_arc_item::PyArcItem;
use crate::util::sorted::ascending;
use crate::util::sorted::lemma_ascending_absent;
use crate::util::sorted::lemma_ascending_insert;
use crate::util::sorted::lemma_ascending_no_duplicates;
use crate::util::sorted::strict_order;
use vstd::prelude::*;

verus! {

/// The order of clauses, as a relation.
pub open spec fn by_clause() -> spec_fn(Seq<LiteralModel>, Seq<LiteralModel>) -> bool {
    |a: Seq<LiteralModel>, b: Seq<LiteralModel>| clause_order(a, b) == Precedence::Before
}

pub proof fn lemma_by_clause_strict()
    ensures
        strict_order(by_clause()),
{
    assert forall|a: Seq<LiteralModel>| !#[trigger] by_clause()(a, a) by {
        lemma_literals_order_same(a, a, 0);
    }
    assert forall|a: Seq<LiteralModel>, b: Seq<LiteralModel>, c: Seq<LiteralModel>| #[trigger]
        by_clause()(a, b) && #[trigger] by_clause()(b, c) implies by_clause()(a, c) by {
        lemma_literals_order_trans(a, b, c, 0);
    }
}

/// The models of a sequence of shared clauses, in order.
pub open spec fn clauses_of(items: Seq<PyArcItem<CNFDisjunction>>) -> Seq<Seq<LiteralModel>> {
    Seq::new(items.len(), |i: int| items[i].item@)
}

/// Where `clause` stands among ascending `items`: the first position whose
/// clause does not come before it, and whether that clause equals it.
fn find_clause(items: &Vec<PyArcItem<CNFDisjunction>>, clause: &CNFDisjunction) -> (found: (
    usize,
    bool,
))
    requires
        ascending(clauses_of(items@), by_clause()),
    ensures
        found.0 <= items.len(),
        forall|i: int| 0 <= i < found.0 ==> by_clause()(#[trigger] clauses_of(items@)[i], clause@),
        found.1 ==> found.0 < items.len() && clauses_of(items@)[found.0 as int] == clause@,
        !found.1 && found.0 < items.len() ==> by_clause()(
            clause@,
            clauses_of(items@)[found.0 as int],
        ),
        found.1 == clauses_of(items@).contains(clause@),
{
    let mut i: usize = 0;
    proof {
        lemma_by_clause_strict();
    }
    while i < items.len()
        invariant
            i <= items.len(),
            forall|j: int| 0 <= j < i ==> by_clause()(#[trigger] clauses_of(items@)[j], clause@),
            ascending(clauses_of(items@), by_clause()),
            strict_order(by_clause()),
        decreases items.len() - i,
    {
        let here = items[i].item.literals.compare(&clause.literals);
        assert(clauses_of(items@)[i as int] == items[i as int].item@);
        match here {
            Precedence::Before => {},
            Precedence::Same => {
                proof {
                    lemma_literals_order_same(items[i as int].item@, clause@, 0);
                }
                return (i, true);
            },
            Precedence::After => {
                proof {
                    lemma_literals_order_flip(clause@, items[i as int].item@, 0);
                    lemma_ascending_absent(clauses_of(items@), clause@, i as int, by_clause());
                }
                return (i, false);
            },
        }
        i += 1;
    }
    proof {
        lemma_ascending_absent(clauses_of(items@), clause@, i as int, by_clause());
    }
    (i, false)
}

/// A finite set of clauses.  Its view is the ascending sequence of their
/// models.
#[derive(Debug, PartialEq, Eq)]
pub struct ClauseSet {
    items: Vec<PyArcItem<CNFDisjunction>>,
}

impl View for ClauseSet {
    type V = Seq<Seq<LiteralModel>>;

    closed spec fn view(&self) -> Seq<Seq<LiteralModel>> {
        clauses_of(self.items@)
    }
}

impl ClauseSet {
    #[verifier::type_invariant]
    spec fn ordered(self) -> bool {
        ascending(clauses_of(self.items@), by_clause())
    }

    pub fn new() -> (res: Self)
        ensures
            res@ == Seq::<Seq<LiteralModel>>::empty(),
            ascending(res@, by_clause()),
    {
        let res = ClauseSet { items: Vec::new() };
        assert(clauses_of(res.items@) =~= Seq::<Seq<LiteralModel>>::empty());
        res
    }

    pub fn len(&self) -> (n: usize)
        ensures
            n == self@.len(),
            n == self@.to_set().len(),
            ascending(self@, by_clause()),
            self@.no_duplicates(),
    {
        proof {
            use_type_invariant(self);
            lemma_by_clause_strict();
            lemma_ascending_no_duplicates(clauses_of(self.items@), by_clause());
            clauses_of(self.items@).unique_seq_to_set();
        }
        self.items.len()
    }

    /// The clause at position `i` of the ascending order.
    pub fn get(&self, i: usize) -> (clause: &PyArcItem<CNFDisjunction>)
        requires
            i < self@.len(),
        ensures
            clause.item@ == self@[i as int],
    {
        &self.items[i]
    }

    pub fn contains(&self, clause: &CNFDisjunction) -> (present: bool)
        ensures
            present == self@.contains(clause@),
    {
        proof {
            use_type_invariant(self);
        }
        let found = find_clause(&self.items, clause);
        found.1
    }

    /// Adds `clause`; says whether it was new.
    pub fn insert(&mut self, clause: PyArcItem<CNFDisjunction>) -> (added: bool)
        ensures
            final(self)@.to_set() == old(self)@.to_set().insert(clause.item@),
            added == !old(self)@.contains(clause.item@),
            ascending(final(self)@, by_clause()),
    {
        proof {
            use_type_invariant(&*self);
            lemma_by_clause_strict();
        }
        let found = find_clause(&self.items, &clause.item);
        if found.1 {
            assert(self@.to_set() =~= self@.to_set().insert(clause.item@));
            false
        } else {
            let ghost before = clauses_of(self.items@);
            let mut items: Vec<PyArcItem<CNFDisjunction>> = Vec::new();
            std::mem::swap(&mut self.items, &mut items);
            items.insert(found.0, clause);
            proof {
                assert(clauses_of(items@) =~= before.insert(found.0 as int, clause.item@));
                lemma_ascending_insert(before, clause.item@, found.0 as int, by_clause());
            }
            self.items = items;
            true
        }
    }

    /// Adds every clause of `other`.
    pub fn extend(&mut self, other: &ClauseSet)
        ensures
            final(self)@.to_set() == old(self)@.to_set().union(other@.to_set()),
            ascending(final(self)@, by_clause()),
    {
        proof {
            use_type_invariant(&*self);
        }
        let n = other.len();
        let mut i: usize = 0;
        assert(self@.to_set() =~= old(self)@.to_set().union(other@.take(0).to_set()));
        while i < n
            invariant
                i <= n,
                n == other@.len(),
                self@.to_set() == old(self)@.to_set().union(other@.take(i as int).to_set()),
                ascending(self@, by_clause()),
            decreases n - i,
        {
            self.insert(other.get(i).clone());
            proof {
                crate::util::sorted::lemma_prefix_set_step(other@, i as int);
            }
            i += 1;
            assert(self@.to_set() =~= old(self)@.to_set().union(other@.take(i as int).to_set()));
        }
        assert(other@.take(n as int) =~= other@);
    }
}

impl Clone for ClauseSet {
    fn clone(&self) -> (res: Self)
        ensures
            res@ == self@,
    {
        proof {
            use_type_invariant(self);
        }
        let mut items: Vec<PyArcItem<CNFDisjunction>> = Vec::new();
        let mut i: usize = 0;
        while i < self.items.len()
            invariant
                i <= self.items.len(),
                items.len() == i,
                forall|j: int| 0 <= j < i ==> items[j] == self.items[j],
            decreases self.items.len() - i,
        {
            items.push(self.items[i].clone());
            i += 1;
        }
        assert(clauses_of(items@) =~= clauses_of(self.items@));
        ClauseSet { items }
    }
}

} // verus!
