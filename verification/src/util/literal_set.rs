//! A finite set of shared literals, kept in ascending order.

use crate::order::compare_literals;
use crate::order::lemma_literal_order_flip;
use crate::order::lemma_literal_order_same;
use crate::order::lemma_literal_order_trans;
use crate::order::literal_order;
use crate::order::literals_order_from;
use crate::order::clause_order;
use crate::order::Precedence;
use crate::types::CNFLiteral;
use crate::types::LiteralModel;
use crate::util::py_arc_item::PyArcItem;
use crate::util::sorted::ascending;
use crate::util::sorted::lemma_ascending_absent;
use crate::util::sorted::lemma_ascending_insert;
use crate::util::sorted::lemma_ascending_no_duplicates;
use crate::util::sorted::lemma_ascending_remove;
use crate::util::sorted::lemma_prefix_set_step;
use crate::util::sorted::strict_order;
use vstd::prelude::*;

verus! {

/// The order of literals, as a relation.
pub open spec fn by_literal() -> spec_fn(LiteralModel, LiteralModel) -> bool {
    |a: LiteralModel, b: LiteralModel| literal_order(a, b) == Precedence::Before
}

pub proof fn lemma_by_literal_strict()
    ensures
        strict_order(by_literal()),
{
    assert forall|a: LiteralModel| !#[trigger] by_literal()(a, a) by {
        lemma_literal_order_same(a, a);
    }
    assert forall|a: LiteralModel, b: LiteralModel, c: LiteralModel| #[trigger]
        by_literal()(a, b) && #[trigger] by_literal()(b, c) implies by_literal()(a, c) by {
        lemma_literal_order_trans(a, b, c);
    }
}

/// The models of a sequence of shared literals, in order.
pub open spec fn literals_of(items: Seq<PyArcItem<CNFLiteral>>) -> Seq<LiteralModel> {
    Seq::new(items.len(), |i: int| items[i].item@)
}

/// Where `literal` stands among ascending `items`: the first position whose
/// literal does not come before it, and whether that literal equals it.
fn find_literal(items: &Vec<PyArcItem<CNFLiteral>>, literal: &CNFLiteral) -> (found: (usize, bool))
    requires
        ascending(literals_of(items@), by_literal()),
    ensures
        found.0 <= items.len(),
        forall|i: int| 0 <= i < found.0 ==> by_literal()(#[trigger] literals_of(items@)[i], literal@),
        found.1 ==> found.0 < items.len() && literals_of(items@)[found.0 as int] == literal@,
        !found.1 && found.0 < items.len() ==> by_literal()(
            literal@,
            literals_of(items@)[found.0 as int],
        ),
        found.1 == literals_of(items@).contains(literal@),
{
    let mut i: usize = 0;
    proof {
        lemma_by_literal_strict();
    }
    while i < items.len()
        invariant
            i <= items.len(),
            forall|j: int| 0 <= j < i ==> by_literal()(#[trigger] literals_of(items@)[j], literal@),
            ascending(literals_of(items@), by_literal()),
            strict_order(by_literal()),
        decreases items.len() - i,
    {
        let here = compare_literals(&items[i].item, literal);
        assert(literals_of(items@)[i as int] == items[i as int].item@);
        match here {
            Precedence::Before => {},
            Precedence::Same => {
                proof {
                    lemma_literal_order_same(items[i as int].item@, literal@);
                }
                return (i, true);
            },
            Precedence::After => {
                proof {
                    lemma_literal_order_flip(literal@, items[i as int].item@);
                    lemma_ascending_absent(literals_of(items@), literal@, i as int, by_literal());
                }
                return (i, false);
            },
        }
        i += 1;
    }
    proof {
        lemma_ascending_absent(literals_of(items@), literal@, i as int, by_literal());
    }
    (i, false)
}

/// A finite set of literals.  Its view is the ascending sequence of their
/// models, so the first element is the least literal.
#[derive(Debug, PartialEq, Eq, Hash)]
pub struct LiteralSet {
    items: Vec<PyArcItem<CNFLiteral>>,
}

impl View for LiteralSet {
    type V = Seq<LiteralModel>;

    closed spec fn view(&self) -> Seq<LiteralModel> {
        literals_of(self.items@)
    }
}

impl LiteralSet {
    #[verifier::type_invariant]
    spec fn ordered(self) -> bool {
        ascending(literals_of(self.items@), by_literal())
    }

    pub fn new() -> (res: Self)
        ensures
            res@ == Seq::<LiteralModel>::empty(),
            ascending(res@, by_literal()),
    {
        let res = LiteralSet { items: Vec::new() };
        assert(literals_of(res.items@) =~= Seq::<LiteralModel>::empty());
        res
    }

    /// The set of the given literals: duplicates count once.
    pub fn from_vec(literals: Vec<PyArcItem<CNFLiteral>>) -> (res: Self)
        ensures
            res@.to_set() == literals_of(literals@).to_set(),
            ascending(res@, by_literal()),
    {
        let mut res = LiteralSet::new();
        let mut i: usize = 0;
        assert(res@.to_set() =~= literals_of(literals@).take(0).to_set());
        while i < literals.len()
            invariant
                i <= literals.len(),
                res@.to_set() == literals_of(literals@).take(i as int).to_set(),
            decreases literals.len() - i,
        {
            res.insert(literals[i].clone());
            proof {
                let all = literals_of(literals@);
                lemma_prefix_set_step(all, i as int);
            }
            i += 1;
        }
        proof {
            use_type_invariant(&res);
            assert(literals_of(literals@).take(literals.len() as int) =~= literals_of(literals@));
        }
        res
    }

    pub fn len(&self) -> (n: usize)
        ensures
            n == self@.len(),
            n == self@.to_set().len(),
            ascending(self@, by_literal()),
            self@.no_duplicates(),
    {
        proof {
            use_type_invariant(self);
            lemma_by_literal_strict();
            lemma_ascending_no_duplicates(literals_of(self.items@), by_literal());
            literals_of(self.items@).unique_seq_to_set();
        }
        self.items.len()
    }

    pub fn is_empty(&self) -> (empty: bool)
        ensures
            empty == (self@.len() == 0),
    {
        self.items.len() == 0
    }

    /// The least literal, if there is any.
    pub fn first(&self) -> (least: Option<&PyArcItem<CNFLiteral>>)
        ensures
            self@.len() == 0 ==> least is None,
            self@.len() > 0 ==> least is Some && least->0.item@ == self@[0],
    {
        if self.items.len() == 0 {
            None
        } else {
            Some(&self.items[0])
        }
    }

    /// The literal at position `i` of the ascending order.
    pub fn get(&self, i: usize) -> (literal: &PyArcItem<CNFLiteral>)
        requires
            i < self@.len(),
        ensures
            literal.item@ == self@[i as int],
    {
        &self.items[i]
    }

    pub fn contains(&self, literal: &CNFLiteral) -> (present: bool)
        ensures
            present == self@.contains(literal@),
    {
        proof {
            use_type_invariant(self);
        }
        let found = find_literal(&self.items, literal);
        found.1
    }

    /// Adds `literal`; says whether it was new.
    pub fn insert(&mut self, literal: PyArcItem<CNFLiteral>) -> (added: bool)
        ensures
            final(self)@.to_set() == old(self)@.to_set().insert(literal.item@),
            added == !old(self)@.contains(literal.item@),
            ascending(final(self)@, by_literal()),
    {
        proof {
            use_type_invariant(&*self);
            lemma_by_literal_strict();
        }
        let found = find_literal(&self.items, &literal.item);
        if found.1 {
            assert(self@.to_set() =~= self@.to_set().insert(literal.item@));
            false
        } else {
            let ghost before = literals_of(self.items@);
            let mut items: Vec<PyArcItem<CNFLiteral>> = Vec::new();
            std::mem::swap(&mut self.items, &mut items);
            items.insert(found.0, literal);
            proof {
                assert(literals_of(items@) =~= before.insert(found.0 as int, literal.item@));
                lemma_ascending_insert(before, literal.item@, found.0 as int, by_literal());
            }
            self.items = items;
            true
        }
    }

    /// Takes `literal` out; says whether it was there.
    pub fn remove(&mut self, literal: &CNFLiteral) -> (removed: bool)
        ensures
            final(self)@.to_set() == old(self)@.to_set().remove(literal@),
            removed == old(self)@.contains(literal@),
            removed ==> final(self)@ == old(self)@.remove(old(self)@.index_of(literal@)),
            !removed ==> final(self)@ == old(self)@,
            ascending(final(self)@, by_literal()),
    {
        proof {
            use_type_invariant(&*self);
            lemma_by_literal_strict();
        }
        let found = find_literal(&self.items, literal);
        if found.1 {
            let ghost before = literals_of(self.items@);
            let mut items: Vec<PyArcItem<CNFLiteral>> = Vec::new();
            std::mem::swap(&mut self.items, &mut items);
            items.remove(found.0);
            proof {
                assert(literals_of(items@) =~= before.remove(found.0 as int));
                lemma_ascending_remove(before, found.0 as int, by_literal());
                lemma_ascending_no_duplicates(before, by_literal());
                before.index_of_first_ensures(literal@);
                assert(before.index_of(literal@) == found.0 as int);
            }
            self.items = items;
            true
        } else {
            assert(self@.to_set() =~= self@.to_set().remove(literal@));
            false
        }
    }
}

impl LiteralSet {
    /// How this set stands to `other` in the order of clauses.
    pub fn compare(&self, other: &LiteralSet) -> (r: Precedence)
        ensures
            r == clause_order(self@, other@),
    {
        let mut i: usize = 0;
        while i < self.items.len() && i < other.items.len()
            invariant
                i <= self.items.len(),
                i <= other.items.len(),
                clause_order(self@, other@) == literals_order_from(self@, other@, i as int),
            decreases self.items.len() - i,
        {
            let here = compare_literals(&self.items[i].item, &other.items[i].item);
            assert(self@[i as int] == self.items[i as int].item@);
            assert(other@[i as int] == other.items[i as int].item@);
            match here {
                Precedence::Same => {},
                _ => {
                    return here;
                },
            }
            i += 1;
        }
        if i < other.items.len() {
            Precedence::Before
        } else if i < self.items.len() {
            Precedence::After
        } else {
            Precedence::Same
        }
    }
}

impl Clone for LiteralSet {
    fn clone(&self) -> (res: Self)
        ensures
            res@ == self@,
    {
        proof {
            use_type_invariant(self);
        }
        let mut items: Vec<PyArcItem<CNFLiteral>> = Vec::new();
        let mut i: usize = 0;
        while i < self.items.len()
            invariant
                i <= self.items.len(),
                items.len() == i,
                forall|j: int| 0 <= j < i ==> items[j] == self.items[j],
            decreases self.items.len() - i,
        {
            items.push(self.items[i].clone());
            i += 1;
        }
        assert(literals_of(items@) =~= literals_of(self.items@));
        LiteralSet { items }
    }
}

} // verus!
