//! A finite set of variables, kept in ascending order of name.

use crate::order::lemma_name_order_flip;
use crate::order::lemma_name_order_same;
use crate::order::lemma_name_order_trans;
use crate::order::name_order;
use crate::order::compare_names;
use crate::order::Precedence;
use crate::types::Variable;
use crate::util::sorted::ascending;
use crate::util::sorted::lemma_ascending_absent;
use crate::util::sorted::lemma_ascending_insert;
use crate::util::sorted::lemma_ascending_no_duplicates;
use crate::util::sorted::strict_order;
use vstd::prelude::*;

verus! {

/// The order of names, as a relation.
pub open spec fn by_name() -> spec_fn(Seq<char>, Seq<char>) -> bool {
    |a: Seq<char>, b: Seq<char>| name_order(a, b) == Precedence::Before
}

pub proof fn lemma_by_name_strict()
    ensures
        strict_order(by_name()),
{
    assert forall|a: Seq<char>| !#[trigger] by_name()(a, a) by {
        lemma_name_order_same(a, a);
    }
    assert forall|a: Seq<char>, b: Seq<char>, c: Seq<char>| #[trigger]
        by_name()(a, b) && #[trigger] by_name()(b, c) implies by_name()(a, c) by {
        lemma_name_order_trans(a, b, c);
    }
}

/// The names of a sequence of variables, in order.
pub open spec fn names_of(variables: Seq<Variable>) -> Seq<Seq<char>> {
    Seq::new(variables.len(), |i: int| variables[i]@)
}

/// Where `name` stands among ascending `variables`: the first position whose
/// variable does not come before it, and whether that variable bears the name.
pub(crate) fn find_name(variables: &Vec<Variable>, name: &String) -> (found: (usize, bool))
    requires
        ascending(names_of(variables@), by_name()),
    ensures
        found.0 <= variables.len(),
        forall|i: int| 0 <= i < found.0 ==> by_name()(#[trigger] names_of(variables@)[i], name@),
        found.1 ==> found.0 < variables.len() && variables[found.0 as int]@ == name@,
        !found.1 && found.0 < variables.len() ==> by_name()(
            name@,
            names_of(variables@)[found.0 as int],
        ),
        found.1 == names_of(variables@).contains(name@),
{
    let mut i: usize = 0;
    proof {
        lemma_by_name_strict();
    }
    while i < variables.len()
        invariant
            i <= variables.len(),
            forall|j: int| 0 <= j < i ==> by_name()(#[trigger] names_of(variables@)[j], name@),
            ascending(names_of(variables@), by_name()),
            strict_order(by_name()),
        decreases variables.len() - i,
    {
        let here = compare_names(&variables[i].name, name);
        assert(names_of(variables@)[i as int] == variables[i as int]@);
        match here {
            Precedence::Before => {},
            Precedence::Same => {
                proof {
                    lemma_name_order_same(variables[i as int]@, name@);
                }
                return (i, true);
            },
            Precedence::After => {
                proof {
                    lemma_name_order_flip(name@, variables[i as int]@);
                    lemma_ascending_absent(names_of(variables@), name@, i as int, by_name());
                }
                return (i, false);
            },
        }
        i += 1;
    }
    proof {
        lemma_ascending_absent(names_of(variables@), name@, i as int, by_name());
    }
    (i, false)
}

/// A finite set of variables.
#[derive(Debug, PartialEq, Eq)]
pub struct VariableSet {
    variables: Vec<Variable>,
}

impl View for VariableSet {
    type V = Set<Seq<char>>;

    closed spec fn view(&self) -> Set<Seq<char>> {
        names_of(self.variables@).to_set()
    }
}

impl VariableSet {
    #[verifier::type_invariant]
    spec fn ordered(self) -> bool {
        ascending(names_of(self.variables@), by_name())
    }

    /// The names in the set, in ascending order.
    pub closed spec fn names(&self) -> Seq<Seq<char>> {
        names_of(self.variables@)
    }

    /// The set is valid: its names ascend, and they are the set's elements.
    pub open spec fn well_formed(&self) -> bool {
        &&& ascending(self.names(), by_name())
        &&& self.names().to_set() == self@
    }

    pub fn new() -> (res: Self)
        ensures
            res@ == Set::<Seq<char>>::empty(),
            res.well_formed(),
    {
        let res = VariableSet { variables: Vec::new() };
        assert(names_of(res.variables@).to_set() =~= Set::<Seq<char>>::empty());
        res
    }

    pub fn len(&self) -> (n: usize)
        ensures
            n == self@.len(),
            n == self.names().len(),
            self@.finite(),
            self.well_formed(),
    {
        proof {
            use_type_invariant(self);
            lemma_by_name_strict();
            lemma_ascending_no_duplicates(names_of(self.variables@), by_name());
            names_of(self.variables@).unique_seq_to_set();
        }
        self.variables.len()
    }

    pub fn is_empty(&self) -> (empty: bool)
        ensures
            empty == (self@ == Set::<Seq<char>>::empty()),
    {
        let n = self.len();
        proof {
            if n == 0 {
                assert(self@ =~= Set::<Seq<char>>::empty());
            } else {
                assert(self@.contains(names_of(self.variables@)[0]));
            }
        }
        n == 0
    }

    /// The variable at position `i` of the ascending order.
    pub fn get(&self, i: usize) -> (variable: &Variable)
        requires
            i < self.names().len(),
        ensures
            variable@ == self.names()[i as int],
            self@.contains(variable@),
    {
        &self.variables[i]
    }

    pub fn contains(&self, variable: &Variable) -> (present: bool)
        ensures
            present == self@.contains(variable@),
    {
        proof {
            use_type_invariant(self);
        }
        let found = find_name(&self.variables, &variable.name);
        found.1
    }

    /// Adds `variable`; says whether it was new.
    pub fn insert(&mut self, variable: Variable) -> (added: bool)
        ensures
            final(self)@ == old(self)@.insert(variable@),
            added == !old(self)@.contains(variable@),
            final(self).well_formed(),
    {
        proof {
            use_type_invariant(&*self);
            lemma_by_name_strict();
        }
        let found = find_name(&self.variables, &variable.name);
        if found.1 {
            assert(self@ =~= self@.insert(variable@));
            false
        } else {
            let ghost before = names_of(self.variables@);
            let mut variables: Vec<Variable> = Vec::new();
            std::mem::swap(&mut self.variables, &mut variables);
            variables.insert(found.0, variable);
            proof {
                assert(names_of(variables@) =~= before.insert(found.0 as int, variable@));
                lemma_ascending_insert(before, variable@, found.0 as int, by_name());
            }
            self.variables = variables;
            true
        }
    }
}

impl Clone for VariableSet {
    fn clone(&self) -> (res: Self)
        ensures
            res@ == self@,
    {
        proof {
            use_type_invariant(self);
        }
        let mut variables: Vec<Variable> = Vec::new();
        let mut i: usize = 0;
        while i < self.variables.len()
            invariant
                i <= self.variables.len(),
                variables.len() == i,
                forall|j: int| 0 <= j < i ==> variables[j]@ == self.variables[j]@,
            decreases self.variables.len() - i,
        {
            variables.push(self.variables[i].clone());
            i += 1;
        }
        assert(names_of(variables@) =~= names_of(self.variables@));
        VariableSet { variables }
    }
}

} // verus!
