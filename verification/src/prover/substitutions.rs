//! Substitutions: finite maps from variables to terms.

use crate::types::Term;
use crate::types::TermModel;
use crate::types::Variable;
use crate::util::sorted::ascending;
use crate::util::sorted::lemma_ascending_insert;
use crate::util::sorted::lemma_ascending_no_duplicates;
use crate::util::variable_set::by_name;
use crate::util::variable_set::find_name;
use crate::util::variable_set::lemma_by_name_strict;
use crate::util::variable_set::names_of;
use vstd::prelude::*;

verus! {

/// The map that `keys` and `values` stand for, position by position.
pub open spec fn entries_map(keys: Seq<Seq<char>>, values: Seq<Term>) -> Map<
    Seq<char>,
    TermModel,
> {
    Map::new(|name: Seq<char>| keys.contains(name), |name: Seq<char>| values[keys.index_of(name)]@)
}

/// A finite map from variables to the terms that replace them.
#[derive(Debug, PartialEq, Eq)]
pub struct SubstitutionsMap {
    keys: Vec<Variable>,
    values: Vec<Term>,
}

impl View for SubstitutionsMap {
    type V = Map<Seq<char>, TermModel>;

    closed spec fn view(&self) -> Map<Seq<char>, TermModel> {
        entries_map(names_of(self.keys@), self.values@)
    }
}

impl SubstitutionsMap {
    #[verifier::type_invariant]
    spec fn ordered(self) -> bool {
        &&& ascending(names_of(self.keys@), by_name())
        &&& self.keys.len() == self.values.len()
    }

    /// The variables that are replaced, in ascending order of name.
    pub closed spec fn names(&self) -> Seq<Seq<char>> {
        names_of(self.keys@)
    }

    pub fn new() -> (res: Self)
        ensures
            res@ == Map::<Seq<char>, TermModel>::empty(),
    {
        let res = SubstitutionsMap { keys: Vec::new(), values: Vec::new() };
        assert(res@ =~= Map::<Seq<char>, TermModel>::empty());
        res
    }

    pub fn len(&self) -> (n: usize)
        ensures
            n == self@.dom().len(),
            n == self.names().len(),
            self@.dom().finite(),
            self.names().to_set() == self@.dom(),
            self.names().no_duplicates(),
    {
        proof {
            use_type_invariant(self);
            lemma_by_name_strict();
            lemma_ascending_no_duplicates(names_of(self.keys@), by_name());
            names_of(self.keys@).unique_seq_to_set();
            assert(names_of(self.keys@).to_set() =~= self@.dom());
        }
        self.keys.len()
    }

    pub fn is_empty(&self) -> (empty: bool)
        ensures
            empty == (self@ == Map::<Seq<char>, TermModel>::empty()),
    {
        let n = self.len();
        proof {
            if n == 0 {
                assert(self@ =~= Map::<Seq<char>, TermModel>::empty());
            } else {
                assert(names_of(self.keys@).contains(names_of(self.keys@)[0]));
                assert(self@.dom().contains(names_of(self.keys@)[0]));
            }
        }
        n == 0
    }

    /// The variable at position `i` of the ascending order.
    pub fn key_at(&self, i: usize) -> (key: &Variable)
        requires
            i < self.names().len(),
        ensures
            key@ == self.names()[i as int],
            self@.contains_key(key@),
    {
        proof {
            use_type_invariant(self);
        }
        assert(names_of(self.keys@)[i as int] == self.keys[i as int]@);
        &self.keys[i]
    }

    /// The term that replaces the variable at position `i`.
    pub fn value_at(&self, i: usize) -> (value: &Term)
        requires
            i < self.names().len(),
        ensures
            value@ == self@[self.names()[i as int]],
    {
        proof {
            use_type_invariant(self);
            lemma_by_name_strict();
            lemma_ascending_no_duplicates(names_of(self.keys@), by_name());
            let names = names_of(self.keys@);
            names.index_of_first_ensures(names[i as int]);
            assert(names.index_of(names[i as int]) == i as int);
        }
        &self.values[i]
    }

    pub fn contains_key(&self, variable: &Variable) -> (present: bool)
        ensures
            present == self@.contains_key(variable@),
    {
        proof {
            use_type_invariant(self);
        }
        let found = find_name(&self.keys, &variable.name);
        found.1
    }

    pub fn get(&self, variable: &Variable) -> (value: Option<&Term>)
        ensures
            value is Some == self@.contains_key(variable@),
            value matches Some(term) ==> term@ == self@[variable@],
    {
        proof {
            use_type_invariant(self);
            lemma_by_name_strict();
            lemma_ascending_no_duplicates(names_of(self.keys@), by_name());
        }
        let found = find_name(&self.keys, &variable.name);
        if found.1 {
            proof {
                let names = names_of(self.keys@);
                assert(names[found.0 as int] == variable@);
                names.index_of_first_ensures(variable@);
                assert(names.index_of(variable@) == found.0 as int);
            }
            Some(&self.values[found.0])
        } else {
            None
        }
    }

    /// Maps `variable` to `term`, in place of what it was mapped to before.
    pub fn insert(&mut self, variable: Variable, term: Term)
        ensures
            final(self)@ == old(self)@.insert(variable@, term@),
    {
        proof {
            use_type_invariant(&*self);
            lemma_by_name_strict();
            lemma_ascending_no_duplicates(names_of(self.keys@), by_name());
        }
        let found = find_name(&self.keys, &variable.name);
        let ghost old_names = names_of(self.keys@);
        let ghost old_values = self.values@;
        let mut taken = SubstitutionsMap { keys: Vec::new(), values: Vec::new() };
        std::mem::swap(self, &mut taken);
        let SubstitutionsMap { mut keys, mut values } = taken;
        if found.1 {
            values.set(found.0, term);
            proof {
                let names = old_names;
                assert(names_of(keys@) =~= names);
                assert(names[found.0 as int] == variable@);
                names.index_of_first_ensures(variable@);
                assert(names.index_of(variable@) == found.0 as int);
                assert forall|name: Seq<char>| names.contains(name) implies #[trigger] values@[names.index_of(
                    name,
                )]@ == entries_map(names, old_values).insert(variable@, term@)[name] by {
                    names.index_of_first_ensures(name);
                }
                assert(entries_map(names, values@) =~= entries_map(names, old_values).insert(
                    variable@,
                    term@,
                ));
            }
        } else {
            keys.insert(found.0, variable);
            values.insert(found.0, term);
            proof {
                let p = found.0 as int;
                let names = names_of(keys@);
                assert(names =~= old_names.insert(p, variable@));
                lemma_ascending_insert(old_names, variable@, p, by_name());
                lemma_ascending_no_duplicates(names, by_name());
                assert forall|name: Seq<char>| names.contains(name) implies #[trigger] values@[names.index_of(
                    name,
                )]@ == entries_map(old_names, old_values).insert(variable@, term@)[name] by {
                    names.index_of_first_ensures(name);
                    let k = names.index_of(name);
                    if k < p {
                        assert(old_names[k] == name);
                        old_names.index_of_first_ensures(name);
                        assert(old_names.index_of(name) == k);
                    } else if k > p {
                        assert(old_names[k - 1] == name);
                        old_names.index_of_first_ensures(name);
                        assert(old_names.index_of(name) == k - 1);
                    }
                }
                assert forall|name: Seq<char>| names.contains(name) <==> (old_names.contains(name)
                    || name == variable@) by {
                    assert(names.to_set().contains(name) <==> old_names.to_set().insert(
                        variable@,
                    ).contains(name));
                }
                assert(entries_map(names, values@) =~= entries_map(old_names, old_values).insert(
                    variable@,
                    term@,
                ));
            }
        }
        *self = SubstitutionsMap { keys, values };
    }
}

impl Clone for SubstitutionsMap {
    fn clone(&self) -> (res: Self)
        ensures
            res@ == self@,
    {
        proof {
            use_type_invariant(self);
        }
        let mut keys: Vec<Variable> = Vec::new();
        let mut values: Vec<Term> = Vec::new();
        let mut i: usize = 0;
        while i < self.keys.len()
            invariant
                i <= self.keys.len(),
                self.keys.len() == self.values.len(),
                keys.len() == i,
                values.len() == i,
                forall|j: int| 0 <= j < i ==> keys[j]@ == self.keys[j]@,
                forall|j: int| 0 <= j < i ==> values[j]@ == self.values[j]@,
            decreases self.keys.len() - i,
        {
            keys.push(self.keys[i].clone());
            values.push(self.values[i].clone());
            i += 1;
        }
        assert(names_of(keys@) =~= names_of(self.keys@));
        assert(entries_map(names_of(keys@), values@) =~= entries_map(
            names_of(self.keys@),
            self.values@,
        ));
        SubstitutionsMap { keys, values }
    }
}

} // verus!
