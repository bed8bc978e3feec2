//! The variables that occur in terms, at any depth.

use crate::types::Term;
use crate::types::TermModel;
use crate::types::term_view;
use crate::types::terms_view;
use crate::util::variable_set::VariableSet;
use vstd::prelude::*;

verus! {

/// The names of the variables that occur in `term`.
pub open spec fn term_variables(term: TermModel) -> Set<Seq<char>>
    decreases term, 0int,
{
    match term {
        TermModel::Constant(_) => Set::empty(),
        TermModel::Variable(name) => Set::empty().insert(name),
        TermModel::BoundFunction(_, arguments) => terms_variables_upto(
            arguments,
            arguments.len() as int,
        ),
    }
}

/// The names of the variables that occur in the first `n` of `terms`.
pub open spec fn terms_variables_upto(terms: Seq<TermModel>, n: int) -> Set<Seq<char>>
    decreases terms, n,
{
    if n <= 0 || n > terms.len() {
        Set::empty()
    } else {
        terms_variables_upto(terms, n - 1).union(term_variables(terms[n - 1]))
    }
}

/// The names of the variables that occur in `terms`.
pub open spec fn terms_variables(terms: Seq<TermModel>) -> Set<Seq<char>> {
    terms_variables_upto(terms, terms.len() as int)
}

/// The variables of one of the first `n` terms are among the variables of
/// the first `n` terms.
pub proof fn lemma_terms_variables_hold(terms: Seq<TermModel>, n: int, i: int)
    requires
        0 <= i < n <= terms.len(),
    ensures
        term_variables(terms[i]).subset_of(terms_variables_upto(terms, n)),
    decreases n,
{
    if i < n - 1 {
        lemma_terms_variables_hold(terms, n - 1, i);
    }
}

/// The models of borrowed terms, in order.
pub open spec fn borrowed_terms_view(terms: Seq<&Term>) -> Seq<TermModel> {
    Seq::new(terms.len(), |i: int| term_view(*terms[i]))
}

fn collect_from_term(term: &Term, found: &mut VariableSet)
    ensures
        final(found)@ == old(found)@.union(term_variables(term@)),
    decreases term,
{
    match term {
        Term::Constant(_) => {
            assert(found@ =~= found@.union(term_variables(term@)));
        },
        Term::Variable(variable) => {
            found.insert(variable.clone());
            assert(found@ =~= old(found)@.union(term_variables(term@)));
        },
        Term::BoundFunction(bound) => {
            collect_from_terms(&bound.terms, found);
        },
    }
}

pub(crate) fn collect_from_terms(terms: &Vec<Term>, found: &mut VariableSet)
    ensures
        final(found)@ == old(found)@.union(terms_variables(terms_view(terms@))),
    decreases terms,
{
    let mut i: usize = 0;
    assert(found@ =~= old(found)@.union(terms_variables_upto(terms_view(terms@), 0)));
    while i < terms.len()
        invariant
            i <= terms.len(),
            found@ == old(found)@.union(terms_variables_upto(terms_view(terms@), i as int)),
        decreases terms.len() - i,
    {
        collect_from_term(&terms[i], found);
        i += 1;
        assert(found@ =~= old(found)@.union(terms_variables_upto(terms_view(terms@), i as int)));
    }
}

/// The set of the variables that occur in `terms`, inside function terms too.
pub fn find_variables_in_terms(terms: &Vec<&Term>) -> (found: VariableSet)
    ensures
        found@ == terms_variables(borrowed_terms_view(terms@)),
{
    let mut found = VariableSet::new();
    let mut i: usize = 0;
    assert(found@ =~= terms_variables_upto(borrowed_terms_view(terms@), 0));
    while i < terms.len()
        invariant
            i <= terms.len(),
            found@ == terms_variables_upto(borrowed_terms_view(terms@), i as int),
        decreases terms.len() - i,
    {
        collect_from_term(terms[i], &mut found);
        i += 1;
        assert(found@ =~= terms_variables_upto(borrowed_terms_view(terms@), i as int));
    }
    found
}

} // verus!
