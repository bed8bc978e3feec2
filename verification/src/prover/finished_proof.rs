//! A finished proof: the chain of steps that ends in the empty clause.

use crate::prover::proof_stats::FrozenProofStats;
use crate::prover::proof_step::ancestry;
use crate::prover::proof_step::ProofStep;
use crate::prover::proof_step::StepRecord;
use crate::prover::substitutions::SubstitutionsMap;
use crate::types::terms_view;
use crate::types::BoundFunction;
use crate::types::CNFDisjunction;
use crate::types::LiteralModel;
use crate::types::Term;
use crate::types::TermModel;
use crate::types::Variable;
use crate::util::find_variables_in_terms::collect_from_terms;
use crate::util::find_variables_in_terms::terms_variables;
use crate::util::sorted::lemma_prefix_set_step;
use crate::util::variable_set::VariableSet;
use vstd::prelude::*;

verus! {

/// What `term` stands for once the substitutions from position `index` on
/// have each had their turn, one step after the other.  A constant stays.  A
/// variable is replaced by what the substitution at `index` maps it to, if
/// anything; if a variable comes of that, the next substitution sees it; if
/// a function term comes of it, the next substitution sees each of its
/// arguments.  A function term that was not reached through a variable
/// stays as it is.
pub open spec fn resolve_value(
    term: TermModel,
    substitutions: Seq<Map<Seq<char>, TermModel>>,
    index: int,
) -> TermModel
    decreases substitutions.len() - index,
{
    if index < 0 || index >= substitutions.len() {
        term
    } else {
        match term {
            TermModel::Variable(name) => {
                let next = if substitutions[index].contains_key(name) {
                    substitutions[index][name]
                } else {
                    term
                };
                match next {
                    TermModel::Variable(_) => resolve_value(next, substitutions, index + 1),
                    TermModel::Constant(_) => next,
                    TermModel::BoundFunction(function, arguments) => TermModel::BoundFunction(
                        function,
                        Seq::new(
                            arguments.len(),
                            |i: int| resolve_value(arguments[i], substitutions, index + 1),
                        ),
                    ),
                }
            },
            _ => term,
        }
    }
}

/// The variables that occur in a clause, inside function terms too.
pub open spec fn clause_variables(clause: Seq<LiteralModel>) -> Set<Seq<char>> {
    Set::new(
        |name: Seq<char>|
            exists|i: int|
                0 <= i < clause.len() && #[trigger] terms_variables(
                    clause[i].atom.terms,
                ).contains(name),
    )
}

/// The source substitutions of a chain of steps, in order.
pub open spec fn source_substitutions_of(steps: Seq<StepRecord>) -> Seq<Map<Seq<char>, TermModel>> {
    Seq::new(steps.len(), |i: int| steps[i].source_substitutions)
}

/// What a proof says of the variables of its goal: each is mapped to what it
/// stands for after all the steps of the proof.
pub open spec fn proof_substitutions(goal: Seq<LiteralModel>, steps: Seq<StepRecord>) -> Map<
    Seq<char>,
    TermModel,
> {
    Map::new(
        |name: Seq<char>| clause_variables(goal).contains(name),
        |name: Seq<char>|
            resolve_value(TermModel::Variable(name), source_substitutions_of(steps), 0),
    )
}

/// The models of a list of substitutions, in order.
pub open spec fn maps_view(substitutions: Seq<SubstitutionsMap>) -> Seq<Map<Seq<char>, TermModel>> {
    Seq::new(substitutions.len(), |i: int| substitutions[i]@)
}

/// The models of a list of steps, in order.
pub open spec fn steps_view(steps: Seq<ProofStep>) -> Seq<StepRecord> {
    Seq::new(steps.len(), |i: int| steps[i]@)
}

/// What `var` stands for once the substitutions from `index` on have had
/// their turn.
pub fn resolve_var_value(var: &Term, substitutions: &Vec<SubstitutionsMap>, index: usize) -> (res:
    Term)
    ensures
        res@ == resolve_value(var@, maps_view(substitutions@), index as int),
    decreases substitutions.len() - index,
{
    let ghost maps = maps_view(substitutions@);
    if index >= substitutions.len() {
        return var.clone();
    }
    assert(maps[index as int] == substitutions[index as int]@);
    if let Term::Variable(var_term) = var {
        // a variable that the substitution does not map stays as it is
        let new_var_value = match substitutions[index].get(var_term) {
            Some(value) => value,
            None => var,
        };
        match new_var_value {
            Term::Variable(_) => resolve_var_value(new_var_value, substitutions, index + 1),
            Term::Constant(_) => new_var_value.clone(),
            Term::BoundFunction(bound_function) => {
                let ghost arguments = terms_view(bound_function.terms@);
                let mut terms: Vec<Term> = Vec::new();
                let mut i: usize = 0;
                while i < bound_function.terms.len()
                    invariant
                        i <= bound_function.terms.len(),
                        index < substitutions.len(),
                        arguments == terms_view(bound_function.terms@),
                        maps == maps_view(substitutions@),
                        terms.len() == i,
                        forall|j: int|
                            0 <= j < i ==> (#[trigger] terms[j])@ == resolve_value(
                                arguments[j],
                                maps,
                                index + 1,
                            ),
                    decreases bound_function.terms.len() - i,
                {
                    assert(arguments[i as int] == bound_function.terms[i as int]@);
                    terms.push(resolve_var_value(&bound_function.terms[i], substitutions, index + 1));
                    i += 1;
                }
                proof {
                    let expected = resolve_value(var@, maps, index as int);
                    assert(expected is BoundFunction);
                    assert(expected->BoundFunction_1 =~= terms_view(terms@));
                }
                Term::BoundFunction(BoundFunction::new(bound_function.function.clone(), terms))
            },
        }
    } else {
        var.clone()
    }
}

/// A proof of a goal.
#[derive(Debug)]
pub struct Proof {
    /// The clause that the proof started from.
    pub goal: CNFDisjunction,
    /// The lowest similarity of the proof's steps.
    pub similarity: u64,
    /// The counters of the search at the time the proof was found.
    pub stats: FrozenProofStats,
    /// The last step of the proof, the one that ends in the empty clause.
    pub leaf_proof_step: ProofStep,
}

impl Proof {
    pub fn new(
        goal: CNFDisjunction,
        similarity: u64,
        stats: FrozenProofStats,
        leaf_proof_step: ProofStep,
    ) -> (res: Proof)
        ensures
            res.goal == goal,
            res.similarity == similarity,
            res.stats == stats,
            res.leaf_proof_step == leaf_proof_step,
    {
        Proof { goal, similarity, stats, leaf_proof_step }
    }

    /// The number of steps of the proof.
    pub fn depth(&self) -> (n: usize)
        ensures
            n == ancestry(self.leaf_proof_step).len(),
    {
        self.proof_steps().len()
    }

    /// The steps of the proof, the first one first.
    pub fn proof_steps(&self) -> (steps: Vec<ProofStep>)
        ensures
            steps_view(steps@) == ancestry(self.leaf_proof_step),
            steps.len() >= 1,
            forall|i: int|
                0 <= i < steps.len() ==> ancestry(#[trigger] steps[i]) == ancestry(
                    self.leaf_proof_step,
                ).take(i + 1),
    {
        let mut steps: Vec<ProofStep> = Vec::new();
        let mut cur_step: &ProofStep = &self.leaf_proof_step;
        let ghost whole = ancestry(self.leaf_proof_step);
        assert(steps_view(steps@) =~= whole.skip(whole.len() as int));
        assert(whole.take(whole.len() as int) =~= whole);
        loop
            invariant
                whole == ancestry(self.leaf_proof_step),
                ancestry(*cur_step) == whole.take(whole.len() - steps.len()),
                steps.len() < whole.len(),
                steps_view(steps@) == whole.skip(whole.len() - steps.len()),
                forall|i: int|
                    0 <= i < steps.len() ==> ancestry(#[trigger] steps[i]) == whole.take(
                        whole.len() - steps.len() + i + 1,
                    ),
            decreases whole.len() - steps.len(),
        {
            let ghost before = steps@;
            let ghost rest = whole.len() - steps.len();
            steps.insert(0, cur_step.clone());
            proof {
                assert(ancestry(*cur_step).last() == cur_step@);
                assert(whole[rest - 1] == cur_step@);
                assert forall|i: int| 0 <= i < steps.len() implies steps_view(steps@)[i]
                    == whole.skip(rest - 1)[i] by {
                    if i > 0 {
                        assert(steps[i] == before[i - 1]);
                        assert(steps_view(before)[i - 1] == before[i - 1]@);
                        assert(whole.skip(rest)[i - 1] == whole[rest + i - 1]);
                    }
                }
                assert(steps_view(steps@) =~= whole.skip(rest - 1));
                assert forall|i: int| 0 <= i < steps.len() implies ancestry(#[trigger] steps[i])
                    == whole.take(rest - 1 + i + 1) by {
                    if i > 0 {
                        assert(steps[i] == before[i - 1]);
                    }
                }
            }
            match &cur_step.parent {
                Some(parent) => {
                    proof {
                        assert(ancestry(*parent.inner) =~= ancestry(*cur_step).drop_last());
                        assert(ancestry(*parent.inner) =~= whole.take(rest - 1));
                    }
                    cur_step = &parent.inner;
                },
                None => {
                    proof {
                        assert(ancestry(*cur_step).len() == 1);
                        assert(rest == 1);
                        assert(whole.skip(0) =~= whole);
                    }
                    return steps;
                },
            }
        }
    }

    /// The substitutions made in the proof, for the variables of the goal.
    pub fn substitutions(&self) -> (res: SubstitutionsMap)
        ensures
            res@ == proof_substitutions(self.goal@, ancestry(self.leaf_proof_step)),
    {
        let mut goal_variables = VariableSet::new();
        let literal_count = self.goal.literals.len();
        let mut i: usize = 0;
        assert(goal_variables@ =~= clause_variables(self.goal@.take(0)));
        while i < literal_count
            invariant
                i <= literal_count,
                literal_count == self.goal@.len(),
                goal_variables@ == clause_variables(self.goal@.take(i as int)),
            decreases literal_count - i,
        {
            let literal = self.goal.literals.get(i);
            collect_from_terms(&literal.item.atom.terms, &mut goal_variables);
            i += 1;
            proof {
                let shorter = self.goal@.take(i - 1);
                let longer = self.goal@.take(i as int);
                let added = terms_variables(self.goal@[i - 1].atom.terms);
                assert forall|name: Seq<char>|
                    clause_variables(longer).contains(name) <==> (clause_variables(
                        shorter,
                    ).contains(name) || added.contains(name)) by {
                    if clause_variables(longer).contains(name) {
                        let k = choose|k: int|
                            0 <= k < longer.len() && #[trigger] terms_variables(
                                longer[k].atom.terms,
                            ).contains(name);
                        if k < i - 1 {
                            assert(terms_variables(shorter[k].atom.terms).contains(name));
                        }
                    }
                    if clause_variables(shorter).contains(name) {
                        let k = choose|k: int|
                            0 <= k < shorter.len() && #[trigger] terms_variables(
                                shorter[k].atom.terms,
                            ).contains(name);
                        assert(terms_variables(longer[k].atom.terms).contains(name));
                    }
                    if added.contains(name) {
                        assert(terms_variables(longer[i - 1].atom.terms).contains(name));
                    }
                }
                assert(goal_variables@ =~= clause_variables(longer));
            }
        }
        assert(self.goal@.take(literal_count as int) =~= self.goal@);
        let proof_steps = self.proof_steps();
        let mut step_substitutions: Vec<SubstitutionsMap> = Vec::new();
        let mut k: usize = 0;
        while k < proof_steps.len()
            invariant
                k <= proof_steps.len(),
                step_substitutions.len() == k,
                forall|j: int|
                    0 <= j < k ==> (#[trigger] step_substitutions[j])@
                        == proof_steps[j].source_substitutions@,
            decreases proof_steps.len() - k,
        {
            step_substitutions.push(proof_steps[k].source_substitutions.clone());
            k += 1;
        }
        let ghost maps = maps_view(step_substitutions@);
        proof {
            let steps = ancestry(self.leaf_proof_step);
            assert(steps_view(proof_steps@) == steps);
            assert forall|j: int| 0 <= j < maps.len() implies maps[j] == source_substitutions_of(
                steps,
            )[j] by {
                assert(steps_view(proof_steps@)[j] == proof_steps[j]@);
            }
            assert(maps =~= source_substitutions_of(steps));
        }
        let mut substitutions = SubstitutionsMap::new();
        let variable_count = goal_variables.len();
        let ghost names = goal_variables.names();
        let mut v: usize = 0;
        assert(substitutions@ =~= Map::new(
            |name: Seq<char>| names.take(0).to_set().contains(name),
            |name: Seq<char>| resolve_value(TermModel::Variable(name), maps, 0),
        ));
        while v < variable_count
            invariant
                v <= variable_count,
                variable_count == names.len(),
                names == goal_variables.names(),
                maps == maps_view(step_substitutions@),
                substitutions@ == Map::new(
                    |name: Seq<char>| names.take(v as int).to_set().contains(name),
                    |name: Seq<char>| resolve_value(TermModel::Variable(name), maps, 0),
                ),
            decreases variable_count - v,
        {
            let variable = goal_variables.get(v);
            let value = resolve_var_value(
                &Term::Variable(variable.clone()),
                &step_substitutions,
                0,
            );
            substitutions.insert(variable.clone(), value);
            proof {
                lemma_prefix_set_step(names, v as int);
            }
            v += 1;
            assert(substitutions@ =~= Map::new(
                |name: Seq<char>| names.take(v as int).to_set().contains(name),
                |name: Seq<char>| resolve_value(TermModel::Variable(name), maps, 0),
            ));
        }
        proof {
            assert(names.take(variable_count as int) =~= names);
            assert(substitutions@ =~= proof_substitutions(
                self.goal@,
                ancestry(self.leaf_proof_step),
            ));
        }
        substitutions
    }
}

} // verus!
