//! Resolution of two clauses on a pair of unified literals.
//!
//! The resolvent holds the literals of both clauses but for the two that
//! were resolved on.  Variables that both clauses keep are renamed in the
//! target's literals first, so that the two clauses' variables stay apart;
//! then each clause's literals undergo that clause's substitution.
//! Substitution and renaming replace a variable wherever it stands in a
//! literal, inside function terms too.

use crate::prover::operations::fresh_names::base_name;
use crate::prover::operations::fresh_names::fresh_name;
use crate::prover::operations::fresh_names::fresh_variable;
use crate::prover::operations::fresh_names::VarNamePattern;
use crate::prover::operations::unify::unify;
use crate::prover::operations::unify::unify_spec;
use crate::prover::operations::unify::Unification;
use crate::prover::operations::unify::UnificationModel;
use crate::prover::proof_context::LocalProofContext;
use crate::prover::proof_context::MemoModel;
use crate::prover::proof_context::SharedProofContext;
use crate::prover::proof_stats::FrozenProofStats;
use crate::prover::proof_step::ProofStep;
use crate::prover::proof_step::ProofStepNode;
use crate::prover::proof_step::StepRecord;
use crate::prover::similarity::lower;
use crate::prover::similarity::min_similarity;
use crate::types::SymbolModel;
use crate::prover::substitutions::SubstitutionsMap;
use crate::types::terms_view;
use crate::types::Atom;
use crate::types::BoundFunction;
use crate::types::AtomModel;
use crate::types::CNFDisjunction;
use crate::types::CNFLiteral;
use crate::types::LiteralModel;
use crate::types::Term;
use crate::types::TermModel;
use crate::util::find_variables_in_terms::lemma_terms_variables_hold;
use crate::util::find_variables_in_terms::term_variables;
use crate::util::find_variables_in_terms::terms_variables;
use crate::util::find_variables_in_terms::terms_variables_upto;
use crate::util::literal_set::by_literal;
use crate::util::literal_set::lemma_by_literal_strict;
use crate::util::literal_set::LiteralSet;
use crate::util::py_arc_item::PyArcItem;
use crate::util::sorted::ascending;
use crate::util::sorted::lemma_ascending_unique;
use crate::util::sorted::lemma_prefix_set_step;
use crate::util::variable_set::by_name;
use crate::util::variable_set::lemma_by_name_strict;
use crate::util::variable_set::VariableSet;
use vstd::prelude::*;

verus! {

// ---------------------------------------------------------------------------
// What resolution computes.
// ---------------------------------------------------------------------------

/// A term under a substitution: each variable that the substitution maps
/// is replaced by its term, wherever it stands in the term.  The terms that
/// are put in are left as they are.
pub open spec fn substitute_term(
    term: TermModel,
    substitutions: Map<Seq<char>, TermModel>,
) -> TermModel
    decreases term,
{
    match term {
        TermModel::Constant(_) => term,
        TermModel::Variable(name) => if substitutions.contains_key(name) {
            substitutions[name]
        } else {
            term
        },
        TermModel::BoundFunction(function, arguments) => TermModel::BoundFunction(
            function,
            substitute_terms(arguments, substitutions),
        ),
    }
}

/// Each of `terms` under a substitution.
pub open spec fn substitute_terms(
    terms: Seq<TermModel>,
    substitutions: Map<Seq<char>, TermModel>,
) -> Seq<TermModel>
    decreases terms,
{
    Seq::new(
        terms.len(),
        |i: int|
            if 0 <= i < terms.len() {
                substitute_term(terms[i], substitutions)
            } else {
                arbitrary()
            },
    )
}

/// A literal under a substitution: the substitution is applied to the
/// arguments of its atom.
pub open spec fn substitute_literal(
    literal: LiteralModel,
    substitutions: Map<Seq<char>, TermModel>,
) -> LiteralModel {
    LiteralModel {
        atom: AtomModel {
            predicate: literal.atom.predicate,
            terms: substitute_terms(literal.atom.terms, substitutions),
        },
        polarity: literal.polarity,
    }
}

/// A set of literals under a substitution.
pub open spec fn substituted(
    literals: Set<LiteralModel>,
    substitutions: Map<Seq<char>, TermModel>,
) -> Set<LiteralModel> {
    Set::new(
        |literal: LiteralModel|
            exists|from: LiteralModel|
                literals.contains(from) && #[trigger] substitute_literal(from, substitutions)
                    == literal,
    )
}

/// The substitution maps one of `variables`.
pub open spec fn maps_one_of(
    substitutions: Map<Seq<char>, TermModel>,
    variables: Set<Seq<char>>,
) -> bool {
    exists|name: Seq<char>| substitutions.contains_key(name) && #[trigger] variables.contains(name)
}

/// The variable `name` occurs in the literal, at any depth.
pub open spec fn mentions(literal: LiteralModel, name: Seq<char>) -> bool {
    terms_variables(literal.atom.terms).contains(name)
}

/// The substitution maps a variable that occurs in the literal.
pub open spec fn touches(literal: LiteralModel, substitutions: Map<Seq<char>, TermModel>) -> bool {
    maps_one_of(substitutions, terms_variables(literal.atom.terms))
}

/// The variables that occur in `literals` and that the substitution does
/// not map.
pub open spec fn unused_variables(
    literals: Set<LiteralModel>,
    substitutions: Map<Seq<char>, TermModel>,
) -> Set<Seq<char>> {
    Set::new(
        |name: Seq<char>|
            !substitutions.contains_key(name) && exists|literal: LiteralModel|
                literals.contains(literal) && #[trigger] mentions(literal, name),
    )
}

/// The renaming of the variables that source and target have in common,
/// after the first `n` of the source's variables have been looked at, and
/// the names that are taken by then.  Each common variable gets the fresh
/// name for its base, and that name is taken from then on.
pub open spec fn renames_upto(
    pattern: Seq<char>,
    source_names: Seq<Seq<char>>,
    target_names: Set<Seq<char>>,
    taken: Set<Seq<char>>,
    n: int,
) -> (Map<Seq<char>, TermModel>, Set<Seq<char>>)
    decreases n,
{
    if n <= 0 || n > source_names.len() {
        (Map::empty(), taken)
    } else {
        let (renames, taken_before) = renames_upto(
            pattern,
            source_names,
            target_names,
            taken,
            n - 1,
        );
        let name = source_names[n - 1];
        if target_names.contains(name) {
            let fresh = fresh_name(base_name(pattern, name), taken_before);
            (renames.insert(name, TermModel::Variable(fresh)), taken_before.insert(fresh))
        } else {
            (renames, taken_before)
        }
    }
}

/// The names of a set in ascending order.
pub open spec fn ascending_names(names: Set<Seq<char>>) -> Seq<Seq<char>> {
    choose|s: Seq<Seq<char>>| ascending(s, by_name()) && s.to_set() == names
}

/// The literals of a set in ascending order.
pub open spec fn ascending_literals(literals: Set<LiteralModel>) -> Seq<LiteralModel> {
    choose|s: Seq<LiteralModel>| ascending(s, by_literal()) && s.to_set() == literals
}

/// The renaming that keeps apart what is left of two clauses.  The
/// variables in question are those that occur in what both clauses keep and
/// that neither substitution maps.  They are renamed in ascending order of
/// name, and a fresh name avoids all variables that either clause keeps or
/// that either substitution maps, and the fresh names made before it.
pub open spec fn rename_map(
    pattern: Seq<char>,
    source_rest: Set<LiteralModel>,
    target_rest: Set<LiteralModel>,
    source_substitutions: Map<Seq<char>, TermModel>,
    target_substitutions: Map<Seq<char>, TermModel>,
) -> Map<Seq<char>, TermModel> {
    let unused_source = unused_variables(source_rest, source_substitutions);
    let unused_target = unused_variables(target_rest, target_substitutions);
    let taken = unused_source.union(unused_target).union(source_substitutions.dom()).union(
        target_substitutions.dom(),
    );
    let names = ascending_names(unused_source);
    renames_upto(pattern, names, unused_target, taken, names.len() as int).0
}

/// The literals of the resolvent of `source` and `target` on the two given
/// literals, under the two substitutions.
pub open spec fn resolvent_literals(
    pattern: Seq<char>,
    source: Seq<LiteralModel>,
    target: Seq<LiteralModel>,
    source_literal: LiteralModel,
    target_literal: LiteralModel,
    source_substitutions: Map<Seq<char>, TermModel>,
    target_substitutions: Map<Seq<char>, TermModel>,
) -> Set<LiteralModel> {
    let source_rest = source.to_set().remove(source_literal);
    let target_rest = target.to_set().remove(target_literal);
    let renames = rename_map(
        pattern,
        source_rest,
        target_rest,
        source_substitutions,
        target_substitutions,
    );
    substituted(source_rest, source_substitutions).union(
        substituted(substituted(target_rest, renames), target_substitutions),
    )
}

/// The resolvent of `source` and `target` on the two given literals, under
/// the two substitutions: its literals, in ascending order.
pub open spec fn resolvent_of(
    pattern: Seq<char>,
    source: Seq<LiteralModel>,
    target: Seq<LiteralModel>,
    source_literal: LiteralModel,
    target_literal: LiteralModel,
    source_substitutions: Map<Seq<char>, TermModel>,
    target_substitutions: Map<Seq<char>, TermModel>,
) -> Seq<LiteralModel> {
    ascending_literals(
        resolvent_literals(
            pattern,
            source,
            target,
            source_literal,
            target_literal,
            source_substitutions,
            target_substitutions,
        ),
    )
}

/// `resolvent` is the resolvent of `source` and `target` on the two given
/// literals under the two substitutions: it is in ascending order, and its
/// literals are the source's other literals under the source's substitution
/// together with the target's other literals, renamed and then under the
/// target's substitution.  There is one such sequence at most.
pub open spec fn is_resolvent(
    resolvent: Seq<LiteralModel>,
    pattern: Seq<char>,
    source: Seq<LiteralModel>,
    target: Seq<LiteralModel>,
    source_literal: LiteralModel,
    target_literal: LiteralModel,
    source_substitutions: Map<Seq<char>, TermModel>,
    target_substitutions: Map<Seq<char>, TermModel>,
) -> bool {
    &&& ascending(resolvent, by_literal())
    &&& resolvent.to_set() == resolvent_literals(
        pattern,
        source,
        target,
        source_literal,
        target_literal,
        source_substitutions,
        target_substitutions,
    )
}

/// The record of the step that resolves `source` and `target` on the two
/// literals under the unification `unification`.  `parent` gives the running
/// similarity and the depth of the step before, if there is one.
pub open spec fn step_record(
    pattern: Seq<char>,
    source: Seq<LiteralModel>,
    target: Seq<LiteralModel>,
    source_literal: LiteralModel,
    target_literal: LiteralModel,
    unification: UnificationModel,
    parent: Option<(u64, usize)>,
) -> StepRecord {
    StepRecord {
        source,
        target,
        source_unification_literal: source_literal,
        target_unification_literal: target_literal,
        source_substitutions: unification.source_substitutions,
        target_substitutions: unification.target_substitutions,
        resolvent: resolvent_of(
            pattern,
            source,
            target,
            source_literal,
            target_literal,
            unification.source_substitutions,
            unification.target_substitutions,
        ),
        similarity: unification.similarity,
        running_similarity: match parent {
            Some(before) => lower(unification.similarity, before.0),
            None => unification.similarity,
        },
        depth: match parent {
            Some(before) => (before.1 + 1) as usize,
            None => 0,
        },
    }
}

/// The resolvent on the record of a step is the resolvent of the step's two
/// clauses on its two literals under its two substitutions.
pub open spec fn step_resolves(record: StepRecord, pattern: Seq<char>) -> bool {
    is_resolvent(
        record.resolvent,
        pattern,
        record.source,
        record.target,
        record.source_unification_literal,
        record.target_unification_literal,
        record.source_substitutions,
        record.target_substitutions,
    )
}

/// What resolving a goal against a clause comes to: the steps made, the
/// cached scores afterwards and the counters afterwards.
pub struct ResolveOutcome {
    pub steps: Seq<StepRecord>,
    pub memo: MemoModel,
    pub stats: FrozenProofStats,
}

/// Resolves the least literal of `source` against the first `n` literals of
/// `target`, in order.  A literal of the same polarity is passed over.  For
/// each other literal a unification is attempted and counted; where it
/// succeeds, that is counted too and a step is made.
pub open spec fn resolve_upto(
    raw: spec_fn(SymbolModel, SymbolModel) -> u64,
    threshold: u64,
    pattern: Seq<char>,
    source: Seq<LiteralModel>,
    target: Seq<LiteralModel>,
    parent: Option<(u64, usize)>,
    memo: MemoModel,
    stats: FrozenProofStats,
    n: int,
) -> ResolveOutcome
    decreases n,
{
    if n <= 0 || n > target.len() || source.len() == 0 {
        ResolveOutcome { steps: Seq::empty(), memo, stats }
    } else {
        let before = resolve_upto(raw, threshold, pattern, source, target, parent, memo, stats, n - 1);
        let source_literal = source[0];
        let target_literal = target[n - 1];
        if source_literal.polarity == target_literal.polarity {
            before
        } else {
            let outcome = unify_spec(
                raw,
                threshold,
                source_literal.atom,
                target_literal.atom,
                before.memo,
                before.stats.similarity_comparisons,
            );
            let attempted = FrozenProofStats {
                attempted_unifications: before.stats.attempted_unifications.wrapping_add(1),
                similarity_comparisons: outcome.comparisons,
                ..before.stats
            };
            match outcome.unification {
                Some(unification) => ResolveOutcome {
                    steps: before.steps.push(
                        step_record(
                            pattern,
                            source,
                            target,
                            source_literal,
                            target_literal,
                            unification,
                            parent,
                        ),
                    ),
                    memo: outcome.memo,
                    stats: FrozenProofStats {
                        successful_unifications: attempted.successful_unifications.wrapping_add(1),
                        ..attempted
                    },
                },
                None => ResolveOutcome { steps: before.steps, memo: outcome.memo, stats: attempted },
            }
        }
    }
}

/// Resolving a goal against a whole clause.
pub open spec fn resolve_spec(
    raw: spec_fn(SymbolModel, SymbolModel) -> u64,
    threshold: u64,
    pattern: Seq<char>,
    source: Seq<LiteralModel>,
    target: Seq<LiteralModel>,
    parent: Option<(u64, usize)>,
    memo: MemoModel,
    stats: FrozenProofStats,
) -> ResolveOutcome {
    resolve_upto(raw, threshold, pattern, source, target, parent, memo, stats, target.len() as int)
}

/// Resolving a goal against a clause counts unifications and similarity
/// lookups, and leaves the other counters as they are.
pub proof fn lemma_resolve_counters(
    raw: spec_fn(SymbolModel, SymbolModel) -> u64,
    threshold: u64,
    pattern: Seq<char>,
    source: Seq<LiteralModel>,
    target: Seq<LiteralModel>,
    parent: Option<(u64, usize)>,
    memo: MemoModel,
    stats: FrozenProofStats,
    n: int,
)
    ensures
        ({
            let after = resolve_upto(
                raw,
                threshold,
                pattern,
                source,
                target,
                parent,
                memo,
                stats,
                n,
            ).stats;
            after == (FrozenProofStats {
                attempted_unifications: after.attempted_unifications,
                successful_unifications: after.successful_unifications,
                similarity_comparisons: after.similarity_comparisons,
                ..stats
            })
        }),
    decreases n,
{
    if n > 0 && n <= target.len() && source.len() > 0 {
        lemma_resolve_counters(raw, threshold, pattern, source, target, parent, memo, stats, n - 1);
    }
}

/// The running similarity and the depth of a step, as the step after it
/// needs them.
pub open spec fn parent_summary(parent: Option<&ProofStepNode>) -> Option<(u64, usize)> {
    match parent {
        Some(node) => Some((node.inner.running_similarity, node.inner.depth)),
        None => None,
    }
}

/// The parent that a new step is given.
pub open spec fn parent_link(parent: Option<&ProofStepNode>) -> Option<ProofStepNode> {
    match parent {
        Some(node) => Some(*node),
        None => None,
    }
}

// ---------------------------------------------------------------------------
// Facts about the model.
// ---------------------------------------------------------------------------

/// An ascending sequence of names is the ascending order of its elements.
pub proof fn lemma_ascending_names(names: Seq<Seq<char>>)
    requires
        ascending(names, by_name()),
    ensures
        ascending_names(names.to_set()) == names,
{
    lemma_by_name_strict();
    let chosen = ascending_names(names.to_set());
    assert(ascending(names, by_name()) && names.to_set() == names.to_set());
    lemma_ascending_unique(chosen, names, by_name());
}

/// An ascending sequence of literals is the ascending order of its elements.
pub proof fn lemma_ascending_literals(literals: Seq<LiteralModel>)
    requires
        ascending(literals, by_literal()),
    ensures
        ascending_literals(literals.to_set()) == literals,
{
    lemma_by_literal_strict();
    let chosen = ascending_literals(literals.to_set());
    assert(ascending(literals, by_literal()) && literals.to_set() == literals.to_set());
    lemma_ascending_unique(chosen, literals, by_literal());
}

/// Two resolvents of the same clauses on the same literals under the same
/// substitutions are the same clause.
pub proof fn lemma_resolvent_unique(
    first: Seq<LiteralModel>,
    second: Seq<LiteralModel>,
    pattern: Seq<char>,
    source: Seq<LiteralModel>,
    target: Seq<LiteralModel>,
    source_literal: LiteralModel,
    target_literal: LiteralModel,
    source_substitutions: Map<Seq<char>, TermModel>,
    target_substitutions: Map<Seq<char>, TermModel>,
)
    requires
        is_resolvent(
            first,
            pattern,
            source,
            target,
            source_literal,
            target_literal,
            source_substitutions,
            target_substitutions,
        ),
        is_resolvent(
            second,
            pattern,
            source,
            target,
            source_literal,
            target_literal,
            source_substitutions,
            target_substitutions,
        ),
    ensures
        first == second,
        first == resolvent_of(
            pattern,
            source,
            target,
            source_literal,
            target_literal,
            source_substitutions,
            target_substitutions,
        ),
{
    lemma_by_literal_strict();
    lemma_ascending_unique(first, second, by_literal());
    lemma_ascending_literals(first);
}

/// A substitution that maps no variable of a term leaves it as it is.
pub proof fn lemma_untouched_term(term: TermModel, substitutions: Map<Seq<char>, TermModel>)
    requires
        !maps_one_of(substitutions, term_variables(term)),
    ensures
        substitute_term(term, substitutions) == term,
    decreases term,
{
    match term {
        TermModel::Constant(_) => {},
        TermModel::Variable(name) => {
            assert(term_variables(term).contains(name));
        },
        TermModel::BoundFunction(_, arguments) => {
            lemma_untouched_terms(arguments, substitutions);
        },
    }
}

/// A substitution that maps no variable of some terms leaves them as they
/// are.
pub proof fn lemma_untouched_terms(terms: Seq<TermModel>, substitutions: Map<Seq<char>, TermModel>)
    requires
        !maps_one_of(substitutions, terms_variables(terms)),
    ensures
        substitute_terms(terms, substitutions) == terms,
    decreases terms,
{
    assert forall|i: int| 0 <= i < terms.len() implies substitute_term(terms[i], substitutions)
        == terms[i] by {
        lemma_terms_variables_hold(terms, terms.len() as int, i);
        if maps_one_of(substitutions, term_variables(terms[i])) {
            let name = choose|name: Seq<char>|
                substitutions.contains_key(name) && #[trigger] term_variables(terms[i]).contains(
                    name,
                );
            assert(terms_variables(terms).contains(name));
        }
        lemma_untouched_term(terms[i], substitutions);
    }
    assert(substitute_terms(terms, substitutions) =~= terms);
}

/// A substitution that touches no variable of a literal leaves it as it is.
pub proof fn lemma_untouched_literal(
    literal: LiteralModel,
    substitutions: Map<Seq<char>, TermModel>,
)
    requires
        !touches(literal, substitutions),
    ensures
        substitute_literal(literal, substitutions) == literal,
{
    lemma_untouched_terms(literal.atom.terms, substitutions);
}

/// Substituting in a set with one more literal adds that literal's image.
pub proof fn lemma_substituted_insert(
    literals: Set<LiteralModel>,
    literal: LiteralModel,
    substitutions: Map<Seq<char>, TermModel>,
)
    ensures
        substituted(literals.insert(literal), substitutions) == substituted(
            literals,
            substitutions,
        ).insert(substitute_literal(literal, substitutions)),
{
    let left = substituted(literals.insert(literal), substitutions);
    let right = substituted(literals, substitutions).insert(
        substitute_literal(literal, substitutions),
    );
    assert forall|y: LiteralModel| left.contains(y) <==> right.contains(y) by {
        if left.contains(y) {
            let from = choose|from: LiteralModel|
                literals.insert(literal).contains(from) && #[trigger] substitute_literal(
                    from,
                    substitutions,
                ) == y;
            if from != literal {
                assert(literals.contains(from) && substitute_literal(from, substitutions) == y);
            }
        }
        if substituted(literals, substitutions).contains(y) {
            let from = choose|from: LiteralModel|
                literals.contains(from) && #[trigger] substitute_literal(from, substitutions) == y;
            assert(literals.insert(literal).contains(from) && substitute_literal(
                from,
                substitutions,
            ) == y);
        }
        if y == substitute_literal(literal, substitutions) {
            assert(literals.insert(literal).contains(literal) && substitute_literal(
                literal,
                substitutions,
            ) == y);
        }
    }
    assert(left =~= right);
}

/// The unused variables of a set with one more literal.
pub proof fn lemma_unused_insert(
    literals: Set<LiteralModel>,
    literal: LiteralModel,
    substitutions: Map<Seq<char>, TermModel>,
)
    ensures
        unused_variables(literals.insert(literal), substitutions) == unused_variables(
            literals,
            substitutions,
        ).union(
            Set::new(|name: Seq<char>| !substitutions.contains_key(name) && mentions(literal, name)),
        ),
{
    let left = unused_variables(literals.insert(literal), substitutions);
    let right = unused_variables(literals, substitutions).union(
        Set::new(|name: Seq<char>| !substitutions.contains_key(name) && mentions(literal, name)),
    );
    assert forall|name: Seq<char>| left.contains(name) <==> right.contains(name) by {
        if left.contains(name) {
            let l = choose|l: LiteralModel|
                literals.insert(literal).contains(l) && #[trigger] mentions(l, name);
            if l != literal {
                assert(literals.contains(l) && mentions(l, name));
            }
        }
        if unused_variables(literals, substitutions).contains(name) {
            let l = choose|l: LiteralModel| literals.contains(l) && #[trigger] mentions(l, name);
            assert(literals.insert(literal).contains(l) && mentions(l, name));
        }
        if !substitutions.contains_key(name) && mentions(literal, name) {
            assert(literals.insert(literal).contains(literal) && mentions(literal, name));
        }
    }
    assert(left =~= right);
}

// ---------------------------------------------------------------------------
// The executable operations.
// ---------------------------------------------------------------------------

/// Whether the substitution maps a variable of the term.
fn term_requires_substitution(term: &Term, substitutions: &SubstitutionsMap) -> (touched: bool)
    ensures
        touched == maps_one_of(substitutions@, term_variables(term@)),
    decreases term,
{
    match term {
        Term::Constant(_) => false,
        Term::Variable(variable) => {
            let mapped = substitutions.contains_key(variable);
            proof {
                if mapped {
                    assert(term_variables(term@).contains(variable@));
                }
            }
            mapped
        },
        Term::BoundFunction(bound) => terms_require_substitution(&bound.terms, substitutions),
    }
}

/// Whether the substitution maps a variable of one of the terms.
fn terms_require_substitution(terms: &Vec<Term>, substitutions: &SubstitutionsMap) -> (touched:
    bool)
    ensures
        touched == maps_one_of(substitutions@, terms_variables(terms_view(terms@))),
    decreases terms,
{
    let ghost models = terms_view(terms@);
    let mut i: usize = 0;
    while i < terms.len()
        invariant
            i <= terms.len(),
            models == terms_view(terms@),
            !maps_one_of(substitutions@, terms_variables_upto(models, i as int)),
        decreases terms.len() - i,
    {
        assert(models[i as int] == terms[i as int]@);
        if term_requires_substitution(&terms[i], substitutions) {
            proof {
                let name = choose|name: Seq<char>|
                    substitutions@.contains_key(name) && #[trigger] term_variables(
                        models[i as int],
                    ).contains(name);
                lemma_terms_variables_hold(models, models.len() as int, i as int);
                assert(terms_variables(models).contains(name));
            }
            return true;
        }
        proof {
            if maps_one_of(substitutions@, terms_variables_upto(models, i + 1)) {
                let name = choose|name: Seq<char>|
                    substitutions@.contains_key(name) && #[trigger] terms_variables_upto(
                        models,
                        i + 1,
                    ).contains(name);
                assert(terms_variables_upto(models, i as int).contains(name) || term_variables(
                    models[i as int],
                ).contains(name));
            }
        }
        i += 1;
    }
    false
}

/// Whether the substitution maps a variable that occurs in the literal.
pub fn literal_requires_substitution(
    literal: &PyArcItem<CNFLiteral>,
    substitutions: &SubstitutionsMap,
) -> (touched: bool)
    ensures
        touched == touches(literal.item@, substitutions@),
{
    terms_require_substitution(&literal.item.atom.terms, substitutions)
}

/// Whether the renaming maps a variable that occurs in the literal.
pub fn literal_requires_var_rename(literal: &PyArcItem<CNFLiteral>, rename_map: &SubstitutionsMap) -> (touched:
    bool)
    ensures
        touched == touches(literal.item@, rename_map@),
{
    literal_requires_substitution(literal, rename_map)
}

/// One term under a substitution.
fn substitute_in_term(term: &Term, substitutions: &SubstitutionsMap) -> (res: Term)
    ensures
        res@ == substitute_term(term@, substitutions@),
    decreases term,
{
    match term {
        Term::Constant(_) => term.clone(),
        Term::Variable(variable) => match substitutions.get(variable) {
            Some(replacement) => replacement.clone(),
            None => term.clone(),
        },
        Term::BoundFunction(bound) => Term::BoundFunction(
            BoundFunction::new(
                bound.function.clone(),
                substitute_in_terms(&bound.terms, substitutions),
            ),
        ),
    }
}

/// Each of the terms under a substitution, in order.
fn substitute_in_terms(terms: &Vec<Term>, substitutions: &SubstitutionsMap) -> (res: Vec<Term>)
    ensures
        terms_view(res@) == substitute_terms(terms_view(terms@), substitutions@),
    decreases terms,
{
    let mut res: Vec<Term> = Vec::new();
    let mut i: usize = 0;
    while i < terms.len()
        invariant
            i <= terms.len(),
            res.len() == i,
            forall|j: int|
                0 <= j < i ==> (#[trigger] res[j])@ == substitute_term(terms[j]@, substitutions@),
        decreases terms.len() - i,
    {
        res.push(substitute_in_term(&terms[i], substitutions));
        i += 1;
    }
    assert(terms_view(res@) =~= substitute_terms(terms_view(terms@), substitutions@));
    res
}

/// One literal under a substitution.  A literal that the substitution does
/// not touch is shared, not built anew.
fn substitute_in_literal(literal: &PyArcItem<CNFLiteral>, substitutions: &SubstitutionsMap) -> (res:
    PyArcItem<CNFLiteral>)
    ensures
        res.item@ == substitute_literal(literal.item@, substitutions@),
{
    if literal_requires_substitution(literal, substitutions) {
        let terms = substitute_in_terms(&literal.item.atom.terms, substitutions);
        let new_atom = Atom::new(literal.item.atom.predicate.clone(), terms);
        PyArcItem::new(CNFLiteral::new(new_atom, literal.item.polarity))
    } else {
        proof {
            lemma_untouched_literal(literal.item@, substitutions@);
        }
        literal.clone()
    }
}

/// The literals under a substitution.
pub fn perform_substitution(literals: &LiteralSet, substitutions: &SubstitutionsMap) -> (res:
    LiteralSet)
    ensures
        res@.to_set() == substituted(literals@.to_set(), substitutions@),
        ascending(res@, by_literal()),
{
    let mut new_literals = LiteralSet::new();
    let n = literals.len();
    let mut i: usize = 0;
    assert(new_literals@.to_set() =~= substituted(literals@.take(0).to_set(), substitutions@));
    while i < n
        invariant
            i <= n,
            n == literals@.len(),
            new_literals@.to_set() == substituted(
                literals@.take(i as int).to_set(),
                substitutions@,
            ),
            ascending(new_literals@, by_literal()),
        decreases n - i,
    {
        let literal = literals.get(i);
        new_literals.insert(substitute_in_literal(literal, substitutions));
        proof {
            lemma_prefix_set_step(literals@, i as int);
            lemma_substituted_insert(
                literals@.take(i as int).to_set(),
                literals@[i as int],
                substitutions@,
            );
        }
        i += 1;
    }
    assert(literals@.take(n as int) =~= literals@);
    new_literals
}

/// The literals with their variables renamed.
pub fn rename_variables_in_literals(literals: &LiteralSet, rename_map: &SubstitutionsMap) -> (res:
    LiteralSet)
    ensures
        res@.to_set() == substituted(literals@.to_set(), rename_map@),
        ascending(res@, by_literal()),
{
    perform_substitution(literals, rename_map)
}

/// Adds to `found` the variables of the term that the substitution does
/// not map.
fn collect_unmapped_in_term(term: &Term, substitutions: &SubstitutionsMap, found: &mut VariableSet)
    requires
        old(found).well_formed(),
    ensures
        final(found)@ == old(found)@.union(
            term_variables(term@).difference(substitutions@.dom()),
        ),
        final(found).well_formed(),
    decreases term,
{
    match term {
        Term::Constant(_) => {
            assert(found@ =~= found@.union(
                term_variables(term@).difference(substitutions@.dom()),
            ));
        },
        Term::Variable(variable) => {
            if !substitutions.contains_key(variable) {
                found.insert(variable.clone());
            }
            assert(found@ =~= old(found)@.union(
                term_variables(term@).difference(substitutions@.dom()),
            ));
        },
        Term::BoundFunction(bound) => {
            collect_unmapped_in_terms(&bound.terms, substitutions, found);
        },
    }
}

/// Adds to `found` the variables of the terms that the substitution does
/// not map.
fn collect_unmapped_in_terms(
    terms: &Vec<Term>,
    substitutions: &SubstitutionsMap,
    found: &mut VariableSet,
)
    requires
        old(found).well_formed(),
    ensures
        final(found)@ == old(found)@.union(
            terms_variables(terms_view(terms@)).difference(substitutions@.dom()),
        ),
        final(found).well_formed(),
    decreases terms,
{
    let ghost models = terms_view(terms@);
    let mut i: usize = 0;
    assert(found@ =~= old(found)@.union(
        terms_variables_upto(models, 0).difference(substitutions@.dom()),
    ));
    while i < terms.len()
        invariant
            i <= terms.len(),
            models == terms_view(terms@),
            found@ == old(found)@.union(
                terms_variables_upto(models, i as int).difference(substitutions@.dom()),
            ),
            found.well_formed(),
        decreases terms.len() - i,
    {
        assert(models[i as int] == terms[i as int]@);
        collect_unmapped_in_term(&terms[i], substitutions, found);
        i += 1;
        assert(found@ =~= old(found)@.union(
            terms_variables_upto(models, i as int).difference(substitutions@.dom()),
        ));
    }
}

/// The variables that occur in the literals and that the substitution does
/// not map.
pub fn find_unused_variables(literals: &LiteralSet, substitutions: &SubstitutionsMap) -> (res:
    VariableSet)
    ensures
        res@ == unused_variables(literals@.to_set(), substitutions@),
        res.well_formed(),
{
    let mut found = VariableSet::new();
    let n = literals.len();
    let mut i: usize = 0;
    assert(found@ =~= unused_variables(literals@.take(0).to_set(), substitutions@));
    while i < n
        invariant
            i <= n,
            n == literals@.len(),
            found@ == unused_variables(
                literals@.take(i as int).to_set(),
                substitutions@,
            ),
            found.well_formed(),
        decreases n - i,
    {
        let literal = literals.get(i);
        let ghost model = literal.item@;
        collect_unmapped_in_terms(&literal.item.atom.terms, substitutions, &mut found);
        proof {
            lemma_prefix_set_step(literals@, i as int);
            lemma_unused_insert(literals@.take(i as int).to_set(), model, substitutions@);
            assert(terms_variables(model.atom.terms).difference(substitutions@.dom()) =~= Set::new(
                |name: Seq<char>| !substitutions@.contains_key(name) && mentions(model, name),
            ));
        }
        i += 1;
    }
    assert(literals@.take(n as int) =~= literals@);
    found
}

/// Adds the variables of `from` to `into`.
fn add_all_variables(into: &mut VariableSet, from: &VariableSet)
    ensures
        final(into)@ == old(into)@.union(from@),
{
    let n = from.len();
    let mut i: usize = 0;
    assert(into@ =~= old(into)@.union(from.names().take(0).to_set()));
    while i < n
        invariant
            i <= n,
            n == from.names().len(),
            from.well_formed(),
            into@ == old(into)@.union(from.names().take(i as int).to_set()),
        decreases n - i,
    {
        into.insert(from.get(i).clone());
        proof {
            lemma_prefix_set_step(from.names(), i as int);
        }
        i += 1;
        assert(into@ =~= old(into)@.union(from.names().take(i as int).to_set()));
    }
    assert(from.names().take(n as int) =~= from.names());
}

/// Adds the variables that `from` maps to `into`.
fn add_all_keys(into: &mut VariableSet, from: &SubstitutionsMap)
    ensures
        final(into)@ == old(into)@.union(from@.dom()),
{
    let n = from.len();
    let mut i: usize = 0;
    assert(into@ =~= old(into)@.union(from.names().take(0).to_set()));
    while i < n
        invariant
            i <= n,
            n == from.names().len(),
            from.names().to_set() == from@.dom(),
            into@ == old(into)@.union(from.names().take(i as int).to_set()),
        decreases n - i,
    {
        into.insert(from.key_at(i).clone());
        proof {
            lemma_prefix_set_step(from.names(), i as int);
        }
        i += 1;
        assert(into@ =~= old(into)@.union(from.names().take(i as int).to_set()));
    }
    assert(from.names().take(n as int) =~= from.names());
}

/// The union of two sets of literals.
fn union_literals(first: LiteralSet, second: &LiteralSet) -> (res: LiteralSet)
    requires
        ascending(first@, by_literal()),
    ensures
        res@.to_set() == first@.to_set().union(second@.to_set()),
        ascending(res@, by_literal()),
{
    let mut res = first;
    let n = second.len();
    let mut i: usize = 0;
    assert(res@.to_set() =~= first@.to_set().union(second@.take(0).to_set()));
    while i < n
        invariant
            i <= n,
            n == second@.len(),
            res@.to_set() == first@.to_set().union(second@.take(i as int).to_set()),
            ascending(res@, by_literal()),
        decreases n - i,
    {
        res.insert(second.get(i).clone());
        proof {
            lemma_prefix_set_step(second@, i as int);
        }
        i += 1;
        assert(res@.to_set() =~= first@.to_set().union(second@.take(i as int).to_set()));
    }
    assert(second@.take(n as int) =~= second@);
    res
}

/// Finds fresh names for the variables that source and target have in
/// common.  The names that are made are added to `all_variables`.
pub fn find_non_overlapping_var_names(
    source_vars: &VariableSet,
    target_vars: &VariableSet,
    all_variables: &mut VariableSet,
    pattern: &VarNamePattern,
) -> (renamed_vars: SubstitutionsMap)
    ensures
        (renamed_vars@, final(all_variables)@) == renames_upto(
            pattern.source(),
            source_vars.names(),
            target_vars@,
            old(all_variables)@,
            source_vars.names().len() as int,
        ),
{
    let mut renamed_vars = SubstitutionsMap::new();
    let n = source_vars.len();
    let mut i: usize = 0;
    while i < n
        invariant
            i <= n,
            n == source_vars.names().len(),
            (renamed_vars@, all_variables@) == renames_upto(
                pattern.source(),
                source_vars.names(),
                target_vars@,
                old(all_variables)@,
                i as int,
            ),
        decreases n - i,
    {
        let var = source_vars.get(i);
        if target_vars.contains(var) {
            let base = pattern.strip(var.name.as_str());
            let new_var = fresh_variable(base.as_str(), all_variables);
            renamed_vars.insert(var.clone(), Term::Variable(new_var));
        }
        i += 1;
    }
    renamed_vars
}

/// Builds the resolvent of `source` and `target` on the two literals that
/// were unified.
pub fn build_resolvent(
    source: &PyArcItem<CNFDisjunction>,
    target: &PyArcItem<CNFDisjunction>,
    source_literal: &PyArcItem<CNFLiteral>,
    target_literal: &PyArcItem<CNFLiteral>,
    unification: &Unification,
    pattern: &VarNamePattern,
) -> (resolvent: PyArcItem<CNFDisjunction>)
    requires
        source.item@.contains(source_literal.item@),
        target.item@.contains(target_literal.item@),
    ensures
        resolvent.item@ == resolvent_of(
            pattern.source(),
            source.item@,
            target.item@,
            source_literal.item@,
            target_literal.item@,
            unification.source_substitutions@,
            unification.target_substitutions@,
        ),
        is_resolvent(
            resolvent.item@,
            pattern.source(),
            source.item@,
            target.item@,
            source_literal.item@,
            target_literal.item@,
            unification.source_substitutions@,
            unification.target_substitutions@,
        ),
{
    let mut source_literals = source.item.literals.clone();
    source_literals.remove(&source_literal.item);
    let mut target_literals = target.item.literals.clone();
    target_literals.remove(&target_literal.item);
    let unused_source_vars = find_unused_variables(
        &source_literals,
        &unification.source_substitutions,
    );
    let unused_target_vars = find_unused_variables(
        &target_literals,
        &unification.target_substitutions,
    );
    let mut all_vars = VariableSet::new();
    add_all_variables(&mut all_vars, &unused_source_vars);
    add_all_variables(&mut all_vars, &unused_target_vars);
    add_all_keys(&mut all_vars, &unification.source_substitutions);
    add_all_keys(&mut all_vars, &unification.target_substitutions);
    proof {
        lemma_ascending_names(unused_source_vars.names());
        assert(all_vars@ =~= unused_source_vars@.union(unused_target_vars@).union(
            unification.source_substitutions@.dom(),
        ).union(unification.target_substitutions@.dom()));
    }
    let rename_vars_map = find_non_overlapping_var_names(
        &unused_source_vars,
        &unused_target_vars,
        &mut all_vars,
        pattern,
    );
    let target_literals = rename_variables_in_literals(&target_literals, &rename_vars_map);
    let updated_source_literals = perform_substitution(
        &source_literals,
        &unification.source_substitutions,
    );
    let updated_target_literals = perform_substitution(
        &target_literals,
        &unification.target_substitutions,
    );
    let resolvent_literals = union_literals(updated_source_literals, &updated_target_literals);
    proof {
        lemma_ascending_literals(resolvent_literals@);
    }
    PyArcItem::new(CNFDisjunction::new(resolvent_literals))
}

/// Resolves `source` against `target`: the least literal of `source` is
/// unified with each literal of `target` that has the other polarity, and
/// each unification gives a step.  The steps come in the order of the
/// target's literals, and each has `parent_node` as its parent.
pub fn resolve<F: Fn(&String, Option<u64>, &String, Option<u64>) -> u64>(
    source: &PyArcItem<CNFDisjunction>,
    target: &PyArcItem<CNFDisjunction>,
    ctx: &mut LocalProofContext,
    shared: &mut SharedProofContext<F>,
    parent_node: Option<&ProofStepNode>,
    pattern: &VarNamePattern,
) -> (next_steps: Vec<ProofStepNode>)
    requires
        old(shared).comparator_ok(),
        source.item@.len() > 0,
        parent_node matches Some(parent) ==> parent.inner.depth < usize::MAX,
    ensures
        ({
            let outcome = resolve_spec(
                old(shared).raw(),
                old(shared).min_similarity_threshold,
                pattern.source(),
                source.item@,
                target.item@,
                parent_summary(parent_node),
                old(ctx).memo(old(shared)),
                old(ctx).stats,
            );
            &&& next_steps.len() == outcome.steps.len()
            &&& forall|i: int|
                0 <= i < next_steps.len() ==> (#[trigger] next_steps[i]).inner@ == outcome.steps[i]
                    && next_steps[i].inner.parent == parent_link(parent_node)
            &&& final(ctx).memo(final(shared)) == outcome.memo
            &&& final(ctx).stats == outcome.stats
        }),
        forall|i: int|
            0 <= i < next_steps.len() ==> step_resolves((#[trigger] next_steps[i]).inner@, pattern.source()),
        old(shared).same_search_state(final(shared)),
{
    let mut next_steps: Vec<ProofStepNode> = Vec::new();
    let source_literal = source.item.literals.get(0);
    let n = target.item.literals.len();
    let ghost raw = shared.raw();
    let ghost threshold = shared.min_similarity_threshold;
    let mut i: usize = 0;
    while i < n
        invariant
            i <= n,
            n == target.item@.len(),
            source.item@.len() > 0,
            source_literal.item@ == source.item@[0],
            parent_node matches Some(parent) ==> parent.inner.depth < usize::MAX,
            shared.comparator_ok(),
            raw == shared.raw(),
            raw == old(shared).raw(),
            threshold == shared.min_similarity_threshold,
            threshold == old(shared).min_similarity_threshold,
            old(shared).same_search_state(shared),
            ({
                let outcome = resolve_upto(
                    raw,
                    threshold,
                    pattern.source(),
                    source.item@,
                    target.item@,
                    parent_summary(parent_node),
                    old(ctx).memo(old(shared)),
                    old(ctx).stats,
                    i as int,
                );
                &&& next_steps.len() == outcome.steps.len()
                &&& forall|k: int|
                    0 <= k < next_steps.len() ==> (#[trigger] next_steps[k]).inner@
                        == outcome.steps[k] && next_steps[k].inner.parent == parent_link(
                        parent_node,
                    )
                &&& ctx.memo(shared) == outcome.memo
                &&& ctx.stats == outcome.stats
            }),
            forall|k: int|
                0 <= k < next_steps.len() ==> step_resolves(
                    (#[trigger] next_steps[k]).inner@,
                    pattern.source(),
                ),
        decreases n - i,
    {
        let target_literal = target.item.literals.get(i);
        // only literals of opposite polarity resolve
        if source_literal.item.polarity != target_literal.item.polarity {
            ctx.stats.attempted_unifications = ctx.stats.attempted_unifications.wrapping_add(1);
            let unification = unify(&source_literal.item.atom, &target_literal.item.atom, ctx, shared);
            if let Some(unification) = unification {
                ctx.stats.successful_unifications = ctx.stats.successful_unifications.wrapping_add(
                    1,
                );
                assert(source.item@.contains(source_literal.item@));
                assert(target.item@.contains(target_literal.item@));
                let resolvent = build_resolvent(
                    source,
                    target,
                    source_literal,
                    target_literal,
                    &unification,
                    pattern,
                );
                let running_similarity = match parent_node {
                    Some(parent) => min_similarity(
                        unification.similarity,
                        parent.inner.running_similarity,
                    ),
                    None => unification.similarity,
                };
                let depth = match parent_node {
                    Some(parent) => parent.inner.depth + 1,
                    None => 0,
                };
                let new_parent: Option<ProofStepNode> = match parent_node {
                    Some(parent) => Some(parent.clone()),
                    None => None,
                };
                let step = ProofStepNode::new(
                    ProofStep::new(
                        source.clone(),
                        target.clone(),
                        source_literal.clone(),
                        target_literal.clone(),
                        unification.source_substitutions,
                        unification.target_substitutions,
                        resolvent,
                        unification.similarity,
                        running_similarity,
                        depth,
                        new_parent,
                    ),
                );
                next_steps.push(step);
            }
        }
        i += 1;
    }
    next_steps
}

} // verus!
