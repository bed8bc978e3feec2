//! Unification of two atoms, with similar symbols allowed to stand for each
//! other.
//!
//! The two atoms keep their variables apart: a variable of the source atom
//! and a variable of the target atom are different variables even where they
//! bear the same name.  So every term at work carries a label that says
//! which atom it comes from, and a binding maps a labelled variable to a
//! labelled term.  Bindings are not applied to terms; a term is resolved
//! through the bindings when it is looked at.
//!
//! The model below states what the unifier computes, step by step: the
//! executable code is proved to compute exactly that.

use crate::prover::proof_context::memo_lookup;
use crate::prover::proof_context::LocalProofContext;
use crate::prover::proof_context::MemoModel;
use crate::prover::proof_context::SharedProofContext;
use crate::prover::proof_stats::FrozenProofStats;
use crate::prover::similarity::lower;
use crate::prover::similarity::min_similarity;
use crate::prover::similarity::pair_key;
use crate::prover::substitutions::SubstitutionsMap;
use crate::types::terms_view;
use crate::types::Atom;
use crate::types::AtomModel;
use crate::types::Constant;
use crate::types::SimilarityComparable;
use crate::types::SymbolModel;
use crate::types::Term;
use crate::types::TermModel;
use crate::types::Variable;
use vstd::prelude::*;

verus! {

/// The most terms, or pairs of terms, that one walk looks at before it gives
/// up and reports failure.
pub const STEP_LIMIT: usize = usize::MAX;

/// Which of the two atoms a term comes from.
#[derive(Clone, Copy, Debug, PartialEq, Eq, Structural)]
pub enum BindingLabel {
    Source,
    Target,
}

/// The model of a term with its label.
pub struct LabeledModel {
    pub label: BindingLabel,
    pub term: TermModel,
}

/// The model of a binding: the variable `name` of the atom `label` stands
/// for `bound`.
pub struct BindingModel {
    pub label: BindingLabel,
    pub name: Seq<char>,
    pub bound: LabeledModel,
}

/// A term with its label.
#[derive(Debug)]
pub struct LabeledTerm {
    pub label: BindingLabel,
    pub term: Term,
}

impl View for LabeledTerm {
    type V = LabeledModel;

    open spec fn view(&self) -> LabeledModel {
        LabeledModel { label: self.label, term: self.term@ }
    }
}

impl Clone for LabeledTerm {
    fn clone(&self) -> (res: Self)
        ensures
            res@ == self@,
    {
        LabeledTerm { label: self.label, term: self.term.clone() }
    }
}

impl LabeledTerm {
    pub fn new(label: BindingLabel, term: Term) -> (res: Self)
        ensures
            res.label == label,
            res.term == term,
    {
        LabeledTerm { label, term }
    }
}

/// A binding of a labelled variable to a labelled term.
#[derive(Debug)]
pub struct Binding {
    pub label: BindingLabel,
    pub variable: Variable,
    pub bound: LabeledTerm,
}

impl View for Binding {
    type V = BindingModel;

    open spec fn view(&self) -> BindingModel {
        BindingModel { label: self.label, name: self.variable@, bound: self.bound@ }
    }
}

/// The models of a list of bindings, in order.
pub open spec fn bindings_view(bindings: Seq<Binding>) -> Seq<BindingModel> {
    Seq::new(bindings.len(), |i: int| bindings[i]@)
}

// ---------------------------------------------------------------------------
// The model.
// ---------------------------------------------------------------------------

/// The first position at or after `from` that binds the variable `name` of
/// the atom `label`; the number of bindings if there is none.
pub open spec fn binding_index(
    bindings: Seq<BindingModel>,
    label: BindingLabel,
    name: Seq<char>,
    from: int,
) -> int
    decreases bindings.len() - from,
{
    if from < 0 || from >= bindings.len() {
        bindings.len() as int
    } else if bindings[from].label == label && bindings[from].name == name {
        from
    } else {
        binding_index(bindings, label, name, from + 1)
    }
}

/// Whether the variable `name` of the atom `label` is bound.
pub open spec fn is_bound(bindings: Seq<BindingModel>, label: BindingLabel, name: Seq<char>) -> bool {
    binding_index(bindings, label, name, 0) < bindings.len()
}

/// What the variable `name` of the atom `label` is bound to, if it is bound.
pub open spec fn lookup(bindings: Seq<BindingModel>, label: BindingLabel, name: Seq<char>) -> Option<
    LabeledModel,
> {
    if is_bound(bindings, label, name) {
        Some(bindings[binding_index(bindings, label, name, 0)].bound)
    } else {
        None
    }
}

/// The bindings with the variable `name` of the atom `label` bound to
/// `bound`, in place of what it was bound to before.
pub open spec fn bind(
    bindings: Seq<BindingModel>,
    label: BindingLabel,
    name: Seq<char>,
    bound: LabeledModel,
) -> Seq<BindingModel> {
    let binding = BindingModel { label, name, bound };
    if is_bound(bindings, label, name) {
        bindings.update(binding_index(bindings, label, name, 0), binding)
    } else {
        bindings.push(binding)
    }
}

/// `term` after at most `links` bound variables have been replaced by what
/// they are bound to, one after the other.
pub open spec fn resolve(bindings: Seq<BindingModel>, term: LabeledModel, links: nat) -> LabeledModel
    decreases links,
{
    if links == 0 {
        term
    } else {
        match term.term {
            TermModel::Variable(name) => match lookup(bindings, term.label, name) {
                Some(next) => resolve(bindings, next, (links - 1) as nat),
                None => term,
            },
            _ => term,
        }
    }
}

/// What `term` stands for under the bindings: a term that is no variable, or
/// a variable at the end of its chain.  A chain is followed for as many
/// links as there are bindings, which is every link of a chain that does not
/// run in a circle.
pub open spec fn resolved(bindings: Seq<BindingModel>, term: LabeledModel) -> LabeledModel {
    resolve(bindings, term, bindings.len())
}

/// The terms of one atom, each with that atom's label.
pub open spec fn labeled_all(label: BindingLabel, terms: Seq<TermModel>) -> Seq<LabeledModel> {
    Seq::new(terms.len(), |i: int| LabeledModel { label, term: terms[i] })
}

/// The occurs check: whether a walk through the `pending` terms, and through
/// all that their variables stand for, ends without meeting the variable
/// `name` of the atom `label`.  The walk takes the last pending term first,
/// and fails when it has looked at `budget` terms without coming to an end.
pub open spec fn free_of(
    bindings: Seq<BindingModel>,
    label: BindingLabel,
    name: Seq<char>,
    pending: Seq<LabeledModel>,
    budget: nat,
) -> bool
    decreases budget,
{
    if pending.len() == 0 {
        true
    } else if budget == 0 {
        false
    } else {
        let current = resolved(bindings, pending.last());
        let rest = pending.drop_last();
        match current.term {
            TermModel::Constant(_) => free_of(bindings, label, name, rest, (budget - 1) as nat),
            TermModel::Variable(found) => if current.label == label && found == name {
                false
            } else {
                free_of(bindings, label, name, rest, (budget - 1) as nat)
            },
            TermModel::BoundFunction(_, arguments) => free_of(
                bindings,
                label,
                name,
                rest + labeled_all(current.label, arguments),
                (budget - 1) as nat,
            ),
        }
    }
}

/// What the unifier keeps while it works.
pub struct UnifierState {
    pub bindings: Seq<BindingModel>,
    /// The lowest similarity met so far.
    pub similarity: u64,
    pub memo: MemoModel,
    /// The count of similarity lookups.
    pub comparisons: usize,
}

/// The pairs of arguments of two function terms, position by position.
pub open spec fn argument_pairs(
    source_label: BindingLabel,
    sources: Seq<TermModel>,
    target_label: BindingLabel,
    targets: Seq<TermModel>,
) -> Seq<(LabeledModel, LabeledModel)> {
    Seq::new(
        sources.len(),
        |i: int|
            (
                LabeledModel { label: source_label, term: sources[i] },
                LabeledModel { label: target_label, term: targets[i] },
            ),
    )
}

/// Unifies the `pending` pairs, the last one first.  Gives whether all of
/// them unify, and the state in which the work ended.
///
/// Both terms of a pair are resolved, and then:
/// - two constants: equal ones are passed over; others are looked up, the
///   lookup is counted, the similarity sinks to their score if that is lower,
///   and the work fails if the similarity is then not above `threshold`;
/// - two variables: the same variable is passed over; otherwise the target
///   side's variable is bound to the source side's;
/// - a variable and another term: the variable is bound to the term, unless
///   the occurs check finds the variable in it, which fails the work;
/// - two function terms: they must agree in symbol and in the number of
///   arguments, and then their arguments are unified pair by pair;
/// - anything else fails the work.
///
/// The work also fails when `budget` pairs have been looked at and some are
/// still pending.
pub open spec fn unify_pending(
    raw: spec_fn(SymbolModel, SymbolModel) -> u64,
    threshold: u64,
    state: UnifierState,
    pending: Seq<(LabeledModel, LabeledModel)>,
    budget: nat,
) -> (bool, UnifierState)
    decreases budget,
{
    if pending.len() == 0 {
        (true, state)
    } else if budget == 0 {
        (false, state)
    } else {
        let source = resolved(state.bindings, pending.last().0);
        let target = resolved(state.bindings, pending.last().1);
        let rest = pending.drop_last();
        let left = (budget - 1) as nat;
        match (source.term, target.term) {
            (TermModel::Constant(a), TermModel::Constant(b)) => if a == b {
                unify_pending(raw, threshold, state, rest, left)
            } else {
                let (score, memo) = memo_lookup(state.memo, pair_key(a, b), raw(a, b));
                let next = UnifierState {
                    bindings: state.bindings,
                    similarity: lower(state.similarity, score),
                    memo,
                    comparisons: state.comparisons.wrapping_add(1),
                };
                if next.similarity <= threshold {
                    (false, next)
                } else {
                    unify_pending(raw, threshold, next, rest, left)
                }
            },
            (TermModel::Variable(x), TermModel::Variable(y)) => if source == target {
                unify_pending(raw, threshold, state, rest, left)
            } else {
                let next = UnifierState {
                    bindings: bind(state.bindings, target.label, y, source),
                    ..state
                };
                unify_pending(raw, threshold, next, rest, left)
            },
            (TermModel::Variable(x), _) => if free_of(
                state.bindings,
                source.label,
                x,
                seq![target],
                STEP_LIMIT as nat,
            ) {
                let next = UnifierState {
                    bindings: bind(state.bindings, source.label, x, target),
                    ..state
                };
                unify_pending(raw, threshold, next, rest, left)
            } else {
                (false, state)
            },
            (_, TermModel::Variable(y)) => if free_of(
                state.bindings,
                target.label,
                y,
                seq![source],
                STEP_LIMIT as nat,
            ) {
                let next = UnifierState {
                    bindings: bind(state.bindings, target.label, y, source),
                    ..state
                };
                unify_pending(raw, threshold, next, rest, left)
            } else {
                (false, state)
            },
            (TermModel::BoundFunction(f, xs), TermModel::BoundFunction(g, ys)) => if f != g
                || xs.len() != ys.len() {
                (false, state)
            } else {
                unify_pending(
                    raw,
                    threshold,
                    state,
                    rest + argument_pairs(source.label, xs, target.label, ys),
                    left,
                )
            },
            _ => (false, state),
        }
    }
}

/// Unifies the arguments of two atoms from position `from` on, one pair
/// after the other, and stops at the first pair that does not unify.
pub open spec fn unify_arguments(
    raw: spec_fn(SymbolModel, SymbolModel) -> u64,
    threshold: u64,
    state: UnifierState,
    sources: Seq<TermModel>,
    targets: Seq<TermModel>,
    from: int,
) -> (bool, UnifierState)
    decreases sources.len() - from,
{
    if from < 0 || from >= sources.len() || from >= targets.len() {
        (true, state)
    } else {
        let pair = (
            LabeledModel { label: BindingLabel::Source, term: sources[from] },
            LabeledModel { label: BindingLabel::Target, term: targets[from] },
        );
        let (unified, next) = unify_pending(raw, threshold, state, seq![pair], STEP_LIMIT as nat);
        if unified {
            unify_arguments(raw, threshold, next, sources, targets, from + 1)
        } else {
            (false, next)
        }
    }
}

/// The substitution that the bindings make for one of the two atoms: each
/// bound variable of that atom is mapped to what it stands for in the end.
pub open spec fn substitutions_for(bindings: Seq<BindingModel>, label: BindingLabel) -> Map<
    Seq<char>,
    TermModel,
> {
    Map::new(
        |name: Seq<char>| is_bound(bindings, label, name),
        |name: Seq<char>|
            resolved(bindings, LabeledModel { label, term: TermModel::Variable(name) }).term,
    )
}

/// The model of a unification.
pub struct UnificationModel {
    pub source_substitutions: Map<Seq<char>, TermModel>,
    pub target_substitutions: Map<Seq<char>, TermModel>,
    pub similarity: u64,
}

/// What a call of the unifier comes to: the unification, if there is one,
/// the cached scores after the call, and the count of lookups after it.
pub struct UnifierOutcome {
    pub unification: Option<UnificationModel>,
    pub memo: MemoModel,
    pub comparisons: usize,
}

/// The unifier.  Atoms with different numbers of arguments do not unify, and
/// nothing is looked up for them.  Otherwise the similarity of the two
/// predicates is looked up; if it is not above `threshold`, the atoms do not
/// unify and their arguments are not looked at.  Otherwise the arguments are
/// unified, and the unification carries the lowest similarity met.
pub open spec fn unify_spec(
    raw: spec_fn(SymbolModel, SymbolModel) -> u64,
    threshold: u64,
    source: AtomModel,
    target: AtomModel,
    memo: MemoModel,
    comparisons: usize,
) -> UnifierOutcome {
    if source.terms.len() != target.terms.len() {
        UnifierOutcome { unification: None, memo, comparisons }
    } else {
        let (score, memo) = memo_lookup(
            memo,
            pair_key(source.predicate, target.predicate),
            raw(source.predicate, target.predicate),
        );
        let comparisons = comparisons.wrapping_add(1);
        if score <= threshold {
            UnifierOutcome { unification: None, memo, comparisons }
        } else {
            let start = UnifierState {
                bindings: Seq::<BindingModel>::empty(),
                similarity: score,
                memo,
                comparisons,
            };
            let (unified, end) = unify_arguments(
                raw,
                threshold,
                start,
                source.terms,
                target.terms,
                0,
            );
            UnifierOutcome {
                unification: if unified {
                    Some(
                        UnificationModel {
                            source_substitutions: substitutions_for(
                                end.bindings,
                                BindingLabel::Source,
                            ),
                            target_substitutions: substitutions_for(
                                end.bindings,
                                BindingLabel::Target,
                            ),
                            similarity: end.similarity,
                        },
                    )
                } else {
                    None
                },
                memo: end.memo,
                comparisons: end.comparisons,
            }
        }
    }
}

/// The result of unifying two atoms: a substitution for each, and the lowest
/// similarity met on the way.
#[derive(Debug, PartialEq)]
pub struct Unification {
    pub source_substitutions: SubstitutionsMap,
    pub target_substitutions: SubstitutionsMap,
    pub similarity: u64,
}

impl View for Unification {
    type V = UnificationModel;

    open spec fn view(&self) -> UnificationModel {
        UnificationModel {
            source_substitutions: self.source_substitutions@,
            target_substitutions: self.target_substitutions@,
            similarity: self.similarity,
        }
    }
}

// ---------------------------------------------------------------------------
// The executable unifier.
// ---------------------------------------------------------------------------

/// The position of the binding of a labelled variable, if it is bound.
fn find_binding(bindings: &Vec<Binding>, label: BindingLabel, variable: &Variable) -> (found: Option<
    usize,
>)
    ensures
        found is Some == is_bound(bindings_view(bindings@), label, variable@),
        found matches Some(i) ==> i == binding_index(bindings_view(bindings@), label, variable@, 0)
            && i < bindings.len(),
{
    let mut i: usize = 0;
    while i < bindings.len()
        invariant
            i <= bindings.len(),
            binding_index(bindings_view(bindings@), label, variable@, 0) == binding_index(
                bindings_view(bindings@),
                label,
                variable@,
                i as int,
            ),
        decreases bindings.len() - i,
    {
        if bindings[i].label == label && bindings[i].variable.name == variable.name {
            return Some(i);
        }
        i += 1;
    }
    None
}

/// Binds a labelled variable, in place of its earlier binding if it has one.
fn add_binding(bindings: &mut Vec<Binding>, label: BindingLabel, variable: Variable, bound: LabeledTerm)
    ensures
        bindings_view(final(bindings)@) == bind(
            bindings_view(old(bindings)@),
            label,
            variable@,
            bound@,
        ),
{
    let found = find_binding(bindings, label, &variable);
    let binding = Binding { label, variable, bound };
    match found {
        Some(i) => {
            bindings.set(i, binding);
            assert(bindings_view(bindings@) =~= bind(
                bindings_view(old(bindings)@),
                label,
                variable@,
                bound@,
            ));
        },
        None => {
            bindings.push(binding);
            assert(bindings_view(bindings@) =~= bind(
                bindings_view(old(bindings)@),
                label,
                variable@,
                bound@,
            ));
        },
    }
}

/// What `term` stands for under the bindings.
fn resolve_labeled_term<'a>(term: &'a LabeledTerm, bindings: &'a Vec<Binding>) -> (res: &'a LabeledTerm)
    ensures
        res@ == resolved(bindings_view(bindings@), term@),
{
    let mut current = term;
    let mut links = bindings.len();
    while links > 0
        invariant
            resolved(bindings_view(bindings@), term@) == resolve(
                bindings_view(bindings@),
                current@,
                links as nat,
            ),
        decreases links,
    {
        match &current.term {
            Term::Variable(variable) => {
                match find_binding(bindings, current.label, variable) {
                    Some(i) => {
                        assert(bindings_view(bindings@)[i as int] == bindings[i as int]@);
                        current = &bindings[i].bound;
                        links -= 1;
                    },
                    None => {
                        return current;
                    },
                }
            },
            _ => {
                return current;
            },
        }
    }
    current
}

/// The models of a list of labelled terms, in order.
pub open spec fn labeled_view(terms: Seq<LabeledTerm>) -> Seq<LabeledModel> {
    Seq::new(terms.len(), |i: int| terms[i]@)
}

/// The models of a list of pairs of labelled terms, in order.
pub open spec fn pairs_view(pairs: Seq<(LabeledTerm, LabeledTerm)>) -> Seq<
    (LabeledModel, LabeledModel),
> {
    Seq::new(pairs.len(), |i: int| (pairs[i].0@, pairs[i].1@))
}

/// The occurs check: whether `term`, with all that its variables stand for,
/// is free of the labelled variable.
fn check_var_occurrence(
    label: BindingLabel,
    variable: &Variable,
    term: &LabeledTerm,
    bindings: &Vec<Binding>,
) -> (free: bool)
    ensures
        free == free_of(
            bindings_view(bindings@),
            label,
            variable@,
            seq![term@],
            STEP_LIMIT as nat,
        ),
{
    let mut stack: Vec<LabeledTerm> = Vec::new();
    stack.push(term.clone());
    let mut budget: usize = STEP_LIMIT;
    assert(labeled_view(stack@) =~= seq![term@]);
    while stack.len() > 0
        invariant
            free_of(bindings_view(bindings@), label, variable@, seq![term@], STEP_LIMIT as nat)
                == free_of(
                bindings_view(bindings@),
                label,
                variable@,
                labeled_view(stack@),
                budget as nat,
            ),
        decreases budget,
    {
        if budget == 0 {
            return false;
        }
        let ghost pending = labeled_view(stack@);
        budget -= 1;
        let top = stack.pop().unwrap();
        assert(top@ == pending.last());
        assert(labeled_view(stack@) =~= pending.drop_last());
        let current = resolve_labeled_term(&top, bindings);
        match &current.term {
            Term::Constant(_) => {},
            Term::Variable(found) => {
                if current.label == label && found.name == variable.name {
                    return false;
                }
            },
            Term::BoundFunction(bound) => {
                let ghost rest = labeled_view(stack@);
                let ghost arguments = terms_view(bound.terms@);
                let mut j: usize = 0;
                while j < bound.terms.len()
                    invariant
                        j <= bound.terms.len(),
                        arguments == terms_view(bound.terms@),
                        labeled_view(stack@) == rest + labeled_all(current.label, arguments).take(
                            j as int,
                        ),
                    decreases bound.terms.len() - j,
                {
                    assert(arguments[j as int] == bound.terms[j as int]@);
                    let ghost so_far = labeled_view(stack@);
                    let ghost all = labeled_all(current.label, arguments);
                    stack.push(LabeledTerm { label: current.label, term: bound.terms[j].clone() });
                    j += 1;
                    assert(labeled_view(stack@) =~= so_far.push(all[j - 1]));
                    assert(all.take(j as int) =~= all.take(j - 1).push(all[j - 1]));
                    assert(labeled_view(stack@) =~= rest + all.take(j as int));
                }
                assert(labeled_all(current.label, arguments).take(j as int) =~= labeled_all(
                    current.label,
                    arguments,
                ));
            },
        }
    }
    true
}

/// Whether two constants are the same symbol.
fn same_constant(a: &Constant, b: &Constant) -> (same: bool)
    ensures
        same == (a@ == b@),
{
    let same_embedding = match (a.embedding(), b.embedding()) {
        (None, None) => true,
        (Some(x), Some(y)) => x == y,
        _ => false,
    };
    *a.symbol() == *b.symbol() && same_embedding && a.similarity_key() == b.similarity_key()
}

/// Unifies one pair of argument terms under the bindings made so far, and
/// adds the bindings that this takes.  Gives the similarity after the pair,
/// or nothing if the pair does not unify.
fn unify_term_pair<F: Fn(&String, Option<u64>, &String, Option<u64>) -> u64>(
    source_term: &Term,
    target_term: &Term,
    bindings: &mut Vec<Binding>,
    similarity: u64,
    ctx: &mut LocalProofContext,
    shared: &mut SharedProofContext<F>,
) -> (res: Option<u64>)
    requires
        old(shared).comparator_ok(),
    ensures
        ({
            let start = UnifierState {
                bindings: bindings_view(old(bindings)@),
                similarity,
                memo: old(ctx).memo(old(shared)),
                comparisons: old(ctx).stats.similarity_comparisons,
            };
            let pair = (
                LabeledModel { label: BindingLabel::Source, term: source_term@ },
                LabeledModel { label: BindingLabel::Target, term: target_term@ },
            );
            let (unified, end) = unify_pending(
                old(shared).raw(),
                old(shared).min_similarity_threshold,
                start,
                seq![pair],
                STEP_LIMIT as nat,
            );
            &&& res is Some == unified
            &&& unified ==> res == Some(end.similarity)
            &&& bindings_view(final(bindings)@) == end.bindings
            &&& final(ctx).memo(final(shared)) == end.memo
            &&& final(ctx).stats == (FrozenProofStats {
                similarity_comparisons: end.comparisons,
                ..old(ctx).stats
            })
        }),
        old(shared).same_search_state(final(shared)),
{
    let mut stack: Vec<(LabeledTerm, LabeledTerm)> = Vec::new();
    stack.push(
        (
            LabeledTerm::new(BindingLabel::Source, source_term.clone()),
            LabeledTerm::new(BindingLabel::Target, target_term.clone()),
        ),
    );
    let mut cur_similarity = similarity;
    let mut budget: usize = STEP_LIMIT;
    let ghost raw = shared.raw();
    let ghost threshold = shared.min_similarity_threshold;
    let ghost goal = unify_pending(
        raw,
        threshold,
        UnifierState {
            bindings: bindings_view(bindings@),
            similarity,
            memo: ctx.memo(shared),
            comparisons: ctx.stats.similarity_comparisons,
        },
        seq![
            (
                LabeledModel { label: BindingLabel::Source, term: source_term@ },
                LabeledModel { label: BindingLabel::Target, term: target_term@ },
            ),
        ],
        STEP_LIMIT as nat,
    );
    assert(pairs_view(stack@) =~= seq![
        (
            LabeledModel { label: BindingLabel::Source, term: source_term@ },
            LabeledModel { label: BindingLabel::Target, term: target_term@ },
        ),
    ]);
    while stack.len() > 0
        invariant
            shared.comparator_ok(),
            raw == shared.raw(),
            raw == old(shared).raw(),
            threshold == shared.min_similarity_threshold,
            old(shared).same_search_state(shared),
            ctx.stats == (FrozenProofStats {
                similarity_comparisons: ctx.stats.similarity_comparisons,
                ..old(ctx).stats
            }),
            goal == unify_pending(
                old(shared).raw(),
                old(shared).min_similarity_threshold,
                UnifierState {
                    bindings: bindings_view(old(bindings)@),
                    similarity,
                    memo: old(ctx).memo(old(shared)),
                    comparisons: old(ctx).stats.similarity_comparisons,
                },
                seq![
                    (
                        LabeledModel { label: BindingLabel::Source, term: source_term@ },
                        LabeledModel { label: BindingLabel::Target, term: target_term@ },
                    ),
                ],
                STEP_LIMIT as nat,
            ),
            goal == unify_pending(
                raw,
                threshold,
                UnifierState {
                    bindings: bindings_view(bindings@),
                    similarity: cur_similarity,
                    memo: ctx.memo(shared),
                    comparisons: ctx.stats.similarity_comparisons,
                },
                pairs_view(stack@),
                budget as nat,
            ),
        decreases budget,
    {
        if budget == 0 {
            return None;
        }
        let ghost pending = pairs_view(stack@);
        budget -= 1;
        let (source_top, target_top) = stack.pop().unwrap();
        assert((source_top@, target_top@) == pending.last());
        assert(pairs_view(stack@) =~= pending.drop_last());
        let source = resolve_labeled_term(&source_top, bindings).clone();
        let target = resolve_labeled_term(&target_top, bindings).clone();
        match (&source.term, &target.term) {
            (Term::Constant(a), Term::Constant(b)) => {
                if !same_constant(a, b) {
                    let score = ctx.calc_similarity(shared, a, b);
                    cur_similarity = min_similarity(cur_similarity, score);
                    ctx.stats.similarity_comparisons = ctx.stats.similarity_comparisons.wrapping_add(
                        1,
                    );
                    if cur_similarity <= shared.min_similarity_threshold {
                        return None;
                    }
                }
            },
            (Term::Variable(x), Term::Variable(y)) => {
                if !(source.label == target.label && x.name == y.name) {
                    add_binding(bindings, target.label, y.clone(), source.clone());
                }
            },
            (Term::Variable(x), _) => {
                if check_var_occurrence(source.label, x, &target, bindings) {
                    add_binding(bindings, source.label, x.clone(), target.clone());
                } else {
                    return None;
                }
            },
            (_, Term::Variable(y)) => {
                if check_var_occurrence(target.label, y, &source, bindings) {
                    add_binding(bindings, target.label, y.clone(), source.clone());
                } else {
                    return None;
                }
            },
            (Term::BoundFunction(f), Term::BoundFunction(g)) => {
                if !(f.function.symbol == g.function.symbol) {
                    return None;
                }
                if f.terms.len() != g.terms.len() {
                    return None;
                }
                let ghost rest = pairs_view(stack@);
                let ghost xs = terms_view(f.terms@);
                let ghost ys = terms_view(g.terms@);
                let mut j: usize = 0;
                while j < f.terms.len()
                    invariant
                        j <= f.terms.len(),
                        f.terms.len() == g.terms.len(),
                        xs == terms_view(f.terms@),
                        ys == terms_view(g.terms@),
                        pairs_view(stack@) == rest + argument_pairs(
                            source.label,
                            xs,
                            target.label,
                            ys,
                        ).take(j as int),
                    decreases f.terms.len() - j,
                {
                    assert(xs[j as int] == f.terms[j as int]@);
                    assert(ys[j as int] == g.terms[j as int]@);
                    let ghost so_far = pairs_view(stack@);
                    let ghost all = argument_pairs(source.label, xs, target.label, ys);
                    stack.push(
                        (
                            LabeledTerm::new(source.label, f.terms[j].clone()),
                            LabeledTerm::new(target.label, g.terms[j].clone()),
                        ),
                    );
                    j += 1;
                    assert(pairs_view(stack@) =~= so_far.push(all[j - 1]));
                    assert(all.take(j as int) =~= all.take(j - 1).push(all[j - 1]));
                    assert(pairs_view(stack@) =~= rest + all.take(j as int));
                }
                assert(argument_pairs(source.label, xs, target.label, ys).take(j as int)
                    =~= argument_pairs(source.label, xs, target.label, ys));
            },
            _ => {
                return None;
            },
        }
    }
    Some(cur_similarity)
}

/// Whether one of the first `n` bindings binds the variable `name` of the
/// atom `label`.
pub open spec fn bound_before(
    bindings: Seq<BindingModel>,
    label: BindingLabel,
    name: Seq<char>,
    n: int,
) -> bool {
    exists|k: int| 0 <= k < n && #[trigger] bindings[k].label == label && bindings[k].name == name
}

/// A variable is bound exactly when some binding binds it.
pub proof fn lemma_is_bound(
    bindings: Seq<BindingModel>,
    label: BindingLabel,
    name: Seq<char>,
    from: int,
)
    requires
        0 <= from <= bindings.len(),
    ensures
        from <= binding_index(bindings, label, name, from) <= bindings.len(),
        binding_index(bindings, label, name, from) < bindings.len() <==> exists|k: int|
            from <= k < bindings.len() && #[trigger] bindings[k].label == label && bindings[k].name
                == name,
        binding_index(bindings, label, name, from) < bindings.len() ==> bindings[binding_index(
            bindings,
            label,
            name,
            from,
        )].label == label && bindings[binding_index(bindings, label, name, from)].name == name,
    decreases bindings.len() - from,
{
    if from < bindings.len() {
        if bindings[from].label == label && bindings[from].name == name {
        } else {
            lemma_is_bound(bindings, label, name, from + 1);
        }
    }
}

/// One more binding adds its variable to those bound before, if it belongs
/// to the atom asked for.
pub proof fn lemma_bound_before_step(bindings: Seq<BindingModel>, label: BindingLabel, n: int)
    requires
        0 <= n < bindings.len(),
    ensures
        forall|name: Seq<char>|
            bound_before(bindings, label, name, n + 1) <==> (bound_before(bindings, label, name, n)
                || (bindings[n].label == label && bindings[n].name == name)),
{
    assert forall|name: Seq<char>|
        bound_before(bindings, label, name, n + 1) <==> (bound_before(bindings, label, name, n) || (
        bindings[n].label == label && bindings[n].name == name)) by {
        if bound_before(bindings, label, name, n + 1) {
            let k = choose|k: int|
                0 <= k < n + 1 && #[trigger] bindings[k].label == label && bindings[k].name == name;
            if k < n {
                assert(0 <= k < n && bindings[k].label == label && bindings[k].name == name);
            }
        }
        if bound_before(bindings, label, name, n) {
            let k = choose|k: int|
                0 <= k < n && #[trigger] bindings[k].label == label && bindings[k].name == name;
            assert(0 <= k < n + 1 && bindings[k].label == label && bindings[k].name == name);
        }
        if bindings[n].label == label && bindings[n].name == name {
            assert(0 <= n < n + 1 && bindings[n].label == label && bindings[n].name == name);
        }
    }
}

/// The substitution that the first `n` bindings make for one of the atoms.
pub open spec fn substitutions_upto(bindings: Seq<BindingModel>, label: BindingLabel, n: int) -> Map<
    Seq<char>,
    TermModel,
> {
    Map::new(
        |name: Seq<char>| bound_before(bindings, label, name, n),
        |name: Seq<char>|
            resolved(bindings, LabeledModel { label, term: TermModel::Variable(name) }).term,
    )
}

/// Unifies the arguments of two atoms, pair by pair, and turns the bindings
/// into a substitution for each atom.
fn unify_terms<F: Fn(&String, Option<u64>, &String, Option<u64>) -> u64>(
    source_terms: &Vec<Term>,
    target_terms: &Vec<Term>,
    similarity: u64,
    ctx: &mut LocalProofContext,
    shared: &mut SharedProofContext<F>,
) -> (res: Option<Unification>)
    requires
        old(shared).comparator_ok(),
        source_terms.len() == target_terms.len(),
    ensures
        ({
            let start = UnifierState {
                bindings: Seq::<BindingModel>::empty(),
                similarity,
                memo: old(ctx).memo(old(shared)),
                comparisons: old(ctx).stats.similarity_comparisons,
            };
            let (unified, end) = unify_arguments(
                old(shared).raw(),
                old(shared).min_similarity_threshold,
                start,
                terms_view(source_terms@),
                terms_view(target_terms@),
                0,
            );
            &&& res is Some == unified
            &&& res matches Some(unification) ==> unification@ == (UnificationModel {
                source_substitutions: substitutions_for(end.bindings, BindingLabel::Source),
                target_substitutions: substitutions_for(end.bindings, BindingLabel::Target),
                similarity: end.similarity,
            })
            &&& final(ctx).memo(final(shared)) == end.memo
            &&& final(ctx).stats == (FrozenProofStats {
                similarity_comparisons: end.comparisons,
                ..old(ctx).stats
            })
        }),
        old(shared).same_search_state(final(shared)),
{
    let mut cur_similarity = similarity;
    let mut bindings: Vec<Binding> = Vec::new();
    let ghost raw = shared.raw();
    let ghost threshold = shared.min_similarity_threshold;
    let ghost sources = terms_view(source_terms@);
    let ghost targets = terms_view(target_terms@);
    let ghost goal = unify_arguments(
        raw,
        threshold,
        UnifierState {
            bindings: Seq::<BindingModel>::empty(),
            similarity,
            memo: ctx.memo(shared),
            comparisons: ctx.stats.similarity_comparisons,
        },
        sources,
        targets,
        0,
    );
    assert(bindings_view(bindings@) =~= Seq::<BindingModel>::empty());
    let mut i: usize = 0;
    while i < source_terms.len()
        invariant
            i <= source_terms.len(),
            source_terms.len() == target_terms.len(),
            sources == terms_view(source_terms@),
            targets == terms_view(target_terms@),
            shared.comparator_ok(),
            raw == shared.raw(),
            threshold == shared.min_similarity_threshold,
            old(shared).same_search_state(shared),
            ctx.stats == (FrozenProofStats {
                similarity_comparisons: ctx.stats.similarity_comparisons,
                ..old(ctx).stats
            }),
            goal == unify_arguments(
                old(shared).raw(),
                old(shared).min_similarity_threshold,
                UnifierState {
                    bindings: Seq::<BindingModel>::empty(),
                    similarity,
                    memo: old(ctx).memo(old(shared)),
                    comparisons: old(ctx).stats.similarity_comparisons,
                },
                sources,
                targets,
                0,
            ),
            goal == unify_arguments(
                raw,
                threshold,
                UnifierState {
                    bindings: bindings_view(bindings@),
                    similarity: cur_similarity,
                    memo: ctx.memo(shared),
                    comparisons: ctx.stats.similarity_comparisons,
                },
                sources,
                targets,
                i as int,
            ),
        decreases source_terms.len() - i,
    {
        assert(sources[i as int] == source_terms[i as int]@);
        assert(targets[i as int] == target_terms[i as int]@);
        let new_similarity = unify_term_pair(
            &source_terms[i],
            &target_terms[i],
            &mut bindings,
            cur_similarity,
            ctx,
            shared,
        );
        match new_similarity {
            Some(next) => {
                cur_similarity = next;
            },
            None => {
                return None;
            },
        }
        i += 1;
    }
    let ghost end = bindings_view(bindings@);
    let mut source_substitutions = SubstitutionsMap::new();
    let mut target_substitutions = SubstitutionsMap::new();
    let mut k: usize = 0;
    assert(source_substitutions@ =~= substitutions_upto(end, BindingLabel::Source, 0));
    assert(target_substitutions@ =~= substitutions_upto(end, BindingLabel::Target, 0));
    while k < bindings.len()
        invariant
            k <= bindings.len(),
            end == bindings_view(bindings@),
            source_substitutions@ == substitutions_upto(end, BindingLabel::Source, k as int),
            target_substitutions@ == substitutions_upto(end, BindingLabel::Target, k as int),
        decreases bindings.len() - k,
    {
        let key = LabeledTerm::new(bindings[k].label, Term::Variable(bindings[k].variable.clone()));
        let resolved_term = resolve_labeled_term(&key, &bindings).term.clone();
        assert(end[k as int] == bindings[k as int]@);
        proof {
            lemma_bound_before_step(end, BindingLabel::Source, k as int);
            lemma_bound_before_step(end, BindingLabel::Target, k as int);
        }
        match bindings[k].label {
            BindingLabel::Source => {
                source_substitutions.insert(bindings[k].variable.clone(), resolved_term);
                assert(source_substitutions@ =~= substitutions_upto(
                    end,
                    BindingLabel::Source,
                    k as int + 1,
                ));
                assert(target_substitutions@ =~= substitutions_upto(
                    end,
                    BindingLabel::Target,
                    k as int + 1,
                ));
            },
            BindingLabel::Target => {
                target_substitutions.insert(bindings[k].variable.clone(), resolved_term);
                assert(source_substitutions@ =~= substitutions_upto(
                    end,
                    BindingLabel::Source,
                    k as int + 1,
                ));
                assert(target_substitutions@ =~= substitutions_upto(
                    end,
                    BindingLabel::Target,
                    k as int + 1,
                ));
            },
        }
        k += 1;
    }
    proof {
        assert forall|name: Seq<char>|
            bound_before(end, BindingLabel::Source, name, end.len() as int) <==> is_bound(
                end,
                BindingLabel::Source,
                name,
            ) by {
            lemma_is_bound(end, BindingLabel::Source, name, 0);
        }
        assert forall|name: Seq<char>|
            bound_before(end, BindingLabel::Target, name, end.len() as int) <==> is_bound(
                end,
                BindingLabel::Target,
                name,
            ) by {
            lemma_is_bound(end, BindingLabel::Target, name, 0);
        }
        assert(source_substitutions@ =~= substitutions_for(end, BindingLabel::Source));
        assert(target_substitutions@ =~= substitutions_for(end, BindingLabel::Target));
    }
    Some(Unification { source_substitutions, target_substitutions, similarity: cur_similarity })
}

/// Unifies two atoms.  See `unify_spec` for what comes out; the cached
/// scores and the count of similarity lookups change as it says, and nothing
/// else of the search's state changes.
pub fn unify<F: Fn(&String, Option<u64>, &String, Option<u64>) -> u64>(
    source: &Atom,
    target: &Atom,
    ctx: &mut LocalProofContext,
    shared: &mut SharedProofContext<F>,
) -> (res: Option<Unification>)
    requires
        old(shared).comparator_ok(),
    ensures
        ({
            let outcome = unify_spec(
                old(shared).raw(),
                old(shared).min_similarity_threshold,
                source@,
                target@,
                old(ctx).memo(old(shared)),
                old(ctx).stats.similarity_comparisons,
            );
            &&& res is Some == outcome.unification is Some
            &&& res matches Some(unification) ==> outcome.unification == Some(unification@)
            &&& final(ctx).memo(final(shared)) == outcome.memo
            &&& final(ctx).stats == (FrozenProofStats {
                similarity_comparisons: outcome.comparisons,
                ..old(ctx).stats
            })
        }),
        old(shared).same_search_state(final(shared)),
{
    if source.terms.len() != target.terms.len() {
        return None;
    }
    let similarity = ctx.calc_similarity(shared, &source.predicate, &target.predicate);
    ctx.stats.similarity_comparisons = ctx.stats.similarity_comparisons.wrapping_add(1);
    if similarity <= shared.min_similarity_threshold {
        return None;
    }
    unify_terms(&source.terms, &target.terms, similarity, ctx, shared)
}

} // verus!
