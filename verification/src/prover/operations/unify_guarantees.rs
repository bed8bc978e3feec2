//! What the unifier guarantees, proved of its model.

use crate::prover::operations::resolve::lemma_untouched_term;
use crate::prover::operations::resolve::substitute_term;
use crate::prover::operations::resolve::substitute_terms;
use crate::prover::operations::unify::argument_pairs;
use crate::prover::operations::unify::substitutions_for;
use crate::prover::operations::unify::bind;
use crate::prover::operations::unify::binding_index;
use crate::prover::operations::unify::free_of;
use crate::prover::operations::unify::is_bound;
use crate::prover::operations::unify::labeled_all;
use crate::prover::operations::unify::lookup;
use crate::prover::operations::unify::resolve;
use crate::prover::operations::unify::resolved;
use crate::prover::operations::unify::unify_arguments;
use crate::prover::operations::unify::unify_pending;
use crate::prover::operations::unify::unify_spec;
use crate::prover::operations::unify::BindingLabel;
use crate::prover::operations::unify::BindingModel;
use crate::prover::operations::unify::LabeledModel;
use crate::prover::operations::unify::UnifierState;
use crate::prover::operations::unify::STEP_LIMIT;
use crate::prover::proof_context::memo_lookup;
use crate::prover::proof_context::MemoModel;
use crate::prover::similarity::pair_key;
use crate::types::AtomModel;
use crate::types::SymbolModel;
use crate::types::TermModel;
use crate::util::find_variables_in_terms::lemma_terms_variables_hold;
use crate::util::find_variables_in_terms::term_variables;
use vstd::prelude::*;

verus! {

/// Atoms with different numbers of arguments do not unify, and the attempt
/// looks nothing up.
pub proof fn lemma_predicate_arity_mismatch(
    raw: spec_fn(SymbolModel, SymbolModel) -> u64,
    threshold: u64,
    source: AtomModel,
    target: AtomModel,
    memo: MemoModel,
    comparisons: usize,
)
    requires
        source.terms.len() != target.terms.len(),
    ensures
        unify_spec(raw, threshold, source, target, memo, comparisons).unification is None,
        unify_spec(raw, threshold, source, target, memo, comparisons).memo == memo,
        unify_spec(raw, threshold, source, target, memo, comparisons).comparisons == comparisons,
{
}

/// Function terms that differ in symbol or in the number of arguments do
/// not unify: the work fails as soon as it comes to such a pair.
pub proof fn lemma_function_mismatch(
    raw: spec_fn(SymbolModel, SymbolModel) -> u64,
    threshold: u64,
    state: UnifierState,
    pending: Seq<(LabeledModel, LabeledModel)>,
    budget: nat,
)
    requires
        pending.len() > 0,
        resolved(state.bindings, pending.last().0).term matches TermModel::BoundFunction(f, xs)
            && resolved(state.bindings, pending.last().1).term matches TermModel::BoundFunction(
            g,
            ys,
        ) && (f != g || xs.len() != ys.len()),
    ensures
        !unify_pending(raw, threshold, state, pending, budget).0,
{
}

/// Predicates whose similarity is not above the floor do not unify, and
/// their arguments are not looked at: the one lookup of the predicates is
/// all that the attempt does.
pub proof fn lemma_dissimilar_predicates(
    raw: spec_fn(SymbolModel, SymbolModel) -> u64,
    threshold: u64,
    source: AtomModel,
    target: AtomModel,
    memo: MemoModel,
    comparisons: usize,
)
    requires
        source.terms.len() == target.terms.len(),
        memo_lookup(
            memo,
            pair_key(source.predicate, target.predicate),
            raw(source.predicate, target.predicate),
        ).0 <= threshold,
    ensures
        unify_spec(raw, threshold, source, target, memo, comparisons).unification is None,
        unify_spec(raw, threshold, source, target, memo, comparisons).memo == memo_lookup(
            memo,
            pair_key(source.predicate, target.predicate),
            raw(source.predicate, target.predicate),
        ).1,
        unify_spec(raw, threshold, source, target, memo, comparisons).comparisons
            == comparisons.wrapping_add(1),
{
}

/// A term is a constant or a variable.
pub open spec fn is_simple(term: TermModel) -> bool {
    term is Constant || term is Variable
}

/// A walk through pending terms that stand for constants and variables
/// meets a variable that one of them stands for.
proof fn lemma_walk_meets_variable(
    bindings: Seq<BindingModel>,
    label: BindingLabel,
    name: Seq<char>,
    pending: Seq<LabeledModel>,
    budget: nat,
    at: int,
)
    requires
        0 <= at < pending.len(),
        budget >= pending.len(),
        forall|i: int| at <= i < pending.len() ==> is_simple(#[trigger] resolved(bindings, pending[i]).term),
        resolved(bindings, pending[at]) == (LabeledModel { label, term: TermModel::Variable(name) }),
    ensures
        !free_of(bindings, label, name, pending, budget),
    decreases pending.len(),
{
    let last = pending.len() - 1;
    if at < last {
        let rest = pending.drop_last();
        assert(is_simple(resolved(bindings, pending[last]).term));
        assert forall|i: int| at <= i < rest.len() implies is_simple(
            #[trigger] resolved(bindings, rest[i]).term,
        ) by {
            assert(rest[i] == pending[i]);
        }
        assert(rest[at] == pending[at]);
        lemma_walk_meets_variable(bindings, label, name, rest, (budget - 1) as nat, at);
    }
}

/// The occurs check: a variable is not bound to a function term that has
/// the variable among its arguments.  Here the arguments of the function
/// term stand for constants and variables, and one of them stands for the
/// variable itself.
pub proof fn lemma_occurs_check(
    bindings: Seq<BindingModel>,
    label: BindingLabel,
    name: Seq<char>,
    term: LabeledModel,
    position: int,
)
    requires
        resolved(bindings, term).term is BoundFunction,
        ({
            let holder = resolved(bindings, term);
            let arguments = holder.term->BoundFunction_1;
            &&& arguments.len() < STEP_LIMIT
            &&& 0 <= position < arguments.len()
            &&& forall|i: int|
                0 <= i < arguments.len() ==> is_simple(
                    #[trigger] resolved(
                        bindings,
                        LabeledModel { label: holder.label, term: arguments[i] },
                    ).term,
                )
            &&& resolved(bindings, LabeledModel { label: holder.label, term: arguments[position] })
                == (LabeledModel { label, term: TermModel::Variable(name) })
        }),
    ensures
        !free_of(bindings, label, name, seq![term], STEP_LIMIT as nat),
{
    let holder = resolved(bindings, term);
    let arguments = holder.term->BoundFunction_1;
    let pending = seq![term];
    let next = pending.drop_last() + labeled_all(holder.label, arguments);
    assert(pending.last() == term);
    assert(next =~= labeled_all(holder.label, arguments));
    assert forall|i: int| 0 <= i < next.len() implies is_simple(
        #[trigger] resolved(bindings, next[i]).term,
    ) by {
        assert(next[i] == LabeledModel { label: holder.label, term: arguments[i] });
    }
    assert(next[position] == LabeledModel { label: holder.label, term: arguments[position] });
    lemma_walk_meets_variable(
        bindings,
        label,
        name,
        next,
        (STEP_LIMIT - 1) as nat,
        position,
    );
}

/// A pair of a variable and a function term that holds the variable does
/// not unify.
pub proof fn lemma_occurs_check_fails_unification(
    raw: spec_fn(SymbolModel, SymbolModel) -> u64,
    threshold: u64,
    state: UnifierState,
    pending: Seq<(LabeledModel, LabeledModel)>,
    budget: nat,
    position: int,
)
    requires
        pending.len() > 0,
        resolved(state.bindings, pending.last().0).term is Variable,
        resolved(state.bindings, pending.last().1).term is BoundFunction,
        ({
            let variable = resolved(state.bindings, pending.last().0);
            let holder = resolved(state.bindings, pending.last().1);
            let arguments = holder.term->BoundFunction_1;
            &&& arguments.len() < STEP_LIMIT
            &&& 0 <= position < arguments.len()
            &&& forall|i: int|
                0 <= i < arguments.len() ==> is_simple(
                    #[trigger] resolved(
                        state.bindings,
                        LabeledModel { label: holder.label, term: arguments[i] },
                    ).term,
                )
            &&& resolved(
                state.bindings,
                LabeledModel { label: holder.label, term: arguments[position] },
            ) == variable
        }),
    ensures
        !unify_pending(raw, threshold, state, pending, budget).0,
{
    let variable = resolved(state.bindings, pending.last().0);
    let holder = resolved(state.bindings, pending.last().1);
    lemma_resolved_twice(state.bindings, pending.last().1);
    lemma_occurs_check(
        state.bindings,
        variable.label,
        variable.term->Variable_0,
        holder,
        position,
    );
}

/// Resolving a term that is no variable gives the term.
pub proof fn lemma_resolved_twice(bindings: Seq<BindingModel>, term: LabeledModel)
    requires
        !(resolved(bindings, term).term is Variable),
    ensures
        resolved(bindings, resolved(bindings, term)) == resolved(bindings, term),
{
    let once = resolved(bindings, term);
    if bindings.len() > 0 {
        assert(resolve(bindings, once, bindings.len()) == once);
    }
}

proof fn lemma_pending_similarity(
    raw: spec_fn(SymbolModel, SymbolModel) -> u64,
    threshold: u64,
    state: UnifierState,
    pending: Seq<(LabeledModel, LabeledModel)>,
    budget: nat,
)
    requires
        state.similarity > threshold,
    ensures
        unify_pending(raw, threshold, state, pending, budget).0 ==> threshold < unify_pending(
            raw,
            threshold,
            state,
            pending,
            budget,
        ).1.similarity <= state.similarity,
    decreases budget,
{
    if pending.len() > 0 && budget > 0 {
        let source = resolved(state.bindings, pending.last().0);
        let target = resolved(state.bindings, pending.last().1);
        let rest = pending.drop_last();
        let left = (budget - 1) as nat;
        match (source.term, target.term) {
            (TermModel::Constant(a), TermModel::Constant(b)) => {
                if a == b {
                    lemma_pending_similarity(raw, threshold, state, rest, left);
                } else {
                    let (score, memo) = memo_lookup(state.memo, pair_key(a, b), raw(a, b));
                    let next = UnifierState {
                        bindings: state.bindings,
                        similarity: crate::prover::similarity::lower(state.similarity, score),
                        memo,
                        comparisons: state.comparisons.wrapping_add(1),
                    };
                    if next.similarity > threshold {
                        lemma_pending_similarity(raw, threshold, next, rest, left);
                    }
                }
            },
            (TermModel::Variable(x), TermModel::Variable(y)) => {
                if source == target {
                    lemma_pending_similarity(raw, threshold, state, rest, left);
                } else {
                    let next = UnifierState {
                        bindings: bind(state.bindings, target.label, y, source),
                        ..state
                    };
                    lemma_pending_similarity(raw, threshold, next, rest, left);
                }
            },
            (TermModel::Variable(x), _) => {
                let next = UnifierState {
                    bindings: bind(state.bindings, source.label, x, target),
                    ..state
                };
                lemma_pending_similarity(raw, threshold, next, rest, left);
            },
            (_, TermModel::Variable(y)) => {
                let next = UnifierState {
                    bindings: bind(state.bindings, target.label, y, source),
                    ..state
                };
                lemma_pending_similarity(raw, threshold, next, rest, left);
            },
            (TermModel::BoundFunction(f, xs), TermModel::BoundFunction(g, ys)) => {
                lemma_pending_similarity(
                    raw,
                    threshold,
                    state,
                    rest + argument_pairs(source.label, xs, target.label, ys),
                    left,
                );
            },
            _ => {},
        }
    }
}

proof fn lemma_arguments_similarity(
    raw: spec_fn(SymbolModel, SymbolModel) -> u64,
    threshold: u64,
    state: UnifierState,
    sources: Seq<TermModel>,
    targets: Seq<TermModel>,
    from: int,
)
    requires
        state.similarity > threshold,
    ensures
        unify_arguments(raw, threshold, state, sources, targets, from).0 ==> threshold
            < unify_arguments(raw, threshold, state, sources, targets, from).1.similarity
            <= state.similarity,
    decreases sources.len() - from,
{
    if 0 <= from && from < sources.len() && from < targets.len() {
        let pair = (
            LabeledModel { label: BindingLabel::Source, term: sources[from] },
            LabeledModel { label: BindingLabel::Target, term: targets[from] },
        );
        lemma_pending_similarity(raw, threshold, state, seq![pair], STEP_LIMIT as nat);
        let (unified, next) = unify_pending(raw, threshold, state, seq![pair], STEP_LIMIT as nat);
        if unified {
            lemma_arguments_similarity(raw, threshold, next, sources, targets, from + 1);
        }
    }
}

/// The similarity of a unification is above the floor, and it is no higher
/// than the similarity that was looked up for the two predicates.
pub proof fn lemma_similarity_above_floor(
    raw: spec_fn(SymbolModel, SymbolModel) -> u64,
    threshold: u64,
    source: AtomModel,
    target: AtomModel,
    memo: MemoModel,
    comparisons: usize,
)
    requires
        unify_spec(raw, threshold, source, target, memo, comparisons).unification is Some,
    ensures
        threshold < unify_spec(
            raw,
            threshold,
            source,
            target,
            memo,
            comparisons,
        ).unification->0.similarity <= memo_lookup(
            memo,
            pair_key(source.predicate, target.predicate),
            raw(source.predicate, target.predicate),
        ).0,
{
    let (score, memo1) = memo_lookup(
        memo,
        pair_key(source.predicate, target.predicate),
        raw(source.predicate, target.predicate),
    );
    let start = UnifierState {
        bindings: Seq::<BindingModel>::empty(),
        similarity: score,
        memo: memo1,
        comparisons: comparisons.wrapping_add(1),
    };
    lemma_arguments_similarity(raw, threshold, start, source.terms, target.terms, 0);
}

// ---------------------------------------------------------------------------
// Chains of bindings.
// ---------------------------------------------------------------------------

/// Two terms agree: they are built alike, with the same variables and the
/// same function symbols in the same places, and where one has a constant
/// the other has a constant too, which the comparator has then found
/// similar enough.
pub open spec fn agree(a: TermModel, b: TermModel) -> bool
    decreases a,
{
    match a {
        TermModel::Constant(_) => b is Constant,
        TermModel::Variable(_) => b == a,
        TermModel::BoundFunction(f, xs) => match b {
            TermModel::BoundFunction(g, ys) => f == g && xs.len() == ys.len() && forall|i: int|
                0 <= i < xs.len() ==> agree(#[trigger] xs[i], ys[i]),
            _ => false,
        },
    }
}

/// A term agrees with itself.
pub proof fn lemma_agree_with_itself(term: TermModel)
    ensures
        agree(term, term),
    decreases term,
{
    match term {
        TermModel::BoundFunction(_, xs) => {
            assert forall|i: int| 0 <= i < xs.len() implies agree(#[trigger] xs[i], xs[i]) by {
                lemma_agree_with_itself(xs[i]);
            }
        },
        _ => {},
    }
}

/// `term` is at the end of its chain: it is no variable that is bound.
spec fn at_rest(bindings: Seq<BindingModel>, term: LabeledModel) -> bool {
    match term.term {
        TermModel::Variable(name) => !is_bound(bindings, term.label, name),
        _ => true,
    }
}

/// Resolving `term` comes to the end of its chain.
spec fn settles(bindings: Seq<BindingModel>, term: LabeledModel) -> bool {
    at_rest(bindings, resolved(bindings, term))
}

/// Every chain comes to an end.
spec fn all_settle(bindings: Seq<BindingModel>) -> bool {
    forall|term: LabeledModel| #[trigger] settles(bindings, term)
}

/// `term`, or what the newly bound variable stands for if `term` is that
/// variable.
spec fn redirect(
    term: LabeledModel,
    label: BindingLabel,
    name: Seq<char>,
    bound: LabeledModel,
) -> LabeledModel {
    if term == (LabeledModel { label, term: TermModel::Variable(name) }) {
        bound
    } else {
        term
    }
}

proof fn lemma_index_after_push(
    bindings: Seq<BindingModel>,
    binding: BindingModel,
    label: BindingLabel,
    name: Seq<char>,
    from: int,
)
    requires
        0 <= from <= bindings.len(),
    ensures
        binding_index(bindings.push(binding), label, name, from) == (if binding_index(
            bindings,
            label,
            name,
            from,
        ) < bindings.len() {
            binding_index(bindings, label, name, from)
        } else if binding.label == label && binding.name == name {
            bindings.len() as int
        } else {
            bindings.len() as int + 1
        }),
    decreases bindings.len() - from,
{
    let longer = bindings.push(binding);
    if from < bindings.len() {
        assert(longer[from] == bindings[from]);
        if !(bindings[from].label == label && bindings[from].name == name) {
            lemma_index_after_push(bindings, binding, label, name, from + 1);
        }
    } else {
        assert(longer[from] == binding);
        assert(binding_index(longer, label, name, from + 1) == longer.len());
    }
}

proof fn lemma_lookup_after_push(
    bindings: Seq<BindingModel>,
    binding: BindingModel,
    label: BindingLabel,
    name: Seq<char>,
)
    ensures
        lookup(bindings.push(binding), label, name) == (if is_bound(bindings, label, name) {
            lookup(bindings, label, name)
        } else if binding.label == label && binding.name == name {
            Some(binding.bound)
        } else {
            None
        }),
{
    lemma_index_after_push(bindings, binding, label, name, 0);
    let longer = bindings.push(binding);
    let at = binding_index(bindings, label, name, 0);
    crate::prover::operations::unify::lemma_is_bound(bindings, label, name, 0);
    if at < bindings.len() {
        assert(longer[at] == bindings[at]);
    } else if binding.label == label && binding.name == name {
        assert(longer[bindings.len() as int] == binding);
    }
}

/// After a variable that was not bound is bound to a term at rest, a chain
/// that ended in that variable ends in the term, and every other chain ends
/// where it did.
proof fn lemma_resolve_after_bind(
    bindings: Seq<BindingModel>,
    label: BindingLabel,
    name: Seq<char>,
    bound: LabeledModel,
    term: LabeledModel,
    links: nat,
)
    requires
        !is_bound(bindings, label, name),
        at_rest(bindings, bound),
        bound != (LabeledModel { label, term: TermModel::Variable(name) }),
        at_rest(bindings, resolve(bindings, term, links)),
    ensures
        resolve(bind(bindings, label, name, bound), term, links + 1) == redirect(
            resolve(bindings, term, links),
            label,
            name,
            bound,
        ),
        at_rest(
            bind(bindings, label, name, bound),
            resolve(bind(bindings, label, name, bound), term, links + 1),
        ),
    decreases links,
{
    let binding = BindingModel { label, name, bound };
    let longer = bind(bindings, label, name, bound);
    assert(longer == bindings.push(binding));
    // the bound term is at rest after the binding too
    match bound.term {
        TermModel::Variable(other) => {
            lemma_lookup_after_push(bindings, binding, bound.label, other);
            lemma_index_after_push(bindings, binding, bound.label, other, 0);
        },
        _ => {},
    }
    match term.term {
        TermModel::Variable(found) => {
            lemma_lookup_after_push(bindings, binding, term.label, found);
            lemma_index_after_push(bindings, binding, term.label, found, 0);
            if is_bound(bindings, term.label, found) {
                let next = lookup(bindings, term.label, found)->0;
                if links > 0 {
                    lemma_resolve_after_bind(bindings, label, name, bound, next, (links - 1) as nat);
                }
            } else if term.label == label && found == name {
                if links > 0 {
                    assert(resolve(longer, bound, links) == bound);
                } else {
                    assert(resolve(longer, bound, 0) == bound);
                }
            } else {
            }
        },
        _ => {},
    }
}

/// A term at rest resolves to itself.
proof fn lemma_resolve_at_rest(bindings: Seq<BindingModel>, term: LabeledModel, links: nat)
    requires
        at_rest(bindings, term),
    ensures
        resolve(bindings, term, links) == term,
{
}

// ---------------------------------------------------------------------------
// Soundness.
// ---------------------------------------------------------------------------

/// Of the two substitutions, the one for the atom `label`.
pub open spec fn side(
    label: BindingLabel,
    for_source: Map<Seq<char>, TermModel>,
    for_target: Map<Seq<char>, TermModel>,
) -> Map<Seq<char>, TermModel> {
    match label {
        BindingLabel::Source => for_source,
        BindingLabel::Target => for_target,
    }
}

/// A labelled term under the substitution for its atom.
pub open spec fn value(
    term: LabeledModel,
    for_source: Map<Seq<char>, TermModel>,
    for_target: Map<Seq<char>, TermModel>,
) -> TermModel {
    substitute_term(term.term, side(term.label, for_source, for_target))
}

/// The two terms of a pair agree under the substitutions for their atoms.
spec fn pair_agrees(
    pair: (LabeledModel, LabeledModel),
    for_source: Map<Seq<char>, TermModel>,
    for_target: Map<Seq<char>, TermModel>,
) -> bool {
    agree(value(pair.0, for_source, for_target), value(pair.1, for_source, for_target))
}

/// The two substitutions solve the bindings: each gives every bound
/// variable of its atom what the term that the variable is bound to becomes
/// under the substitution for the atom that the term comes from.
pub open spec fn solves(
    bindings: Seq<BindingModel>,
    for_source: Map<Seq<char>, TermModel>,
    for_target: Map<Seq<char>, TermModel>,
) -> bool {
    forall|label: BindingLabel, name: Seq<char>| #[trigger]
        is_bound(bindings, label, name) ==> side(label, for_source, for_target).contains_key(name)
            && side(label, for_source, for_target)[name] == value(
            lookup(bindings, label, name)->0,
            for_source,
            for_target,
        )
}

/// Every variable that `before` binds is bound to the same term in `after`.
spec fn extends(before: Seq<BindingModel>, after: Seq<BindingModel>) -> bool {
    forall|label: BindingLabel, name: Seq<char>| #[trigger]
        is_bound(before, label, name) ==> is_bound(after, label, name) && lookup(
            after,
            label,
            name,
        ) == lookup(before, label, name)
}

/// Substitutions that solve bindings solve the bindings that these
/// extend.
proof fn lemma_solves_before(
    before: Seq<BindingModel>,
    after: Seq<BindingModel>,
    for_source: Map<Seq<char>, TermModel>,
    for_target: Map<Seq<char>, TermModel>,
)
    requires
        extends(before, after),
        solves(after, for_source, for_target),
    ensures
        solves(before, for_source, for_target),
{
    assert forall|label: BindingLabel, name: Seq<char>| #[trigger]
        is_bound(before, label, name) implies side(label, for_source, for_target).contains_key(name)
        && side(label, for_source, for_target)[name] == value(
        lookup(before, label, name)->0,
        for_source,
        for_target,
    ) by {
        assert(is_bound(after, label, name));
    }
}

/// Following a chain does not change what a term becomes under
/// substitutions that solve the bindings.
proof fn lemma_resolve_keeps_value(
    bindings: Seq<BindingModel>,
    term: LabeledModel,
    links: nat,
    for_source: Map<Seq<char>, TermModel>,
    for_target: Map<Seq<char>, TermModel>,
)
    requires
        solves(bindings, for_source, for_target),
    ensures
        value(resolve(bindings, term, links), for_source, for_target) == value(
            term,
            for_source,
            for_target,
        ),
    decreases links,
{
    if links > 0 {
        match term.term {
            TermModel::Variable(name) => {
                if is_bound(bindings, term.label, name) {
                    let next = lookup(bindings, term.label, name)->0;
                    lemma_resolve_keeps_value(
                        bindings,
                        next,
                        (links - 1) as nat,
                        for_source,
                        for_target,
                    );
                }
            },
            _ => {},
        }
    }
}

/// A chain that has come to its end stays there.
proof fn lemma_resolve_one_more(bindings: Seq<BindingModel>, term: LabeledModel, links: nat)
    requires
        at_rest(bindings, resolve(bindings, term, links)),
    ensures
        resolve(bindings, term, links + 1) == resolve(bindings, term, links),
    decreases links,
{
    match term.term {
        TermModel::Variable(name) => {
            if is_bound(bindings, term.label, name) && links > 0 {
                let next = lookup(bindings, term.label, name)->0;
                lemma_resolve_one_more(bindings, next, (links - 1) as nat);
            }
        },
        _ => {},
    }
}

/// Binding a variable that was not bound to a term at rest keeps every
/// chain coming to an end, and keeps what was bound before.
proof fn lemma_bind_extends(
    bindings: Seq<BindingModel>,
    label: BindingLabel,
    name: Seq<char>,
    bound: LabeledModel,
)
    requires
        !is_bound(bindings, label, name),
        at_rest(bindings, bound),
        bound != (LabeledModel { label, term: TermModel::Variable(name) }),
        all_settle(bindings),
    ensures
        all_settle(bind(bindings, label, name, bound)),
        extends(bindings, bind(bindings, label, name, bound)),
        is_bound(bind(bindings, label, name, bound), label, name),
        lookup(bind(bindings, label, name, bound), label, name) == Some(bound),
{
    let longer = bind(bindings, label, name, bound);
    let binding = BindingModel { label, name, bound };
    assert(longer == bindings.push(binding));
    assert forall|term: LabeledModel| #[trigger] settles(longer, term) by {
        assert(settles(bindings, term));
        lemma_resolve_after_bind(bindings, label, name, bound, term, bindings.len());
    }
    assert forall|l: BindingLabel, n: Seq<char>| #[trigger]
        is_bound(bindings, l, n) implies is_bound(longer, l, n) && lookup(longer, l, n) == lookup(
        bindings,
        l,
        n,
    ) by {
        lemma_index_after_push(bindings, binding, l, n, 0);
        lemma_lookup_after_push(bindings, binding, l, n);
    }
    lemma_index_after_push(bindings, binding, label, name, 0);
    lemma_lookup_after_push(bindings, binding, label, name);
}

/// Work that succeeds keeps every chain coming to an end, and keeps what
/// was bound before.
proof fn lemma_pending_extends(
    raw: spec_fn(SymbolModel, SymbolModel) -> u64,
    threshold: u64,
    state: UnifierState,
    pending: Seq<(LabeledModel, LabeledModel)>,
    budget: nat,
)
    requires
        all_settle(state.bindings),
        unify_pending(raw, threshold, state, pending, budget).0,
    ensures
        all_settle(unify_pending(raw, threshold, state, pending, budget).1.bindings),
        extends(state.bindings, unify_pending(raw, threshold, state, pending, budget).1.bindings),
    decreases budget,
{
    if pending.len() > 0 {
        let bindings = state.bindings;
        let source = resolved(bindings, pending.last().0);
        let target = resolved(bindings, pending.last().1);
        let rest = pending.drop_last();
        let left = (budget - 1) as nat;
        assert(settles(bindings, pending.last().0));
        assert(settles(bindings, pending.last().1));
        match (source.term, target.term) {
            (TermModel::Constant(a), TermModel::Constant(b)) => {
                if a == b {
                    lemma_pending_extends(raw, threshold, state, rest, left);
                } else {
                    let (score, memo) = memo_lookup(state.memo, pair_key(a, b), raw(a, b));
                    let next = UnifierState {
                        bindings,
                        similarity: crate::prover::similarity::lower(state.similarity, score),
                        memo,
                        comparisons: state.comparisons.wrapping_add(1),
                    };
                    lemma_pending_extends(raw, threshold, next, rest, left);
                }
            },
            (TermModel::Variable(x), TermModel::Variable(y)) => {
                if source == target {
                    lemma_pending_extends(raw, threshold, state, rest, left);
                } else {
                    let next = UnifierState {
                        bindings: bind(bindings, target.label, y, source),
                        ..state
                    };
                    lemma_bind_extends(bindings, target.label, y, source);
                    lemma_pending_extends(raw, threshold, next, rest, left);
                }
            },
            (TermModel::Variable(x), _) => {
                let next = UnifierState { bindings: bind(bindings, source.label, x, target), ..state };
                lemma_bind_extends(bindings, source.label, x, target);
                lemma_pending_extends(raw, threshold, next, rest, left);
            },
            (_, TermModel::Variable(y)) => {
                let next = UnifierState { bindings: bind(bindings, target.label, y, source), ..state };
                lemma_bind_extends(bindings, target.label, y, source);
                lemma_pending_extends(raw, threshold, next, rest, left);
            },
            (TermModel::BoundFunction(f, xs), TermModel::BoundFunction(g, ys)) => {
                lemma_pending_extends(
                    raw,
                    threshold,
                    state,
                    rest + argument_pairs(source.label, xs, target.label, ys),
                    left,
                );
            },
            _ => {},
        }
    }
}

/// Work that succeeds makes the two terms of every pending pair agree,
/// under any substitutions that solve the bindings it ends with.
proof fn lemma_pending_agrees(
    raw: spec_fn(SymbolModel, SymbolModel) -> u64,
    threshold: u64,
    state: UnifierState,
    pending: Seq<(LabeledModel, LabeledModel)>,
    budget: nat,
    for_source: Map<Seq<char>, TermModel>,
    for_target: Map<Seq<char>, TermModel>,
)
    requires
        all_settle(state.bindings),
        unify_pending(raw, threshold, state, pending, budget).0,
        solves(
            unify_pending(raw, threshold, state, pending, budget).1.bindings,
            for_source,
            for_target,
        ),
    ensures
        forall|k: int|
            0 <= k < pending.len() ==> pair_agrees(#[trigger] pending[k], for_source, for_target),
    decreases budget,
{
    if pending.len() > 0 {
        let bindings = state.bindings;
        let end = unify_pending(raw, threshold, state, pending, budget).1.bindings;
        let first = pending.last().0;
        let second = pending.last().1;
        let source = resolved(bindings, first);
        let target = resolved(bindings, second);
        let rest = pending.drop_last();
        let left = (budget - 1) as nat;
        assert(settles(bindings, first));
        assert(settles(bindings, second));
        lemma_pending_extends(raw, threshold, state, pending, budget);
        lemma_solves_before(bindings, end, for_source, for_target);
        lemma_resolve_keeps_value(bindings, first, bindings.len(), for_source, for_target);
        lemma_resolve_keeps_value(bindings, second, bindings.len(), for_source, for_target);
        let left_value = value(source, for_source, for_target);
        let right_value = value(target, for_source, for_target);
        match (source.term, target.term) {
            (TermModel::Constant(a), TermModel::Constant(b)) => {
                if a == b {
                    lemma_pending_agrees(raw, threshold, state, rest, left, for_source, for_target);
                } else {
                    let (score, memo) = memo_lookup(state.memo, pair_key(a, b), raw(a, b));
                    let next = UnifierState {
                        bindings,
                        similarity: crate::prover::similarity::lower(state.similarity, score),
                        memo,
                        comparisons: state.comparisons.wrapping_add(1),
                    };
                    lemma_pending_agrees(raw, threshold, next, rest, left, for_source, for_target);
                }
                assert(agree(left_value, right_value));
            },
            (TermModel::Variable(x), TermModel::Variable(y)) => {
                if source == target {
                    lemma_pending_agrees(raw, threshold, state, rest, left, for_source, for_target);
                } else {
                    let next = UnifierState {
                        bindings: bind(bindings, target.label, y, source),
                        ..state
                    };
                    lemma_bind_extends(bindings, target.label, y, source);
                    lemma_pending_extends(raw, threshold, next, rest, left);
                    lemma_pending_agrees(raw, threshold, next, rest, left, for_source, for_target);
                    assert(is_bound(end, target.label, y));
                    assert(right_value == left_value);
                }
                lemma_agree_with_itself(left_value);
            },
            (TermModel::Variable(x), _) => {
                let next = UnifierState { bindings: bind(bindings, source.label, x, target), ..state };
                lemma_bind_extends(bindings, source.label, x, target);
                lemma_pending_extends(raw, threshold, next, rest, left);
                lemma_pending_agrees(raw, threshold, next, rest, left, for_source, for_target);
                assert(is_bound(end, source.label, x));
                assert(left_value == right_value);
                lemma_agree_with_itself(left_value);
            },
            (_, TermModel::Variable(y)) => {
                let next = UnifierState { bindings: bind(bindings, target.label, y, source), ..state };
                lemma_bind_extends(bindings, target.label, y, source);
                lemma_pending_extends(raw, threshold, next, rest, left);
                lemma_pending_agrees(raw, threshold, next, rest, left, for_source, for_target);
                assert(is_bound(end, target.label, y));
                assert(right_value == left_value);
                lemma_agree_with_itself(left_value);
            },
            (TermModel::BoundFunction(f, xs), TermModel::BoundFunction(g, ys)) => {
                let arguments = argument_pairs(source.label, xs, target.label, ys);
                let more = rest + arguments;
                lemma_pending_agrees(raw, threshold, state, more, left, for_source, for_target);
                let left_arguments = substitute_terms(
                    xs,
                    side(source.label, for_source, for_target),
                );
                let right_arguments = substitute_terms(
                    ys,
                    side(target.label, for_source, for_target),
                );
                assert forall|i: int| 0 <= i < xs.len() implies agree(
                    #[trigger] left_arguments[i],
                    right_arguments[i],
                ) by {
                    assert(more[rest.len() + i] == arguments[i]);
                    assert(pair_agrees(more[rest.len() + i], for_source, for_target));
                }
                assert(agree(left_value, right_value));
                assert forall|k: int| 0 <= k < rest.len() implies pair_agrees(
                    #[trigger] rest[k],
                    for_source,
                    for_target,
                ) by {
                    assert(more[k] == rest[k]);
                    assert(pair_agrees(more[k], for_source, for_target));
                }
            },
            _ => {},
        }
        assert forall|k: int| 0 <= k < pending.len() implies pair_agrees(
            #[trigger] pending[k],
            for_source,
            for_target,
        ) by {
            if k < rest.len() {
                assert(pending[k] == rest[k]);
                assert(pair_agrees(rest[k], for_source, for_target));
            } else {
                assert(pending[k] == (first, second));
            }
        }
    }
}

/// Unifying the arguments of two atoms keeps every chain coming to an end,
/// and keeps what was bound before.
proof fn lemma_arguments_extend(
    raw: spec_fn(SymbolModel, SymbolModel) -> u64,
    threshold: u64,
    state: UnifierState,
    sources: Seq<TermModel>,
    targets: Seq<TermModel>,
    from: int,
)
    requires
        0 <= from,
        all_settle(state.bindings),
        unify_arguments(raw, threshold, state, sources, targets, from).0,
    ensures
        all_settle(unify_arguments(raw, threshold, state, sources, targets, from).1.bindings),
        extends(
            state.bindings,
            unify_arguments(raw, threshold, state, sources, targets, from).1.bindings,
        ),
    decreases sources.len() - from,
{
    if from < sources.len() && from < targets.len() {
        let pair = (
            LabeledModel { label: BindingLabel::Source, term: sources[from] },
            LabeledModel { label: BindingLabel::Target, term: targets[from] },
        );
        let (unified, next) = unify_pending(raw, threshold, state, seq![pair], STEP_LIMIT as nat);
        lemma_pending_extends(raw, threshold, state, seq![pair], STEP_LIMIT as nat);
        lemma_arguments_extend(raw, threshold, next, sources, targets, from + 1);
    }
}

/// Unifying the arguments of two atoms makes them agree, position by
/// position, under any substitutions that solve the bindings it ends
/// with.
proof fn lemma_arguments_agree(
    raw: spec_fn(SymbolModel, SymbolModel) -> u64,
    threshold: u64,
    state: UnifierState,
    sources: Seq<TermModel>,
    targets: Seq<TermModel>,
    from: int,
    for_source: Map<Seq<char>, TermModel>,
    for_target: Map<Seq<char>, TermModel>,
)
    requires
        0 <= from,
        all_settle(state.bindings),
        unify_arguments(raw, threshold, state, sources, targets, from).0,
        solves(
            unify_arguments(raw, threshold, state, sources, targets, from).1.bindings,
            for_source,
            for_target,
        ),
    ensures
        forall|i: int|
            from <= i < sources.len() && i < targets.len() ==> agree(
                substitute_term(#[trigger] sources[i], for_source),
                substitute_term(targets[i], for_target),
            ),
    decreases sources.len() - from,
{
    if from < sources.len() && from < targets.len() {
        let pair = (
            LabeledModel { label: BindingLabel::Source, term: sources[from] },
            LabeledModel { label: BindingLabel::Target, term: targets[from] },
        );
        let pending = seq![pair];
        let (unified, next) = unify_pending(raw, threshold, state, pending, STEP_LIMIT as nat);
        let end = unify_arguments(raw, threshold, state, sources, targets, from).1.bindings;
        lemma_pending_extends(raw, threshold, state, pending, STEP_LIMIT as nat);
        lemma_arguments_extend(raw, threshold, next, sources, targets, from + 1);
        lemma_solves_before(next.bindings, end, for_source, for_target);
        lemma_pending_agrees(
            raw,
            threshold,
            state,
            pending,
            STEP_LIMIT as nat,
            for_source,
            for_target,
        );
        assert(pair_agrees(pending[0], for_source, for_target));
        lemma_arguments_agree(
            raw,
            threshold,
            next,
            sources,
            targets,
            from + 1,
            for_source,
            for_target,
        );
    }
}

/// The bindings that the unifier ends with when it unifies two atoms.
pub open spec fn final_bindings(
    raw: spec_fn(SymbolModel, SymbolModel) -> u64,
    threshold: u64,
    source: AtomModel,
    target: AtomModel,
    memo: MemoModel,
    comparisons: usize,
) -> Seq<BindingModel> {
    let (score, memo) = memo_lookup(
        memo,
        pair_key(source.predicate, target.predicate),
        raw(source.predicate, target.predicate),
    );
    let start = UnifierState {
        bindings: Seq::<BindingModel>::empty(),
        similarity: score,
        memo,
        comparisons: comparisons.wrapping_add(1),
    };
    unify_arguments(raw, threshold, start, source.terms, target.terms, 0).1.bindings
}

/// Every function term that a variable is bound to is left as it is by the
/// substitution for the atom that the term comes from: no variable in it
/// is bound to anything but a variable of its own name.
pub open spec fn function_terms_at_rest(bindings: Seq<BindingModel>) -> bool {
    forall|k: int|
        0 <= k < bindings.len() && (#[trigger] bindings[k]).bound.term is BoundFunction
            ==> substitute_term(
            bindings[k].bound.term,
            substitutions_for(bindings, bindings[k].bound.label),
        ) == bindings[k].bound.term
}

/// The bindings that the unifier ends with are equations that make the two
/// atoms agree: under any two substitutions that solve them, the source's
/// arguments and the target's arguments agree, position by position and at
/// every depth.
pub proof fn lemma_unifier_solves(
    raw: spec_fn(SymbolModel, SymbolModel) -> u64,
    threshold: u64,
    source: AtomModel,
    target: AtomModel,
    memo: MemoModel,
    comparisons: usize,
    for_source: Map<Seq<char>, TermModel>,
    for_target: Map<Seq<char>, TermModel>,
)
    requires
        unify_spec(raw, threshold, source, target, memo, comparisons).unification is Some,
        solves(
            final_bindings(raw, threshold, source, target, memo, comparisons),
            for_source,
            for_target,
        ),
    ensures
        source.terms.len() == target.terms.len(),
        forall|i: int|
            0 <= i < source.terms.len() ==> agree(
                substitute_term(#[trigger] source.terms[i], for_source),
                substitute_term(target.terms[i], for_target),
            ),
{
    let (score, memo1) = memo_lookup(
        memo,
        pair_key(source.predicate, target.predicate),
        raw(source.predicate, target.predicate),
    );
    let start = UnifierState {
        bindings: Seq::<BindingModel>::empty(),
        similarity: score,
        memo: memo1,
        comparisons: comparisons.wrapping_add(1),
    };
    assert forall|term: LabeledModel| #[trigger] settles(start.bindings, term) by {
        assert(resolve(start.bindings, term, 0) == term);
    }
    lemma_arguments_agree(
        raw,
        threshold,
        start,
        source.terms,
        target.terms,
        0,
        for_source,
        for_target,
    );
}

/// The unifier is sound: if it gives a unification, then the source's
/// arguments under the source's substitution and the target's arguments
/// under the target's substitution agree, position by position and at every
/// depth.  A substitution replaces a variable by what the variable stands
/// for and does not look into that term again, so this is said of the
/// unifications in which the function terms that variables stand for are
/// left as they are by the substitutions.
pub proof fn lemma_unifier_sound(
    raw: spec_fn(SymbolModel, SymbolModel) -> u64,
    threshold: u64,
    source: AtomModel,
    target: AtomModel,
    memo: MemoModel,
    comparisons: usize,
)
    requires
        unify_spec(raw, threshold, source, target, memo, comparisons).unification is Some,
        function_terms_at_rest(
            final_bindings(raw, threshold, source, target, memo, comparisons),
        ),
    ensures
        source.terms.len() == target.terms.len(),
        ({
            let unification = unify_spec(
                raw,
                threshold,
                source,
                target,
                memo,
                comparisons,
            ).unification->0;
            forall|i: int|
                0 <= i < source.terms.len() ==> agree(
                    substitute_term(#[trigger] source.terms[i], unification.source_substitutions),
                    substitute_term(target.terms[i], unification.target_substitutions),
                )
        }),
{
    let (score, memo1) = memo_lookup(
        memo,
        pair_key(source.predicate, target.predicate),
        raw(source.predicate, target.predicate),
    );
    let start = UnifierState {
        bindings: Seq::<BindingModel>::empty(),
        similarity: score,
        memo: memo1,
        comparisons: comparisons.wrapping_add(1),
    };
    let end = final_bindings(raw, threshold, source, target, memo, comparisons);
    assert(end == unify_arguments(raw, threshold, start, source.terms, target.terms, 0).1.bindings);
    assert forall|term: LabeledModel| #[trigger] settles(start.bindings, term) by {
        assert(resolve(start.bindings, term, 0) == term);
    }
    lemma_arguments_extend(raw, threshold, start, source.terms, target.terms, 0);
    let for_source = substitutions_for(end, BindingLabel::Source);
    let for_target = substitutions_for(end, BindingLabel::Target);
    assert forall|label: BindingLabel, name: Seq<char>| #[trigger]
        is_bound(end, label, name) implies side(label, for_source, for_target).contains_key(name)
        && side(label, for_source, for_target)[name] == value(
        lookup(end, label, name)->0,
        for_source,
        for_target,
    ) by {
        let variable = LabeledModel { label, term: TermModel::Variable(name) };
        let bound = lookup(end, label, name)->0;
        let links = (end.len() - 1) as nat;
        crate::prover::operations::unify::lemma_is_bound(end, label, name, 0);
        assert(side(label, for_source, for_target) == substitutions_for(end, label));
        assert(side(bound.label, for_source, for_target) == substitutions_for(end, bound.label));
        assert(resolved(end, variable) == resolve(end, bound, links));
        match bound.term {
            TermModel::Constant(_) => {},
            TermModel::Variable(other) => {
                assert(settles(end, variable));
                lemma_resolve_one_more(end, bound, links);
                assert(resolved(end, bound) == resolve(end, bound, links));
                if !is_bound(end, bound.label, other) {
                    lemma_resolve_at_rest(end, bound, links);
                }
            },
            TermModel::BoundFunction(_, _) => {
                let k = binding_index(end, label, name, 0);
                assert(end[k].bound == bound);
            },
        }
    }
    assert(solves(end, for_source, for_target));
    lemma_unifier_solves(raw, threshold, source, target, memo, comparisons, for_source, for_target);
}

// ---------------------------------------------------------------------------
// Atoms on which every unification is sound.
// ---------------------------------------------------------------------------

/// No variable occurs in the term.
pub open spec fn no_variables(term: TermModel) -> bool {
    forall|name: Seq<char>| !(#[trigger] term_variables(term).contains(name))
}

/// The term is a constant, a variable, or a function term without
/// variables.
pub open spec fn plain(term: TermModel) -> bool {
    is_simple(term) || no_variables(term)
}

/// Two arguments fit: one of them holds no variable, or neither holds a
/// variable inside a function term.
pub open spec fn fitting(a: TermModel, b: TermModel) -> bool {
    no_variables(a) || no_variables(b) || (plain(a) && plain(b))
}

/// The arguments of two atoms fit, position by position.
pub open spec fn fitting_atoms(source: AtomModel, target: AtomModel) -> bool {
    forall|i: int|
        0 <= i < source.terms.len() && i < target.terms.len() ==> fitting(
            #[trigger] source.terms[i],
            target.terms[i],
        )
}

/// Every binding binds its variable to a plain term.
spec fn plain_bindings(bindings: Seq<BindingModel>) -> bool {
    forall|k: int| 0 <= k < bindings.len() ==> plain(#[trigger] bindings[k].bound.term)
}

/// The two terms of every pending pair fit.
spec fn fitting_pairs(pending: Seq<(LabeledModel, LabeledModel)>) -> bool {
    forall|k: int| 0 <= k < pending.len() ==> fitting((#[trigger] pending[k]).0.term, pending[k].1.term)
}

/// The arguments of a function term without variables hold no variables.
proof fn lemma_no_variables_in_arguments(term: TermModel)
    requires
        no_variables(term),
    ensures
        term matches TermModel::BoundFunction(_, arguments) ==> forall|i: int|
            0 <= i < arguments.len() ==> no_variables(#[trigger] arguments[i]),
{
    match term {
        TermModel::BoundFunction(_, arguments) => {
            assert forall|i: int| 0 <= i < arguments.len() implies no_variables(
                #[trigger] arguments[i],
            ) by {
                lemma_terms_variables_hold(arguments, arguments.len() as int, i);
                assert forall|name: Seq<char>| !(#[trigger] term_variables(arguments[i]).contains(
                    name,
                )) by {
                    if term_variables(arguments[i]).contains(name) {
                        assert(term_variables(term).contains(name));
                    }
                }
            }
        },
        _ => {},
    }
}

/// Under plain bindings, what a chain ends in is the term it began with or
/// a plain term.
proof fn lemma_resolve_plain(bindings: Seq<BindingModel>, term: LabeledModel, links: nat)
    requires
        plain_bindings(bindings),
    ensures
        resolve(bindings, term, links) == term || plain(resolve(bindings, term, links).term),
        !(term.term is Variable) ==> resolve(bindings, term, links) == term,
    decreases links,
{
    if links > 0 {
        match term.term {
            TermModel::Variable(name) => {
                if is_bound(bindings, term.label, name) {
                    crate::prover::operations::unify::lemma_is_bound(
                        bindings,
                        term.label,
                        name,
                        0,
                    );
                    let next = lookup(bindings, term.label, name)->0;
                    lemma_resolve_plain(bindings, next, (links - 1) as nat);
                }
            },
            _ => {},
        }
    }
}

/// Binding a variable to a plain term keeps the bindings plain.
proof fn lemma_bind_plain(
    bindings: Seq<BindingModel>,
    label: BindingLabel,
    name: Seq<char>,
    bound: LabeledModel,
)
    requires
        !is_bound(bindings, label, name),
        plain(bound.term),
        plain_bindings(bindings),
    ensures
        plain_bindings(bind(bindings, label, name, bound)),
{
    let longer = bind(bindings, label, name, bound);
    let binding = BindingModel { label, name, bound };
    assert(longer == bindings.push(binding));
    assert forall|k: int| 0 <= k < longer.len() implies plain(#[trigger] longer[k].bound.term) by {
        if k < bindings.len() {
            assert(longer[k] == bindings[k]);
        }
    }
}

/// Work on fitting pairs under plain bindings ends with plain bindings.
proof fn lemma_pending_plain(
    raw: spec_fn(SymbolModel, SymbolModel) -> u64,
    threshold: u64,
    state: UnifierState,
    pending: Seq<(LabeledModel, LabeledModel)>,
    budget: nat,
)
    requires
        all_settle(state.bindings),
        plain_bindings(state.bindings),
        fitting_pairs(pending),
        unify_pending(raw, threshold, state, pending, budget).0,
    ensures
        plain_bindings(unify_pending(raw, threshold, state, pending, budget).1.bindings),
    decreases budget,
{
    if pending.len() > 0 {
        let bindings = state.bindings;
        let first = pending.last().0;
        let second = pending.last().1;
        let source = resolved(bindings, first);
        let target = resolved(bindings, second);
        let rest = pending.drop_last();
        let left = (budget - 1) as nat;
        assert(settles(bindings, first));
        assert(settles(bindings, second));
        assert(fitting(pending[pending.len() - 1].0.term, pending[pending.len() - 1].1.term));
        lemma_resolve_plain(bindings, first, bindings.len());
        lemma_resolve_plain(bindings, second, bindings.len());
        assert(fitting_pairs(rest)) by {
            assert forall|k: int| 0 <= k < rest.len() implies fitting(
                (#[trigger] rest[k]).0.term,
                rest[k].1.term,
            ) by {
                assert(rest[k] == pending[k]);
            }
        }
        match (source.term, target.term) {
            (TermModel::Constant(a), TermModel::Constant(b)) => {
                if a == b {
                    lemma_pending_plain(raw, threshold, state, rest, left);
                } else {
                    let (score, memo) = memo_lookup(state.memo, pair_key(a, b), raw(a, b));
                    let next = UnifierState {
                        bindings,
                        similarity: crate::prover::similarity::lower(state.similarity, score),
                        memo,
                        comparisons: state.comparisons.wrapping_add(1),
                    };
                    lemma_pending_plain(raw, threshold, next, rest, left);
                }
            },
            (TermModel::Variable(x), TermModel::Variable(y)) => {
                if source == target {
                    lemma_pending_plain(raw, threshold, state, rest, left);
                } else {
                    let next = UnifierState {
                        bindings: bind(bindings, target.label, y, source),
                        ..state
                    };
                    lemma_bind_extends(bindings, target.label, y, source);
                    lemma_bind_plain(bindings, target.label, y, source);
                    lemma_pending_plain(raw, threshold, next, rest, left);
                }
            },
            (TermModel::Variable(x), _) => {
                let next = UnifierState { bindings: bind(bindings, source.label, x, target), ..state };
                match first.term {
                    TermModel::Variable(name) => {
                        assert(term_variables(first.term).contains(name));
                    },
                    _ => {},
                }
                assert(plain(target.term));
                lemma_bind_extends(bindings, source.label, x, target);
                lemma_bind_plain(bindings, source.label, x, target);
                lemma_pending_plain(raw, threshold, next, rest, left);
            },
            (_, TermModel::Variable(y)) => {
                let next = UnifierState { bindings: bind(bindings, target.label, y, source), ..state };
                match second.term {
                    TermModel::Variable(name) => {
                        assert(term_variables(second.term).contains(name));
                    },
                    _ => {},
                }
                assert(plain(source.term));
                lemma_bind_extends(bindings, target.label, y, source);
                lemma_bind_plain(bindings, target.label, y, source);
                lemma_pending_plain(raw, threshold, next, rest, left);
            },
            (TermModel::BoundFunction(f, xs), TermModel::BoundFunction(g, ys)) => {
                let arguments = argument_pairs(source.label, xs, target.label, ys);
                let more = rest + arguments;
                assert(no_variables(source.term) || no_variables(target.term));
                if no_variables(source.term) {
                    lemma_no_variables_in_arguments(source.term);
                } else {
                    lemma_no_variables_in_arguments(target.term);
                }
                assert forall|k: int| 0 <= k < more.len() implies fitting(
                    (#[trigger] more[k]).0.term,
                    more[k].1.term,
                ) by {
                    if k < rest.len() {
                        assert(more[k] == rest[k]);
                    } else {
                        assert(more[k] == arguments[k - rest.len()]);
                    }
                }
                lemma_pending_plain(raw, threshold, state, more, left);
            },
            _ => {},
        }
    }
}

/// Unifying the arguments of atoms that fit, under plain bindings, ends
/// with plain bindings.
proof fn lemma_arguments_plain(
    raw: spec_fn(SymbolModel, SymbolModel) -> u64,
    threshold: u64,
    state: UnifierState,
    sources: Seq<TermModel>,
    targets: Seq<TermModel>,
    from: int,
)
    requires
        0 <= from,
        all_settle(state.bindings),
        plain_bindings(state.bindings),
        forall|i: int|
            0 <= i < sources.len() && i < targets.len() ==> fitting(#[trigger] sources[i], targets[i]),
        unify_arguments(raw, threshold, state, sources, targets, from).0,
    ensures
        plain_bindings(unify_arguments(raw, threshold, state, sources, targets, from).1.bindings),
    decreases sources.len() - from,
{
    if from < sources.len() && from < targets.len() {
        let pair = (
            LabeledModel { label: BindingLabel::Source, term: sources[from] },
            LabeledModel { label: BindingLabel::Target, term: targets[from] },
        );
        let pending = seq![pair];
        let (unified, next) = unify_pending(raw, threshold, state, pending, STEP_LIMIT as nat);
        assert(fitting(sources[from], targets[from]));
        assert(fitting_pairs(pending)) by {
            assert forall|k: int| 0 <= k < pending.len() implies fitting(
                (#[trigger] pending[k]).0.term,
                pending[k].1.term,
            ) by {
                assert(pending[k] == pair);
            }
        }
        lemma_pending_extends(raw, threshold, state, pending, STEP_LIMIT as nat);
        lemma_pending_plain(raw, threshold, state, pending, STEP_LIMIT as nat);
        lemma_arguments_plain(raw, threshold, next, sources, targets, from + 1);
    }
}

/// On atoms whose arguments fit, the unifier is sound: whatever unification
/// it gives, the source's arguments under the source's substitution and the
/// target's arguments under the target's substitution agree, position by
/// position and at every depth.  Atoms whose arguments are constants and
/// variables fit, and so do any two atoms of which one holds no variable.
pub proof fn lemma_unifier_sound_on_fitting_atoms(
    raw: spec_fn(SymbolModel, SymbolModel) -> u64,
    threshold: u64,
    source: AtomModel,
    target: AtomModel,
    memo: MemoModel,
    comparisons: usize,
)
    requires
        fitting_atoms(source, target),
        unify_spec(raw, threshold, source, target, memo, comparisons).unification is Some,
    ensures
        source.terms.len() == target.terms.len(),
        function_terms_at_rest(final_bindings(raw, threshold, source, target, memo, comparisons)),
        ({
            let unification = unify_spec(
                raw,
                threshold,
                source,
                target,
                memo,
                comparisons,
            ).unification->0;
            forall|i: int|
                0 <= i < source.terms.len() ==> agree(
                    substitute_term(#[trigger] source.terms[i], unification.source_substitutions),
                    substitute_term(target.terms[i], unification.target_substitutions),
                )
        }),
{
    let (score, memo1) = memo_lookup(
        memo,
        pair_key(source.predicate, target.predicate),
        raw(source.predicate, target.predicate),
    );
    let start = UnifierState {
        bindings: Seq::<BindingModel>::empty(),
        similarity: score,
        memo: memo1,
        comparisons: comparisons.wrapping_add(1),
    };
    let end = final_bindings(raw, threshold, source, target, memo, comparisons);
    assert forall|term: LabeledModel| #[trigger] settles(start.bindings, term) by {
        assert(resolve(start.bindings, term, 0) == term);
    }
    lemma_arguments_plain(raw, threshold, start, source.terms, target.terms, 0);
    assert forall|k: int|
        0 <= k < end.len() && (#[trigger] end[k]).bound.term is BoundFunction implies substitute_term(
        end[k].bound.term,
        substitutions_for(end, end[k].bound.label),
    ) == end[k].bound.term by {
        assert(plain(end[k].bound.term));
        lemma_untouched_term(end[k].bound.term, substitutions_for(end, end[k].bound.label));
    }
    lemma_unifier_sound(raw, threshold, source, target, memo, comparisons);
}

} // verus!
