use fuzzy_resolution::prover::operations::fresh_names::VarNamePattern;
use fuzzy_resolution::prover::operations::resolve::build_resolvent;
use fuzzy_resolution::prover::operations::resolve::perform_substitution;
use fuzzy_resolution::prover::operations::resolve;
use fuzzy_resolution::prover::operations::unify;
use fuzzy_resolution::prover::operations::Unification;
use fuzzy_resolution::prover::similarity::SIMILARITY_ONE;
use fuzzy_resolution::prover::LocalProofContext;
use fuzzy_resolution::prover::ProofStepNode;
use fuzzy_resolution::prover::ResolutionProverBackend;
use fuzzy_resolution::prover::SharedProofContext;
use fuzzy_resolution::types::Atom;
use fuzzy_resolution::types::CNFDisjunction;
use fuzzy_resolution::types::CNFLiteral;
use fuzzy_resolution::types::Constant;
use fuzzy_resolution::types::Function;
use fuzzy_resolution::types::Predicate;
use fuzzy_resolution::types::Term;
use fuzzy_resolution::types::Variable;
use fuzzy_resolution::util::ClauseSet;
use fuzzy_resolution::util::LiteralSet;
use fuzzy_resolution::util::PyArcItem;

type Comparator = fn(&String, Option<u64>, &String, Option<u64>) -> u64;

fn k(name: &str) -> Term {
    Term::Constant(Constant::new(name, None))
}

fn v(name: &str) -> Term {
    Term::Variable(Variable::new(name))
}

fn f(name: &str, terms: Vec<Term>) -> Term {
    Term::BoundFunction(Function::new(name).bind(terms))
}

fn atom(predicate: &str, terms: Vec<Term>) -> Atom {
    Predicate::new(predicate, None).atom(terms)
}

fn lit(predicate: &str, terms: Vec<Term>, polarity: bool) -> PyArcItem<CNFLiteral> {
    PyArcItem::new(CNFLiteral::new(atom(predicate, terms), polarity))
}

fn clause(literals: Vec<PyArcItem<CNFLiteral>>) -> PyArcItem<CNFDisjunction> {
    PyArcItem::new(CNFDisjunction::new(LiteralSet::from_vec(literals)))
}

/// Constants whose names begin with the same letter score 0.8.
fn by_initial(a: &String, _ea: Option<u64>, b: &String, _eb: Option<u64>) -> u64 {
    let score: f64 = if a == b {
        1.0
    } else if a.chars().next() == b.chars().next() {
        0.8
    } else {
        0.0
    };
    score.to_bits()
}

const BY_INITIAL: Comparator = by_initial;

fn unified(source: &Atom, target: &Atom) -> Option<Unification> {
    let mut shared =
        SharedProofContext::new(0.5f64.to_bits(), None, false, None, Some(&BY_INITIAL));
    let mut ctx = LocalProofContext::new(&shared);
    unify(source, target, &mut ctx, &mut shared)
}

fn under(atom: &Atom, unification_side: &fuzzy_resolution::prover::SubstitutionsMap) -> Vec<Term> {
    let literal = PyArcItem::new(CNFLiteral::new(atom.clone(), true));
    let after = perform_substitution(&LiteralSet::from_vec(vec![literal]), unification_side);
    assert_eq!(after.len(), 1);
    after.get(0).item.atom.terms.clone()
}

fn agree(a: &Term, b: &Term) -> bool {
    a == b || (matches!(a, Term::Constant(_)) && matches!(b, Term::Constant(_)))
}

#[test]
fn unified_atoms_agree_under_their_substitutions() {
    let cases = vec![
        (vec![v("X"), v("X"), v("Y")], vec![v("Y"), v("Z"), k("c")]),
        (vec![v("X"), v("Y")], vec![v("Y"), v("X")]),
        (vec![v("X"), k("a1"), v("X")], vec![k("a2"), v("Y"), v("Y")]),
        (vec![v("X"), v("X")], vec![v("Y"), v("Y")]),
        (vec![k("b1"), v("X"), v("Z")], vec![k("b2"), k("c"), v("W")]),
    ];
    for (source_terms, target_terms) in cases {
        let source = atom("p", source_terms);
        let target = atom("p", target_terms);
        let unification = unified(&source, &target).unwrap();
        let left = under(&source, &unification.source_substitutions);
        let right = under(&target, &unification.target_substitutions);
        assert_eq!(left.len(), right.len());
        for (a, b) in left.iter().zip(right.iter()) {
            assert!(agree(a, b), "{:?} and {:?} do not agree", a, b);
        }
        assert!(unification.similarity > 0.5f64.to_bits());
        assert!(unification.similarity <= SIMILARITY_ONE);
    }
}

#[test]
fn similar_constants_lower_the_similarity() {
    let source = atom("p", vec![k("a1"), k("b1")]);
    let target = atom("p", vec![k("a2"), k("b1")]);
    assert_eq!(unified(&source, &target).unwrap().similarity, 0.8f64.to_bits());
    let target = atom("p", vec![k("a2"), k("c1")]);
    assert_eq!(unified(&source, &target), None);
}

#[test]
fn the_same_variable_on_both_sides_is_passed_over() {
    // after Y is bound to X, the second pair is X against X
    let source = atom("p", vec![v("X"), v("X")]);
    let target = atom("p", vec![v("Y"), v("Y")]);
    let unification = unified(&source, &target).unwrap();
    assert!(unification.source_substitutions.is_empty());
    assert_eq!(unification.target_substitutions.len(), 1);
    assert_eq!(unification.target_substitutions.get(&Variable::new("Y")), Some(&v("X")));
}

#[test]
fn a_constant_and_a_function_do_not_unify() {
    let source = atom("p", vec![k("a")]);
    let target = atom("p", vec![f("a", vec![])]);
    assert_eq!(unified(&source, &target), None);
    assert_eq!(unified(&target, &source), None);
}

#[test]
fn the_occurs_check_looks_into_function_terms() {
    // X against g(h(Y)) is fine; then Y against X would put Y inside itself
    let source = atom("p", vec![v("X"), v("X")]);
    let target = atom("p", vec![f("g", vec![f("h", vec![v("Y")])]), v("Y")]);
    assert_eq!(unified(&source, &target), None);
    // a variable of the other atom with the same name is another variable
    let source = atom("p", vec![v("X")]);
    let target = atom("p", vec![f("g", vec![v("X")])]);
    let unification = unified(&source, &target).unwrap();
    assert_eq!(
        unification.source_substitutions.get(&Variable::new("X")),
        Some(&f("g", vec![v("X")]))
    );
}

#[test]
fn a_step_holds_the_resolvent_of_its_clauses() {
    let pattern = VarNamePattern::new().unwrap();
    let goal = clause(vec![lit("p", vec![v("X"), k("a1")], false), lit("r", vec![v("X")], true)]);
    let target = clause(vec![
        lit("p", vec![v("Y"), k("a2")], true),
        lit("p", vec![k("c"), v("X")], true),
        lit("r", vec![v("X")], false),
        lit("s", vec![v("X"), v("Y")], true),
    ]);
    let mut shared =
        SharedProofContext::new(0.5f64.to_bits(), None, false, None, Some(&BY_INITIAL));
    let mut ctx = LocalProofContext::new(&shared);
    let steps = resolve(&goal, &target, &mut ctx, &mut shared, None, &pattern);
    // the goal's least literal is the denied p; it is tried against the three
    // asserted literals and unifies with the two p's
    assert_eq!(steps.len(), 2);
    assert_eq!(ctx.stats.attempted_unifications, 3);
    assert_eq!(ctx.stats.similarity_comparisons, 4);
    assert_eq!(ctx.stats.successful_unifications, 2);
    for step in steps.iter() {
        let step = &step.inner;
        assert_eq!(step.source, goal);
        assert_eq!(step.target, target);
        assert_eq!(step.source_unification_literal, *goal.item.literals.first().unwrap());
        assert!(target.item.literals.contains(&step.target_unification_literal.item));
        assert_eq!(step.depth, 0);
        assert_eq!(step.running_similarity, step.similarity);
        assert!(step.parent.is_none());
        let unification = Unification {
            source_substitutions: step.source_substitutions.clone(),
            target_substitutions: step.target_substitutions.clone(),
            similarity: step.similarity,
        };
        let rebuilt = build_resolvent(
            &step.source,
            &step.target,
            &step.source_unification_literal,
            &step.target_unification_literal,
            &unification,
            &pattern,
        );
        assert_eq!(step.resolvent, rebuilt);
    }
    assert_eq!(steps[0].inner.similarity, SIMILARITY_ONE);
    assert_eq!(steps[1].inner.similarity, 0.8f64.to_bits());
    // a step behind a parent is one deeper and no more similar than the parent
    let parent: &ProofStepNode = &steps[1];
    let next = resolve(&parent.inner.resolvent, &target, &mut ctx, &mut shared, Some(parent), &pattern);
    for step in next.iter() {
        assert_eq!(step.inner.depth, 1);
        assert_eq!(
            step.inner.running_similarity,
            step.inner.similarity.min(parent.inner.running_similarity)
        );
        assert_eq!(step.inner.parent.as_ref(), Some(parent));
        assert_eq!(step.inner.source, parent.inner.resolvent);
    }
}

#[test]
fn the_steps_of_a_proof_follow_from_one_another() {
    let knowledge = vec![
        CNFDisjunction::new(LiteralSet::from_vec(vec![
            lit("a", vec![v("X")], true),
            lit("b", vec![v("X")], false),
        ])),
        CNFDisjunction::new(LiteralSet::from_vec(vec![lit("b", vec![k("k")], true)])),
    ];
    let mut set = ClauseSet::new();
    for item in knowledge {
        set.insert(PyArcItem::new(item));
    }
    let goal = CNFDisjunction::new(LiteralSet::from_vec(vec![lit("a", vec![k("k")], false)]));
    let mut prover = ResolutionProverBackend::<Comparator>::new(
        5, None, None, None, 0.5f64.to_bits(), false, false, true, set, 1, 10,
    )
    .unwrap();
    let pattern = VarNamePattern::new().unwrap();
    let (proofs, _) = prover.prove_all_with_stats(vec![goal.clone()], None, None, None);
    assert_eq!(proofs.len(), 1);
    let steps = proofs[0].proof_steps();
    assert_eq!(*steps[0].source.item, goal);
    for (i, step) in steps.iter().enumerate() {
        if i > 0 {
            assert_eq!(step.source, steps[i - 1].resolvent);
            assert_eq!(step.depth, steps[i - 1].depth + 1);
        }
        let unification = Unification {
            source_substitutions: step.source_substitutions.clone(),
            target_substitutions: step.target_substitutions.clone(),
            similarity: step.similarity,
        };
        let rebuilt = build_resolvent(
            &step.source,
            &step.target,
            &step.source_unification_literal,
            &step.target_unification_literal,
            &unification,
            &pattern,
        );
        assert_eq!(step.resolvent, rebuilt);
    }
    assert!(steps.last().unwrap().resolvent.item.literals.is_empty());
}
