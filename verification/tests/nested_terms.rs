use fuzzy_resolution::prover::operations::fresh_names::VarNamePattern;
use fuzzy_resolution::prover::operations::resolve::build_resolvent;
use fuzzy_resolution::prover::operations::resolve::find_unused_variables;
use fuzzy_resolution::prover::operations::resolve::literal_requires_substitution;
use fuzzy_resolution::prover::operations::resolve::literal_requires_var_rename;
use fuzzy_resolution::prover::operations::resolve::perform_substitution;
use fuzzy_resolution::prover::operations::resolve::rename_variables_in_literals;
use fuzzy_resolution::prover::operations::unify;
use fuzzy_resolution::prover::operations::Unification;
use fuzzy_resolution::prover::similarity::max_similarity;
use fuzzy_resolution::prover::similarity::SIMILARITY_ONE;
use fuzzy_resolution::prover::LocalProofContext;
use fuzzy_resolution::prover::ProofStep;
use fuzzy_resolution::prover::ProofStepNode;
use fuzzy_resolution::prover::SharedProofContext;
use fuzzy_resolution::prover::SubstitutionsMap;
use fuzzy_resolution::types::Atom;
use fuzzy_resolution::types::CNFDisjunction;
use fuzzy_resolution::types::CNFLiteral;
use fuzzy_resolution::types::Constant;
use fuzzy_resolution::types::Function;
use fuzzy_resolution::types::Predicate;
use fuzzy_resolution::types::Term;
use fuzzy_resolution::types::Variable;
use fuzzy_resolution::util::LiteralSet;
use fuzzy_resolution::util::PyArcItem;
use fuzzy_resolution::util::VariableSet;

type Comparator = fn(&String, Option<u64>, &String, Option<u64>) -> u64;

fn k(name: &str) -> Term {
    Term::Constant(Constant::new(name, None))
}

fn v(name: &str) -> Term {
    Term::Variable(Variable::new(name))
}

fn f(name: &str, terms: Vec<Term>) -> Term {
    Term::BoundFunction(Function::new(name).bind(terms))
}

fn atom(predicate: &str, terms: Vec<Term>) -> Atom {
    Predicate::new(predicate, None).atom(terms)
}

fn lit(predicate: &str, terms: Vec<Term>, polarity: bool) -> PyArcItem<CNFLiteral> {
    PyArcItem::new(CNFLiteral::new(atom(predicate, terms), polarity))
}

fn literals(items: Vec<PyArcItem<CNFLiteral>>) -> LiteralSet {
    LiteralSet::from_vec(items)
}

fn clause(items: Vec<PyArcItem<CNFLiteral>>) -> PyArcItem<CNFDisjunction> {
    PyArcItem::new(CNFDisjunction::new(literals(items)))
}

fn subs(entries: Vec<(&str, Term)>) -> SubstitutionsMap {
    let mut map = SubstitutionsMap::new();
    for (name, term) in entries {
        map.insert(Variable::new(name), term);
    }
    map
}

fn variables(names: Vec<&str>) -> VariableSet {
    let mut set = VariableSet::new();
    for name in names {
        set.insert(Variable::new(name));
    }
    set
}

fn leaf(depth: usize, running_similarity: f64) -> ProofStepNode {
    let empty = PyArcItem::new(CNFDisjunction::new(LiteralSet::new()));
    let literal = lit("p", vec![], true);
    ProofStepNode::new(ProofStep::new(
        empty.clone(),
        empty.clone(),
        literal.clone(),
        literal,
        SubstitutionsMap::new(),
        SubstitutionsMap::new(),
        empty,
        running_similarity.to_bits(),
        running_similarity.to_bits(),
        depth,
        None,
    ))
}

fn unified(source: &Atom, target: &Atom) -> Option<Unification> {
    let mut shared = SharedProofContext::<Comparator>::new(0.5f64.to_bits(), None, false, None, None);
    let mut ctx = LocalProofContext::new(&shared);
    unify(source, target, &mut ctx, &mut shared)
}

#[test]
fn a_substitution_reaches_into_function_terms() {
    let before = literals(vec![lit("pred1", vec![f("func1", vec![v("X")])], true)]);
    let after = perform_substitution(&before, &subs(vec![("X", k("const1"))]));
    assert_eq!(after, literals(vec![lit("pred1", vec![f("func1", vec![k("const1")])], true)]));
}

#[test]
fn a_substitution_reaches_every_depth_and_every_occurrence() {
    let before = literals(vec![
        lit("p", vec![v("X"), f("g", vec![f("h", vec![v("X"), v("Y")]), k("a")])], false),
        lit("q", vec![f("g", vec![v("Z")])], true),
    ]);
    let after = perform_substitution(
        &before,
        &subs(vec![("X", f("s", vec![v("Y")])), ("Y", k("b"))]),
    );
    let expected = literals(vec![
        lit(
            "p",
            vec![
                f("s", vec![v("Y")]),
                f("g", vec![f("h", vec![f("s", vec![v("Y")]), k("b")]), k("a")]),
            ],
            false,
        ),
        lit("q", vec![f("g", vec![v("Z")])], true),
    ]);
    assert_eq!(after, expected);
}

#[test]
fn a_literal_without_mapped_variables_stays_as_it_is() {
    let before = literals(vec![lit("p", vec![f("g", vec![v("Z"), k("a")])], true)]);
    let after = perform_substitution(&before, &subs(vec![("X", k("b"))]));
    assert_eq!(after, before);
}

#[test]
fn a_renaming_reaches_into_function_terms() {
    let before = literals(vec![lit("p", vec![f("g", vec![v("X")]), v("X")], true)]);
    let after = rename_variables_in_literals(&before, &subs(vec![("X", v("X_1"))]));
    assert_eq!(after, literals(vec![lit("p", vec![f("g", vec![v("X_1")]), v("X_1")], true)]));
}

#[test]
fn a_variable_inside_a_function_term_touches_its_literal() {
    let literal = lit("p", vec![k("a"), f("g", vec![f("h", vec![v("X")])])], true);
    assert!(literal_requires_substitution(&literal, &subs(vec![("X", k("b"))])));
    assert!(literal_requires_var_rename(&literal, &subs(vec![("X", v("X_1"))])));
    assert!(!literal_requires_substitution(&literal, &subs(vec![("Y", k("b"))])));
    assert!(!literal_requires_substitution(&literal, &SubstitutionsMap::new()));
}

#[test]
fn unused_variables_are_found_inside_function_terms() {
    let set = literals(vec![lit("pred1", vec![f("func1", vec![v("X")])], true)]);
    assert_eq!(find_unused_variables(&set, &SubstitutionsMap::new()), variables(vec!["X"]));
    let set = literals(vec![
        lit("p", vec![f("g", vec![v("X"), f("h", vec![v("Y")])]), v("Z")], true),
        lit("q", vec![f("g", vec![v("W")])], false),
    ]);
    assert_eq!(
        find_unused_variables(&set, &subs(vec![("Y", k("a")), ("Z", k("b"))])),
        variables(vec!["W", "X"])
    );
}

#[test]
fn a_shared_variable_inside_a_function_term_is_renamed_in_the_target() {
    let source_literal = lit("p", vec![k("a")], true);
    let target_literal = lit("p", vec![k("a")], false);
    let source = clause(vec![source_literal.clone(), lit("r", vec![f("g", vec![v("X")])], true)]);
    let target = clause(vec![target_literal.clone(), lit("s", vec![f("h", vec![v("X")])], true)]);
    let unification = Unification {
        source_substitutions: SubstitutionsMap::new(),
        target_substitutions: SubstitutionsMap::new(),
        similarity: SIMILARITY_ONE,
    };
    let pattern = VarNamePattern::new().unwrap();
    let resolvent = build_resolvent(
        &source,
        &target,
        &source_literal,
        &target_literal,
        &unification,
        &pattern,
    );
    let expected = clause(vec![
        lit("r", vec![f("g", vec![v("X")])], true),
        lit("s", vec![f("h", vec![v("X_1")])], true),
    ]);
    assert_eq!(resolvent, expected);
}

#[test]
fn atoms_with_function_terms_agree_under_their_substitutions() {
    let source = atom("p", vec![f("g", vec![v("X"), k("a")]), v("Y")]);
    let target = atom("p", vec![f("g", vec![f("h", vec![k("b")]), v("Z")]), k("c")]);
    let unification = unified(&source, &target).unwrap();
    assert_eq!(
        unification.source_substitutions,
        subs(vec![("X", f("h", vec![k("b")])), ("Y", k("c"))])
    );
    assert_eq!(unification.target_substitutions, subs(vec![("Z", k("a"))]));
    let left = perform_substitution(
        &literals(vec![PyArcItem::new(CNFLiteral::new(source, true))]),
        &unification.source_substitutions,
    );
    let right = perform_substitution(
        &literals(vec![PyArcItem::new(CNFLiteral::new(target, true))]),
        &unification.target_substitutions,
    );
    assert_eq!(left, right);
    assert_eq!(
        left,
        literals(vec![lit("p", vec![f("g", vec![f("h", vec![k("b")]), k("a")]), k("c")], true)])
    );
}

#[test]
fn a_substitution_does_not_look_into_the_terms_it_puts_in() {
    // X stands for g(Y), and Y, met later, stands for a: each variable is
    // mapped to what it stands for, and g(Y) is put in as it is
    let source = atom("p", vec![v("X"), k("a")]);
    let target = atom("p", vec![f("g", vec![v("Y")]), v("Y")]);
    let unification = unified(&source, &target).unwrap();
    assert_eq!(unification.source_substitutions, subs(vec![("X", f("g", vec![v("Y")]))]));
    assert_eq!(unification.target_substitutions, subs(vec![("Y", k("a"))]));
    let left = perform_substitution(
        &literals(vec![PyArcItem::new(CNFLiteral::new(source, true))]),
        &unification.source_substitutions,
    );
    assert_eq!(left, literals(vec![lit("p", vec![f("g", vec![v("Y")]), k("a")], true)]));
}

#[test]
fn the_floor_does_not_fall_when_a_proof_is_dropped() {
    let mut ctx =
        SharedProofContext::<Comparator>::new(0.9f64.to_bits(), Some(1), false, None, None);
    ctx.record_leaf_proof(leaf(1, 0.5));
    assert_eq!(ctx.min_similarity_threshold, 0.9f64.to_bits());
    assert_eq!(ctx.stats.discarded_proofs, 0);
    ctx.record_leaf_proof(leaf(1, 0.6));
    assert_eq!(ctx.total_leaf_proofs(), 1);
    assert_eq!(ctx.scored_leaf_proof_steps.get(0).0, 0.6f64.to_bits());
    assert_eq!(ctx.stats.discarded_proofs, 1);
    assert_eq!(ctx.min_similarity_threshold, 0.9f64.to_bits());
}

#[test]
fn the_floor_rises_to_the_last_proof_that_is_kept() {
    let mut ctx =
        SharedProofContext::<Comparator>::new(0.1f64.to_bits(), Some(1), false, None, None);
    ctx.record_leaf_proof(leaf(1, 0.5));
    assert_eq!(ctx.min_similarity_threshold, 0.1f64.to_bits());
    ctx.record_leaf_proof(leaf(1, 0.6));
    assert_eq!(ctx.min_similarity_threshold, 0.6f64.to_bits());
    ctx.record_leaf_proof(leaf(1, 0.3));
    assert_eq!(ctx.min_similarity_threshold, 0.6f64.to_bits());
    assert_eq!(ctx.stats.discarded_proofs, 2);
}

#[test]
fn without_a_limit_the_floor_stays() {
    let mut ctx = SharedProofContext::<Comparator>::new(0.2f64.to_bits(), None, false, None, None);
    ctx.record_leaf_proof(leaf(1, 0.5));
    ctx.record_leaf_proof(leaf(2, 0.8));
    assert_eq!(ctx.total_leaf_proofs(), 2);
    assert_eq!(ctx.min_similarity_threshold, 0.2f64.to_bits());
    assert_eq!(ctx.stats.discarded_proofs, 0);
}

#[test]
fn the_greater_of_two_scores() {
    assert_eq!(max_similarity(0.25f64.to_bits(), 0.75f64.to_bits()), 0.75f64.to_bits());
    assert_eq!(max_similarity(0.75f64.to_bits(), 0.25f64.to_bits()), 0.75f64.to_bits());
    assert_eq!(max_similarity(SIMILARITY_ONE, SIMILARITY_ONE), SIMILARITY_ONE);
}

#[test]
fn a_goal_without_variables_unifies_soundly_with_nested_variables() {
    let source = atom("p", vec![f("g", vec![k("a"), f("h", vec![k("b")])]), k("c")]);
    let target = atom("p", vec![f("g", vec![v("X"), f("h", vec![v("Y")])]), v("Z")]);
    let unification = unified(&source, &target).unwrap();
    assert_eq!(unification.source_substitutions, SubstitutionsMap::new());
    assert_eq!(
        unification.target_substitutions,
        subs(vec![("X", k("a")), ("Y", k("b")), ("Z", k("c"))])
    );
    let left = literals(vec![PyArcItem::new(CNFLiteral::new(source, true))]);
    let right = perform_substitution(
        &literals(vec![PyArcItem::new(CNFLiteral::new(target, true))]),
        &unification.target_substitutions,
    );
    assert_eq!(left, right);
}
