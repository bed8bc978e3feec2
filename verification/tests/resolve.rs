use fuzzy_resolution::prover::operations::fresh_names::VarNamePattern;
use fuzzy_resolution::prover::operations::resolve::build_resolvent;
use fuzzy_resolution::prover::operations::resolve::find_non_overlapping_var_names;
use fuzzy_resolution::prover::operations::resolve::find_unused_variables;
use fuzzy_resolution::prover::operations::resolve::perform_substitution;
use fuzzy_resolution::prover::operations::resolve::rename_variables_in_literals;
use fuzzy_resolution::prover::operations::Unification;
use fuzzy_resolution::prover::similarity::SIMILARITY_ONE;
use fuzzy_resolution::prover::SubstitutionsMap;
use fuzzy_resolution::types::Atom;
use fuzzy_resolution::types::CNFDisjunction;
use fuzzy_resolution::types::CNFLiteral;
use fuzzy_resolution::types::Constant;
use fuzzy_resolution::types::Predicate;
use fuzzy_resolution::types::Term;
use fuzzy_resolution::types::Variable;
use fuzzy_resolution::util::LiteralSet;
use fuzzy_resolution::util::PyArcItem;
use fuzzy_resolution::util::VariableSet;

fn pred1() -> Predicate {
    Predicate::new("pred1", None)
}

fn pred2() -> Predicate {
    Predicate::new("pred2", None)
}

fn const1() -> Constant {
    Constant::new("const1", None)
}

fn const2() -> Constant {
    Constant::new("const2", None)
}

fn x() -> Variable {
    Variable::new("X")
}

fn y() -> Variable {
    Variable::new("Y")
}

fn z() -> Variable {
    Variable::new("Z")
}

fn a() -> Variable {
    Variable::new("A")
}

fn b() -> Variable {
    Variable::new("B")
}

fn c() -> Variable {
    Variable::new("C")
}

fn k(constant: Constant) -> Term {
    Term::Constant(constant)
}

fn v(variable: Variable) -> Term {
    Term::Variable(variable)
}

fn lit(atom: Atom, polarity: bool) -> PyArcItem<CNFLiteral> {
    PyArcItem::new(CNFLiteral::new(atom, polarity))
}

fn literals(items: Vec<PyArcItem<CNFLiteral>>) -> LiteralSet {
    LiteralSet::from_vec(items)
}

fn variables(items: Vec<Variable>) -> VariableSet {
    let mut set = VariableSet::new();
    for variable in items {
        set.insert(variable);
    }
    set
}

fn union(first: &VariableSet, second: &VariableSet, more: Vec<Variable>) -> VariableSet {
    let mut all = first.clone();
    for i in 0..second.len() {
        all.insert(second.get(i).clone());
    }
    for variable in more {
        all.insert(variable);
    }
    all
}

fn subs(entries: Vec<(Variable, Term)>) -> SubstitutionsMap {
    let mut map = SubstitutionsMap::new();
    for (variable, term) in entries {
        map.insert(variable, term);
    }
    map
}

fn pattern() -> VarNamePattern {
    VarNamePattern::new().unwrap()
}

#[test]
fn test_find_unused_variables() {
    let literals = literals(vec![
        lit(Atom::new(pred1(), vec![v(x()), k(const1())]), true),
        lit(Atom::new(pred2(), vec![v(y())]), false),
    ]);
    assert_eq!(
        find_unused_variables(&literals, &SubstitutionsMap::new()),
        variables(vec![x(), y()])
    );
    assert_eq!(
        find_unused_variables(&literals, &subs(vec![(y(), k(const1()))])),
        variables(vec![x()])
    );
    assert_eq!(
        find_unused_variables(
            &literals,
            &subs(vec![(y(), k(const1())), (x(), k(const2()))])
        ),
        variables(vec![])
    );
}

#[test]
fn test_find_non_overlapping_var_names_leaves_vars_unchanged_if_no_overlaps() {
    let source_vars = variables(vec![x(), y(), z()]);
    let target_vars = variables(vec![a(), b(), c()]);
    let mut all_vars = union(&source_vars, &target_vars, vec![]);
    assert_eq!(
        find_non_overlapping_var_names(&source_vars, &target_vars, &mut all_vars, &pattern()),
        SubstitutionsMap::new()
    );
}

#[test]
fn test_find_non_overlapping_var_names_renames_vars_if_overlaps() {
    let source_vars = variables(vec![x(), y(), z()]);
    let target_vars = variables(vec![a(), b(), x()]);
    let mut all_vars = union(&source_vars, &target_vars, vec![]);
    assert_eq!(
        find_non_overlapping_var_names(&source_vars, &target_vars, &mut all_vars, &pattern()),
        subs(vec![(x(), v(Variable::new("X_1")))])
    );
}

#[test]
fn test_find_non_overlapping_keeps_iterating_var_names_until_a_non_bound_one_is_found() {
    let source_vars = variables(vec![x(), y(), z()]);
    let target_vars = variables(vec![a(), b(), x()]);
    let mut all_vars = union(
        &source_vars,
        &target_vars,
        vec![Variable::new("X_1"), Variable::new("X_2")],
    );
    assert_eq!(
        find_non_overlapping_var_names(&source_vars, &target_vars, &mut all_vars, &pattern()),
        subs(vec![(x(), v(Variable::new("X_3")))])
    );
}

#[test]
fn test_rename_variables_in_literals() {
    let literals_before = literals(vec![
        lit(pred1().atom(vec![v(x()), k(const1())]), true),
        lit(pred2().atom(vec![v(y())]), false),
    ]);
    let rename_vars_map = subs(vec![
        (x(), v(Variable::new("X_1"))),
        (y(), v(Variable::new("Y_1"))),
    ]);
    let renamed_literals = rename_variables_in_literals(&literals_before, &rename_vars_map);
    assert_eq!(
        renamed_literals,
        literals(vec![
            lit(pred1().atom(vec![v(Variable::new("X_1")), k(const1())]), true),
            lit(pred2().atom(vec![v(Variable::new("Y_1"))]), false),
        ])
    );
}

#[test]
fn test_perform_substitution_basic() {
    let literals_before = literals(vec![
        lit(pred1().atom(vec![v(x()), k(const1())]), true),
        lit(pred2().atom(vec![v(y())]), false),
    ]);
    let substitutions = subs(vec![(x(), k(const2())), (y(), k(const1()))]);
    let substituted_literals = perform_substitution(&literals_before, &substitutions);
    assert_eq!(
        substituted_literals,
        literals(vec![
            lit(pred1().atom(vec![k(const2()), k(const1())]), true),
            lit(pred2().atom(vec![k(const1())]), false),
        ])
    );
}

#[test]
fn test_perform_substitution_with_repeated_vars() {
    let literals_before = literals(vec![lit(pred1().atom(vec![v(x()), v(y())]), true)]);
    let substitutions = subs(vec![(x(), v(y())), (y(), k(const2()))]);
    let substituted_literals = perform_substitution(&literals_before, &substitutions);
    assert_eq!(
        substituted_literals,
        literals(vec![lit(pred1().atom(vec![v(y()), k(const2())]), true)])
    );
}

#[test]
fn test_build_resolvent() {
    let source_literal = lit(pred2().atom(vec![v(y()), k(const2())]), false);
    let target_literal = lit(pred2().atom(vec![k(const1()), v(x())]), true);

    let source_literals = literals(vec![
        source_literal.clone(),
        lit(pred1().atom(vec![v(y()), k(const1())]), true),
    ]);
    let source_disjunction = PyArcItem::new(CNFDisjunction::new(source_literals));
    let target_literals = literals(vec![
        target_literal.clone(),
        lit(pred2().atom(vec![k(const2()), v(x())]), false),
    ]);
    let target_disjunction = PyArcItem::new(CNFDisjunction::new(target_literals));
    let unification = Unification {
        similarity: SIMILARITY_ONE,
        source_substitutions: subs(vec![(y(), k(const1()))]),
        target_substitutions: subs(vec![(x(), k(const2()))]),
    };
    let resolvent = build_resolvent(
        &source_disjunction,
        &target_disjunction,
        &source_literal,
        &target_literal,
        &unification,
        &pattern(),
    );

    let expected_literals = literals(vec![
        lit(pred1().atom(vec![k(const1()), k(const1())]), true),
        lit(pred2().atom(vec![k(const2()), k(const2())]), false),
    ]);
    assert_eq!(resolvent, PyArcItem::new(CNFDisjunction::new(expected_literals)));
}

#[test]
fn test_build_resolvent_with_similar_predicates_with_embeddings() {
    // two predicates of one name whose embeddings differ
    let p1 = Predicate::new("p1", Some(1));
    let p1_same_name = Predicate::new("p1", Some(2));

    let source_literal = lit(p1.atom(vec![v(y()), k(const2())]), false);
    let target_literal = lit(p1.atom(vec![k(const1()), v(x())]), true);

    let source_literals = literals(vec![
        source_literal.clone(),
        lit(p1_same_name.atom(vec![v(y()), k(const1())]), true),
    ]);
    let source_disjunction = PyArcItem::new(CNFDisjunction::new(source_literals));
    let target_literals = literals(vec![
        target_literal.clone(),
        lit(pred2().atom(vec![k(const2()), v(x())]), false),
    ]);
    let target_disjunction = PyArcItem::new(CNFDisjunction::new(target_literals));
    let unification = Unification {
        similarity: SIMILARITY_ONE,
        source_substitutions: subs(vec![(y(), k(const1()))]),
        target_substitutions: subs(vec![(x(), k(const2()))]),
    };
    let resolvent = build_resolvent(
        &source_disjunction,
        &target_disjunction,
        &source_literal,
        &target_literal,
        &unification,
        &pattern(),
    );

    let expected_literals = literals(vec![
        lit(p1_same_name.atom(vec![k(const1()), k(const1())]), true),
        lit(pred2().atom(vec![k(const2()), k(const2())]), false),
    ]);
    assert_eq!(resolvent, PyArcItem::new(CNFDisjunction::new(expected_literals)));
}

#[test]
fn variables_that_both_clauses_keep_are_renamed_in_the_target() {
    // source p(X) or r(X), target not p(a) or r(X): the two r-literals stay apart
    let p = Predicate::new("p", None);
    let r = Predicate::new("r", None);
    let a = Constant::new("a", None);
    let source_literal = lit(p.atom(vec![v(x())]), true);
    let target_literal = lit(p.atom(vec![k(a.clone())]), false);
    let source = PyArcItem::new(CNFDisjunction::new(literals(vec![
        source_literal.clone(),
        lit(r.atom(vec![v(x())]), true),
    ])));
    let target = PyArcItem::new(CNFDisjunction::new(literals(vec![
        target_literal.clone(),
        lit(r.atom(vec![v(x())]), true),
    ])));
    let unification = Unification {
        similarity: SIMILARITY_ONE,
        source_substitutions: subs(vec![(x(), k(a.clone()))]),
        target_substitutions: SubstitutionsMap::new(),
    };
    let resolvent = build_resolvent(
        &source,
        &target,
        &source_literal,
        &target_literal,
        &unification,
        &pattern(),
    );
    // X is no unused variable of the source, since the source's substitution maps it;
    // so nothing overlaps and the target keeps its X
    let expected = literals(vec![
        lit(r.atom(vec![k(a.clone())]), true),
        lit(r.atom(vec![v(x())]), true),
    ]);
    assert_eq!(resolvent, PyArcItem::new(CNFDisjunction::new(expected)));

    // with the binding on the target's side, both clauses keep X and the target's is renamed
    let source_literal = lit(p.atom(vec![k(a.clone())]), true);
    let target_literal = lit(p.atom(vec![v(y())]), false);
    let source = PyArcItem::new(CNFDisjunction::new(literals(vec![
        source_literal.clone(),
        lit(r.atom(vec![v(x())]), true),
    ])));
    let target = PyArcItem::new(CNFDisjunction::new(literals(vec![
        target_literal.clone(),
        lit(r.atom(vec![v(x()), v(y())]), true),
    ])));
    let unification = Unification {
        similarity: SIMILARITY_ONE,
        source_substitutions: SubstitutionsMap::new(),
        target_substitutions: subs(vec![(y(), k(a.clone()))]),
    };
    let resolvent = build_resolvent(
        &source,
        &target,
        &source_literal,
        &target_literal,
        &unification,
        &pattern(),
    );
    let expected = literals(vec![
        lit(r.atom(vec![v(x())]), true),
        lit(r.atom(vec![v(Variable::new("X_1")), k(a)]), true),
    ]);
    assert_eq!(resolvent, PyArcItem::new(CNFDisjunction::new(expected)));
}

#[test]
fn a_numbered_suffix_is_replaced_not_repeated() {
    let source_vars = variables(vec![Variable::new("X_7")]);
    let target_vars = variables(vec![Variable::new("X_7")]);
    let mut all_vars = union(&source_vars, &target_vars, vec![Variable::new("X_1")]);
    assert_eq!(
        find_non_overlapping_var_names(&source_vars, &target_vars, &mut all_vars, &pattern()),
        subs(vec![(Variable::new("X_7"), v(Variable::new("X_2")))])
    );
    assert!(all_vars.contains(&Variable::new("X_2")));
    assert_eq!(pattern().strip("X_12"), "X");
    assert_eq!(pattern().strip("X_1_2"), "X_1");
    assert_eq!(pattern().strip("X_"), "X_");
    assert_eq!(pattern().strip("X"), "X");
}
