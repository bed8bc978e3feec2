use fuzzy_resolution::prover::operations::unify;
use fuzzy_resolution::prover::operations::Unification;
use fuzzy_resolution::prover::similarity::SIMILARITY_ONE;
use fuzzy_resolution::prover::LocalProofContext;
use fuzzy_resolution::prover::SharedProofContext;
use fuzzy_resolution::prover::SubstitutionsMap;
use fuzzy_resolution::types::Atom;
use fuzzy_resolution::types::Constant;
use fuzzy_resolution::types::Function;
use fuzzy_resolution::types::Predicate;
use fuzzy_resolution::types::Term;
use fuzzy_resolution::types::Variable;

fn pred1() -> Predicate {
    Predicate::new("pred1", None)
}

fn pred2() -> Predicate {
    Predicate::new("pred2", None)
}

fn const1() -> Constant {
    Constant::new("const1", None)
}

fn const2() -> Constant {
    Constant::new("const2", None)
}

fn func1() -> Function {
    Function::new("func1")
}

fn func2() -> Function {
    Function::new("func2")
}

fn x() -> Variable {
    Variable::new("X")
}

fn y() -> Variable {
    Variable::new("Y")
}

fn z() -> Variable {
    Variable::new("Z")
}

fn c(constant: Constant) -> Term {
    Term::Constant(constant)
}

fn v(variable: Variable) -> Term {
    Term::Variable(variable)
}

fn f(function: Function, terms: Vec<Term>) -> Term {
    Term::BoundFunction(function.bind(terms))
}

fn subs(entries: Vec<(Variable, Term)>) -> SubstitutionsMap {
    let mut map = SubstitutionsMap::new();
    for (variable, term) in entries {
        map.insert(variable, term);
    }
    map
}

/// The embeddings that the tests use, by identity.
fn embedding(id: u64) -> Vec<f64> {
    match id {
        1 => vec![1.0, 0.0, 1.0, 1.0],
        2 => vec![1.0, 0.0, 0.9, 1.0],
        3 => vec![0.0, 1.0, 1.0, 0.0],
        4 => vec![1.0, 0.0, 0.3, 1.0],
        _ => vec![],
    }
}

fn norm(a: &[f64]) -> f64 {
    a.iter().map(|x| x * x).sum::<f64>().sqrt()
}

/// Cosine similarity of the embeddings; equality of names where one is
/// missing.
fn cosine_similarity(a: &String, ea: Option<u64>, b: &String, eb: Option<u64>) -> u64 {
    let score = match (ea, eb) {
        (Some(i), Some(j)) => {
            let (p, q) = (embedding(i), embedding(j));
            let dot: f64 = p.iter().zip(q.iter()).map(|(x, y)| x * y).sum();
            dot / (norm(&p) * norm(&q))
        }
        _ => {
            if a == b {
                1.0
            } else {
                0.0
            }
        }
    };
    score.to_bits()
}

type Comparator = fn(&String, Option<u64>, &String, Option<u64>) -> u64;

const COSINE: Comparator = cosine_similarity;

fn run(source: &Atom, target: &Atom) -> Option<Unification> {
    let mut shared =
        SharedProofContext::new(0.5f64.to_bits(), None, true, None, Some(&COSINE));
    let mut ctx = LocalProofContext::new(&shared);
    unify(source, target, &mut ctx, &mut shared)
}

#[test]
fn test_unify_with_all_constants() {
    let source = pred1().atom(vec![c(const1()), c(const2())]);
    let target = pred1().atom(vec![c(const1()), c(const2())]);
    assert_eq!(
        run(&source, &target).unwrap(),
        Unification {
            source_substitutions: SubstitutionsMap::new(),
            target_substitutions: SubstitutionsMap::new(),
            similarity: SIMILARITY_ONE,
        }
    );
}

#[test]
fn test_unify_fails_if_preds_dont_match() {
    let source = pred1().atom(vec![c(const1()), c(const2())]);
    let target = pred2().atom(vec![c(const1()), c(const2())]);
    assert_eq!(run(&source, &target), None);
}

#[test]
fn test_unify_fails_if_terms_dont_match() {
    let source = pred1().atom(vec![c(const2()), c(const2())]);
    let target = pred1().atom(vec![c(const1()), c(const2())]);
    assert_eq!(run(&source, &target), None);
}

#[test]
fn test_unify_fails_if_functions_dont_match() {
    let source = pred1().atom(vec![f(func1(), vec![v(x())])]);
    let target = pred1().atom(vec![f(func2(), vec![v(y())])]);
    assert_eq!(run(&source, &target), None);
}

#[test]
fn test_unify_fails_if_functions_take_different_number_of_params() {
    let source = pred1().atom(vec![f(func1(), vec![v(x()), v(y())])]);
    let target = pred1().atom(vec![f(func1(), vec![v(x())])]);
    assert_eq!(run(&source, &target), None);
}

#[test]
fn test_unify_fails_if_terms_have_differing_lengths() {
    let source = pred1().atom(vec![c(const1())]);
    let target = pred1().atom(vec![c(const1()), c(const2())]);
    assert_eq!(run(&source, &target), None);
}

#[test]
fn test_unify_with_source_var_to_target_const() {
    let source = pred1().atom(vec![v(x()), c(const1())]);
    let target = pred1().atom(vec![c(const2()), c(const1())]);
    let expected_unification = Unification {
        source_substitutions: subs(vec![(x(), c(const2()))]),
        target_substitutions: SubstitutionsMap::new(),
        similarity: SIMILARITY_ONE,
    };
    assert_eq!(run(&source, &target).unwrap(), expected_unification);
}

#[test]
fn test_unify_with_source_const_to_target_var() {
    let source = pred1().atom(vec![c(const2()), c(const1())]);
    let target = pred1().atom(vec![v(x()), c(const1())]);
    let expected_unification = Unification {
        source_substitutions: SubstitutionsMap::new(),
        target_substitutions: subs(vec![(x(), c(const2()))]),
        similarity: SIMILARITY_ONE,
    };
    assert_eq!(run(&source, &target).unwrap(), expected_unification);
}

#[test]
fn test_unify_with_source_var_to_target_var() {
    let source = pred1().atom(vec![v(x()), c(const1())]);
    let target = pred1().atom(vec![v(y()), c(const1())]);
    let expected_unification = Unification {
        source_substitutions: SubstitutionsMap::new(),
        target_substitutions: subs(vec![(y(), v(x()))]),
        similarity: SIMILARITY_ONE,
    };
    assert_eq!(run(&source, &target).unwrap(), expected_unification);
}

#[test]
fn test_unify_with_repeated_vars_in_source() {
    let source = pred1().atom(vec![v(x()), v(x())]);
    let target = pred1().atom(vec![v(y()), c(const1())]);
    let expected_unification = Unification {
        source_substitutions: subs(vec![(x(), c(const1()))]),
        target_substitutions: subs(vec![(y(), c(const1()))]),
        similarity: SIMILARITY_ONE,
    };
    assert_eq!(run(&source, &target).unwrap(), expected_unification);
}

#[test]
fn test_unify_with_repeated_vars_in_target() {
    let source = pred1().atom(vec![v(x()), c(const1())]);
    let target = pred1().atom(vec![v(y()), v(y())]);
    let expected_unification = Unification {
        source_substitutions: subs(vec![(x(), c(const1()))]),
        target_substitutions: subs(vec![(y(), c(const1()))]),
        similarity: SIMILARITY_ONE,
    };
    assert_eq!(run(&source, &target).unwrap(), expected_unification);
}

#[test]
fn test_unify_fails_with_unfulfilable_constraints() {
    let source = pred1().atom(vec![v(x()), v(x())]);
    let target = pred1().atom(vec![c(const1()), c(const2())]);
    assert_eq!(run(&source, &target), None);
}

#[test]
fn test_unify_with_source_var_to_target_var_with_repeat_constants() {
    let source = pred1().atom(vec![v(x()), v(x()), v(x()), v(x())]);
    let target = pred1().atom(vec![c(const1()), v(y()), v(z()), c(const1())]);
    let expected_unification = Unification {
        source_substitutions: subs(vec![(x(), c(const1()))]),
        target_substitutions: subs(vec![(y(), c(const1())), (z(), c(const1()))]),
        similarity: SIMILARITY_ONE,
    };
    assert_eq!(run(&source, &target).unwrap(), expected_unification);
}

#[test]
fn test_unify_with_chained_vars() {
    let source = pred1().atom(vec![v(x()), v(x()), v(y()), v(y()), v(z()), v(z())]);
    let target = pred1().atom(vec![v(y()), v(x()), v(x()), v(z()), v(z()), c(const2())]);
    let expected_unification = Unification {
        source_substitutions: subs(vec![
            (x(), c(const2())),
            (y(), c(const2())),
            (z(), c(const2())),
        ]),
        target_substitutions: subs(vec![
            (x(), c(const2())),
            (y(), c(const2())),
            (z(), c(const2())),
        ]),
        similarity: SIMILARITY_ONE,
    };
    assert_eq!(run(&source, &target).unwrap(), expected_unification);
}

#[test]
fn test_unify_with_function_map_var_to_const() {
    let source = pred1().atom(vec![f(func1(), vec![v(x())])]);
    let target = pred1().atom(vec![f(func1(), vec![c(const1())])]);
    let expected_unification = Unification {
        source_substitutions: subs(vec![(x(), c(const1()))]),
        target_substitutions: SubstitutionsMap::new(),
        similarity: SIMILARITY_ONE,
    };
    assert_eq!(run(&source, &target).unwrap(), expected_unification);
}

#[test]
fn test_unify_with_function_map_var_to_var() {
    let source = pred1().atom(vec![f(func1(), vec![v(x())])]);
    let target = pred1().atom(vec![f(func1(), vec![v(y())])]);
    let expected_unification = Unification {
        source_substitutions: SubstitutionsMap::new(),
        target_substitutions: subs(vec![(y(), v(x()))]),
        similarity: SIMILARITY_ONE,
    };
    assert_eq!(run(&source, &target).unwrap(), expected_unification);
}

#[test]
fn test_unify_with_function_map_var_to_var_with_repeat_constants() {
    let source = pred1().atom(vec![f(func1(), vec![v(x()), v(x())])]);
    let target = pred1().atom(vec![f(func1(), vec![c(const1()), v(y())])]);
    let expected_unification = Unification {
        source_substitutions: subs(vec![(x(), c(const1()))]),
        target_substitutions: subs(vec![(y(), c(const1()))]),
        similarity: SIMILARITY_ONE,
    };
    assert_eq!(run(&source, &target).unwrap(), expected_unification);
}

#[test]
fn test_unify_with_function_map_var_to_var_with_repeat_constants2() {
    let source = pred1().atom(vec![f(func1(), vec![c(const1()), v(y())])]);
    let target = pred1().atom(vec![f(func1(), vec![v(x()), v(x())])]);
    let expected_unification = Unification {
        source_substitutions: subs(vec![(y(), c(const1()))]),
        target_substitutions: subs(vec![(x(), c(const1()))]),
        similarity: SIMILARITY_ONE,
    };
    assert_eq!(run(&source, &target).unwrap(), expected_unification);
}

#[test]
fn test_unify_bind_nested_function_var() {
    let source = pred1().atom(vec![f(func1(), vec![v(x())])]);
    let target = pred1().atom(vec![f(func1(), vec![f(func2(), vec![c(const1())])])]);
    let expected_unification = Unification {
        source_substitutions: subs(vec![(x(), f(func2(), vec![c(const1())]))]),
        target_substitutions: SubstitutionsMap::new(),
        similarity: SIMILARITY_ONE,
    };
    assert_eq!(run(&source, &target).unwrap(), expected_unification);
}

#[test]
fn test_unify_fails_to_bind_reciprocal_functions() {
    let source = pred1().atom(vec![f(func1(), vec![v(x())]), v(x())]);
    let target = pred1().atom(vec![v(y()), f(func1(), vec![v(y())])]);
    assert_eq!(run(&source, &target), None);
}

#[test]
fn test_unify_with_predicate_vector_embeddings() {
    let vec_pred1 = Predicate::new("pred1", Some(1));
    let vec_pred2 = Predicate::new("pred2", Some(2));
    let source = vec_pred1.atom(vec![v(x())]);
    let target = vec_pred2.atom(vec![c(const1())]);
    let unification = run(&source, &target).unwrap();
    assert_eq!(unification.source_substitutions, subs(vec![(x(), c(const1()))]));
    assert_eq!(unification.target_substitutions, SubstitutionsMap::new());
    let similarity = f64::from_bits(unification.similarity);
    assert!(similarity > 0.9 && similarity < 1.0);
}

#[test]
fn test_unify_fails_with_dissimilar_predicate_vector_embeddings() {
    let vec_pred1 = Predicate::new("pred1", Some(3));
    let vec_pred2 = Predicate::new("pred2", Some(4));
    let source = vec_pred1.atom(vec![v(x())]);
    let target = vec_pred2.atom(vec![c(const1())]);
    assert_eq!(run(&source, &target), None);
}

#[test]
fn test_unify_with_constant_vector_embeddings() {
    let vec_const1 = Constant::new("const1", Some(1));
    let vec_const2 = Constant::new("const2", Some(2));
    let source = pred1().atom(vec![c(vec_const1)]);
    let target = pred1().atom(vec![c(vec_const2)]);
    let unification = run(&source, &target).unwrap();
    assert_eq!(unification.source_substitutions, SubstitutionsMap::new());
    assert_eq!(unification.target_substitutions, SubstitutionsMap::new());
    let similarity = f64::from_bits(unification.similarity);
    assert!(similarity > 0.9 && similarity < 1.0);
}

#[test]
fn test_unify_fails_with_dissimilar_constant_vector_embeddings() {
    let vec_const1 = Constant::new("const1", Some(3));
    let vec_const2 = Constant::new("const2", Some(4));
    let source = pred1().atom(vec![c(vec_const1)]);
    let target = pred1().atom(vec![c(vec_const2)]);
    assert_eq!(run(&source, &target), None);
}
