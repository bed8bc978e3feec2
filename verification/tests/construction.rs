use fuzzy_resolution::prover::operations::fresh_names::PatternError;
use fuzzy_resolution::prover::operations::fresh_names::VarNamePattern;
use fuzzy_resolution::prover::similarity::SIMILARITY_ONE;
use fuzzy_resolution::prover::ResolutionProverBackend;
use fuzzy_resolution::types::CNFDisjunction;
use fuzzy_resolution::types::CNFLiteral;
use fuzzy_resolution::types::Constant;
use fuzzy_resolution::types::Predicate;
use fuzzy_resolution::types::Term;
use fuzzy_resolution::types::Variable;
use fuzzy_resolution::util::ClauseSet;
use fuzzy_resolution::util::LiteralSet;
use fuzzy_resolution::util::PyArcItem;

type Comparator = fn(&String, Option<u64>, &String, Option<u64>) -> u64;

fn exact(a: &String, _ea: Option<u64>, b: &String, _eb: Option<u64>) -> u64 {
    if a == b {
        SIMILARITY_ONE
    } else {
        0
    }
}

const EXACT: Comparator = exact;

fn lit(predicate: &str, terms: Vec<Term>, polarity: bool) -> PyArcItem<CNFLiteral> {
    PyArcItem::new(CNFLiteral::new(Predicate::new(predicate, None).atom(terms), polarity))
}

fn clause(literals: Vec<PyArcItem<CNFLiteral>>) -> CNFDisjunction {
    CNFDisjunction::new(LiteralSet::from_vec(literals))
}

fn knowledge() -> ClauseSet {
    let mut set = ClauseSet::new();
    set.insert(PyArcItem::new(clause(vec![
        lit("p", vec![Term::from(Variable::new("X"))], true),
        lit("q", vec![Term::from(Variable::new("X"))], true),
    ])));
    set.insert(PyArcItem::new(clause(vec![lit(
        "q",
        vec![Term::from(Constant::new("a", None))],
        false,
    )])));
    set
}

#[test]
fn a_failed_compilation_becomes_a_pattern_error() {
    let error = regex::Regex::new("(").unwrap_err();
    let res = VarNamePattern::from_compiled(Err(error));
    assert!(matches!(res, Err(PatternError {})));
}

#[test]
fn a_compiled_pattern_is_handed_on_as_it_is() {
    let compiled = VarNamePattern::new();
    assert!(compiled.is_ok());
    let res = VarNamePattern::from_compiled(Ok(compiled.ok().unwrap()));
    assert!(res.is_ok());
    let pattern = res.ok().unwrap();
    assert_eq!(pattern.strip("X_12"), "X");
    assert_eq!(pattern.strip("X_12_y"), "X_12_y");
    assert_eq!(pattern.strip("plain"), "plain");
}

#[test]
fn a_prover_holds_what_it_was_made_with() {
    let base = knowledge();
    let pattern = VarNamePattern::new().ok().unwrap();
    let prover = ResolutionProverBackend::with_pattern(
        7,
        Some(3),
        Some(11),
        Some(EXACT),
        0.25f64.to_bits(),
        true,
        false,
        true,
        base.clone(),
        4,
        9,
        pattern,
    );
    assert_eq!(prover.min_similarity_threshold, 0.25f64.to_bits());
    assert!(prover.similarity_fn.is_some());
    assert!(prover.similarity_cache.is_some());
    assert_eq!(prover.base_knowledge, base);
    assert_eq!(prover.num_workers, 4);
    assert_eq!(prover.config.max_proof_depth, 7);
    assert_eq!(prover.config.max_resolvent_width, Some(3));
    assert_eq!(prover.config.max_resolution_attempts, Some(11));
    assert!(!prover.config.skip_seen_resolvents);
    assert!(prover.config.find_highest_similarity_proofs);
    assert_eq!(prover.config.eval_batch_size, 9);
    assert_eq!(prover.var_name_pattern.strip("Y_3"), "Y");
}

#[test]
fn a_prover_without_a_cache_has_none() {
    let pattern = VarNamePattern::new().ok().unwrap();
    let prover: ResolutionProverBackend<Comparator> = ResolutionProverBackend::with_pattern(
        1,
        None,
        None,
        None,
        SIMILARITY_ONE,
        false,
        true,
        false,
        ClauseSet::new(),
        1,
        1,
        pattern,
    );
    assert!(prover.similarity_cache.is_none());
    assert!(prover.similarity_fn.is_none());
    assert_eq!(prover.base_knowledge.len(), 0);
    assert_eq!(prover.config.max_resolvent_width, None);
    assert_eq!(prover.config.max_resolution_attempts, None);
    assert!(prover.config.skip_seen_resolvents);
}

#[test]
fn both_ways_of_making_a_prover_find_the_same_proofs() {
    let goal = clause(vec![lit("p", vec![Term::from(Constant::new("a", None))], false)]);
    let made = ResolutionProverBackend::new(
        10,
        None,
        None,
        Some(EXACT),
        0.5f64.to_bits(),
        true,
        true,
        false,
        knowledge(),
        1,
        100,
    );
    assert!(made.is_ok());
    let mut first = made.ok().unwrap();
    assert!(first.similarity_cache.is_some());
    assert_eq!(first.config.max_proof_depth, 10);
    assert_eq!(first.config.eval_batch_size, 100);
    assert_eq!(first.var_name_pattern.strip("X_7"), "X");
    let mut second = ResolutionProverBackend::with_pattern(
        10,
        None,
        None,
        Some(EXACT),
        0.5f64.to_bits(),
        true,
        true,
        false,
        knowledge(),
        1,
        100,
        VarNamePattern::new().ok().unwrap(),
    );
    let (proofs_a, stats_a) = first.prove_all_with_stats(vec![goal.clone()], None, None, None);
    let (proofs_b, stats_b) = second.prove_all_with_stats(vec![goal], None, None, None);
    assert_eq!(proofs_a.len(), 1);
    assert_eq!(proofs_a.len(), proofs_b.len());
    assert_eq!(proofs_a[0].depth(), 2);
    assert_eq!(proofs_a[0].similarity, proofs_b[0].similarity);
    assert_eq!(stats_a, stats_b);
}
