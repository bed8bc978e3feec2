use fuzzy_resolution::prover::similarity::SIMILARITY_ONE;
use fuzzy_resolution::prover::FrozenProofStats;
use fuzzy_resolution::prover::Proof;
use fuzzy_resolution::prover::ResolutionProverBackend;
use fuzzy_resolution::prover::SubstitutionsMap;
use fuzzy_resolution::types::CNFDisjunction;
use fuzzy_resolution::types::CNFLiteral;
use fuzzy_resolution::types::Constant;
use fuzzy_resolution::types::Function;
use fuzzy_resolution::types::Predicate;
use fuzzy_resolution::types::Term;
use fuzzy_resolution::types::Variable;
use fuzzy_resolution::util::ClauseSet;
use fuzzy_resolution::util::LiteralSet;
use fuzzy_resolution::util::PyArcItem;

type Comparator = fn(&String, Option<u64>, &String, Option<u64>) -> u64;

fn k(name: &str) -> Term {
    Term::Constant(Constant::new(name, None))
}

fn v(name: &str) -> Term {
    Term::Variable(Variable::new(name))
}

fn f(name: &str, terms: Vec<Term>) -> Term {
    Term::BoundFunction(Function::new(name).bind(terms))
}

fn lit(predicate: &str, terms: Vec<Term>, polarity: bool) -> PyArcItem<CNFLiteral> {
    PyArcItem::new(CNFLiteral::new(Predicate::new(predicate, None).atom(terms), polarity))
}

fn clause(literals: Vec<PyArcItem<CNFLiteral>>) -> CNFDisjunction {
    CNFDisjunction::new(LiteralSet::from_vec(literals))
}

fn clauses(items: Vec<CNFDisjunction>) -> ClauseSet {
    let mut set = ClauseSet::new();
    for item in items {
        set.insert(PyArcItem::new(item));
    }
    set
}

/// Names that begin alike are similar: `g` scores 0.9 with `g1`, 0.7 with
/// `g2`, 0.6 with `g3` and 0.4 with `g4`; equal names score 1, all others 0.
fn by_name(a: &String, _ea: Option<u64>, b: &String, _eb: Option<u64>) -> u64 {
    let pair = if a <= b { (a.as_str(), b.as_str()) } else { (b.as_str(), a.as_str()) };
    let score: f64 = match pair {
        ("g", "g1") => 0.9,
        ("g", "g2") => 0.7,
        ("g", "g3") => 0.6,
        ("g", "g4") => 0.4,
        ("p1", "p2") => 0.4,
        (x, y) if x == y => 1.0,
        _ => 0.0,
    };
    score.to_bits()
}

const BY_NAME: Comparator = by_name;

fn make_prover(
    max_proof_depth: usize,
    knowledge: Vec<CNFDisjunction>,
    find_highest_similarity_proofs: bool,
    eval_batch_size: usize,
) -> ResolutionProverBackend<Comparator> {
    ResolutionProverBackend::new(
        max_proof_depth,
        None,
        None,
        Some(BY_NAME),
        0.5f64.to_bits(),
        true,
        true,
        find_highest_similarity_proofs,
        clauses(knowledge),
        1,
        eval_batch_size,
    )
    .unwrap()
}

fn similarities(proofs: &[Proof]) -> Vec<f64> {
    proofs.iter().map(|p| f64::from_bits(p.similarity)).collect()
}

#[test]
fn classical_refutation_takes_two_steps() {
    let knowledge = vec![
        clause(vec![lit("p", vec![v("X")], true), lit("q", vec![v("X")], true)]),
        clause(vec![lit("q", vec![k("a")], false)]),
    ];
    let goal = clause(vec![lit("p", vec![k("a")], false)]);
    let mut prover = make_prover(10, knowledge, false, 100);
    let (proofs, stats) = prover.prove_all_with_stats(vec![goal.clone()], None, None, None);
    assert_eq!(proofs.len(), 1);
    let found = &proofs[0];
    assert_eq!(found.depth(), 2);
    assert_eq!(found.similarity, SIMILARITY_ONE);
    assert_eq!(found.goal, goal);
    let steps = found.proof_steps();
    assert_eq!(steps.len(), 2);
    let mut x_to_a = SubstitutionsMap::new();
    x_to_a.insert(Variable::new("X"), k("a"));
    assert_eq!(steps[0].target_substitutions, x_to_a);
    assert_eq!(steps[0].source_substitutions, SubstitutionsMap::new());
    assert_eq!(*steps[0].resolvent.item, clause(vec![lit("q", vec![k("a")], true)]));
    assert_eq!(steps[0].depth, 0);
    assert_eq!(steps[1].depth, 1);
    assert!(steps[1].resolvent.item.literals.is_empty());
    assert_eq!(steps[1].running_similarity, SIMILARITY_ONE);
    // the goal has no variables, so the proof maps none
    assert_eq!(found.substitutions(), SubstitutionsMap::new());
    assert!(stats.attempted_unifications >= 2);
    assert_eq!(stats.successful_unifications, 2);
    assert_eq!(stats.attempted_resolutions, 6);
    assert_eq!(stats.successful_resolutions, 2);
    assert_eq!(stats.max_depth_seen, 1);
    assert_eq!(stats.max_resolvent_width_seen, 1);
    assert_eq!(stats.discarded_proofs, 0);
}

#[test]
fn a_proof_maps_the_variables_of_its_goal() {
    let knowledge = vec![
        clause(vec![lit("p", vec![v("Y")], true), lit("q", vec![v("Y")], false)]),
        clause(vec![lit("q", vec![k("a")], true)]),
    ];
    let goal = clause(vec![lit("p", vec![f("h", vec![v("X")])], false)]);
    let mut prover = make_prover(10, knowledge, false, 100);
    let (proofs, _) = prover.prove_all_with_stats(vec![goal], None, None, None);
    // p(Y) meets p(h(X)); then q(h(X)) meets q(a), which does not unify
    assert_eq!(proofs.len(), 0);

    let knowledge = vec![
        clause(vec![lit("p", vec![v("Y")], true), lit("q", vec![v("Y")], false)]),
        clause(vec![lit("q", vec![k("a")], true)]),
    ];
    let goal = clause(vec![lit("p", vec![v("X")], false)]);
    let mut prover = make_prover(10, knowledge, false, 100);
    let (proofs, _) = prover.prove_all_with_stats(vec![goal], None, None, None);
    assert_eq!(proofs.len(), 1);
    // X stands for the clause's Y after the first step and for a after the second
    let mut expected = SubstitutionsMap::new();
    expected.insert(Variable::new("X"), k("a"));
    let steps = proofs[0].proof_steps();
    assert_eq!(steps.len(), 2);
    assert_eq!(proofs[0].substitutions(), expected);
}

#[test]
fn a_similarity_below_the_floor_unifies_nothing() {
    let knowledge = vec![clause(vec![lit("p2", vec![k("a")], true)])];
    let goal = clause(vec![lit("p1", vec![k("a")], false)]);
    let mut prover = make_prover(10, knowledge, false, 100);
    let (proofs, stats) = prover.prove_all_with_stats(vec![goal], None, None, None);
    assert_eq!(proofs.len(), 0);
    assert!(stats.attempted_unifications >= 1);
    assert_eq!(stats.successful_unifications, 0);
    assert_eq!(stats.similarity_comparisons, 1);
}

#[test]
fn the_best_proofs_are_kept_when_more_are_found_than_asked_for() {
    let knowledge = vec![
        clause(vec![lit("g1", vec![k("a")], true)]),
        clause(vec![lit("g2", vec![k("a")], true)]),
        clause(vec![lit("g3", vec![k("a")], true)]),
        clause(vec![lit("g4", vec![k("a")], true)]),
    ];
    let goal = clause(vec![lit("g", vec![k("a")], false)]);
    let mut all = make_prover(10, knowledge.clone(), true, 100);
    let (proofs, stats) = all.prove_all_with_stats(vec![goal.clone()], None, None, None);
    assert_eq!(similarities(&proofs), vec![0.9, 0.7, 0.6]);
    assert_eq!(stats.discarded_proofs, 0);

    let mut best = make_prover(10, knowledge.clone(), true, 100);
    let (proofs, stats) = best.prove_all_with_stats(vec![goal.clone()], None, Some(2), None);
    assert_eq!(similarities(&proofs), vec![0.9, 0.7]);
    assert_eq!(stats.discarded_proofs, 1);

    // without the search for better proofs the first two found are the answer
    let mut first = make_prover(10, knowledge, false, 100);
    let (proofs, _) = first.prove_all_with_stats(vec![goal], None, Some(2), None);
    assert_eq!(proofs.len(), 2);
    assert!(proofs[0].similarity >= proofs[1].similarity);
}

#[test]
fn a_variable_is_not_bound_to_a_term_that_holds_it() {
    // X against Y and then X against f(Y, a): X would have to be f(X, a)
    let knowledge = vec![clause(vec![lit(
        "p",
        vec![v("Y"), f("f", vec![v("Y"), k("a")])],
        true,
    )])];
    let goal = clause(vec![lit("p", vec![v("X"), v("X")], false)]);
    let mut prover = make_prover(10, knowledge, false, 100);
    let (proofs, stats) = prover.prove_all_with_stats(vec![goal], None, None, None);
    assert_eq!(proofs.len(), 0);
    assert_eq!(stats.successful_unifications, 0);
    assert_eq!(stats.attempted_unifications, 1);
}

#[test]
fn an_empty_resolvent_is_recorded_once() {
    let knowledge = vec![clause(vec![lit("p", vec![k("a")], true)])];
    let goal = clause(vec![lit("p", vec![k("a")], false)]);
    let mut prover = make_prover(10, knowledge, true, 100);
    let (proofs, _) = prover.prove_all_with_stats(vec![goal], None, None, None);
    assert_eq!(proofs.len(), 1);
    assert!(proofs[0].depth() >= 1);
    assert_eq!(proofs[0].proof_steps().len(), 1);
}

#[test]
fn no_goals_give_no_proofs_and_no_counts() {
    let knowledge = vec![clause(vec![lit("p", vec![k("a")], true)])];
    let mut prover = make_prover(10, knowledge, false, 100);
    let (proofs, stats) = prover.prove_all_with_stats(vec![], None, None, None);
    assert_eq!(proofs.len(), 0);
    assert_eq!(stats, FrozenProofStats::new());
}

fn chain_knowledge() -> Vec<CNFDisjunction> {
    vec![
        clause(vec![lit("a", vec![v("X")], true), lit("b", vec![v("X")], false)]),
        clause(vec![lit("b", vec![v("X")], true), lit("c", vec![v("X")], false)]),
        clause(vec![lit("c", vec![v("X")], true), lit("d", vec![v("X")], false)]),
        clause(vec![lit("d", vec![k("k")], true)]),
        clause(vec![lit("b", vec![k("k")], true)]),
    ]
}

#[test]
fn the_same_search_gives_the_same_answer() {
    let goal = clause(vec![lit("a", vec![k("k")], false)]);
    let mut first = make_prover(10, chain_knowledge(), true, 2);
    let mut second = make_prover(10, chain_knowledge(), true, 2);
    let (proofs1, stats1) = first.prove_all_with_stats(vec![goal.clone()], None, None, None);
    let (proofs2, stats2) = second.prove_all_with_stats(vec![goal.clone()], None, None, None);
    assert_eq!(proofs1.len(), 2);
    assert_eq!(proofs1.len(), proofs2.len());
    for (p, q) in proofs1.iter().zip(proofs2.iter()) {
        assert_eq!(p.similarity, q.similarity);
        assert_eq!(p.goal, q.goal);
        assert_eq!(p.proof_steps(), q.proof_steps());
        assert_eq!(p.stats, q.stats);
    }
    assert_eq!(stats1, stats2);
    // and a second search of the same prover finds the same proofs
    let (proofs3, _) = first.prove_all_with_stats(vec![goal], None, None, None);
    assert_eq!(proofs3.len(), proofs1.len());
    for (p, q) in proofs1.iter().zip(proofs3.iter()) {
        assert_eq!(p.proof_steps(), q.proof_steps());
    }
}

#[test]
fn the_depth_bound_cuts_long_proofs() {
    let goal = clause(vec![lit("a", vec![k("k")], false)]);
    let mut deep = make_prover(10, chain_knowledge(), true, 100);
    let (proofs, _) = deep.prove_all_with_stats(vec![goal.clone()], None, None, None);
    let depths: Vec<usize> = proofs.iter().map(|p| p.depth()).collect();
    assert_eq!(depths, vec![2, 4]);
    for found in proofs.iter() {
        let steps = found.proof_steps();
        let lowest = steps.iter().map(|s| s.similarity).min().unwrap();
        assert_eq!(found.similarity, lowest);
        assert_eq!(found.similarity, found.leaf_proof_step.running_similarity);
    }
    // a goal that was reached in two steps is still expanded under a bound of
    // three, and what it then yields is not, unless it ends the proof
    let mut middle = make_prover(3, chain_knowledge(), true, 100);
    let (proofs, _) = middle.prove_all_with_stats(vec![goal.clone()], None, None, None);
    let depths: Vec<usize> = proofs.iter().map(|p| p.depth()).collect();
    assert_eq!(depths, vec![2, 4]);
    let mut shallow = make_prover(2, chain_knowledge(), true, 100);
    let (proofs, _) = shallow.prove_all_with_stats(vec![goal.clone()], None, None, None);
    let depths: Vec<usize> = proofs.iter().map(|p| p.depth()).collect();
    assert_eq!(depths, vec![2]);
    let mut flat = make_prover(1, chain_knowledge(), true, 100);
    let (proofs, _) = flat.prove_all_with_stats(vec![goal], None, None, None);
    assert_eq!(proofs.len(), 0);
}

#[test]
fn batches_that_are_set_apart_are_searched_too() {
    let goal = clause(vec![lit("a", vec![k("k")], false)]);
    for eval_batch_size in [0usize, 1, 2, 3, 100] {
        let mut prover = make_prover(10, chain_knowledge(), true, eval_batch_size);
        let (proofs, _) = prover.prove_all_with_stats(vec![goal.clone()], None, None, None);
        let depths: Vec<usize> = proofs.iter().map(|p| p.depth()).collect();
        assert_eq!(depths, vec![2, 4]);
    }
}

#[test]
fn wide_resolvents_and_long_searches_are_cut_off() {
    let knowledge = vec![
        clause(vec![
            lit("a", vec![v("X")], true),
            lit("b", vec![v("X")], false),
            lit("c", vec![v("X")], false),
        ]),
        clause(vec![lit("b", vec![k("k")], true)]),
        clause(vec![lit("c", vec![k("k")], true)]),
    ];
    let goal = clause(vec![lit("a", vec![k("k")], false)]);
    let wide = |max_resolvent_width: Option<usize>, max_resolution_attempts: Option<usize>| {
        ResolutionProverBackend::<Comparator>::new(
            10,
            max_resolvent_width,
            max_resolution_attempts,
            None,
            0.5f64.to_bits(),
            false,
            false,
            true,
            clauses(knowledge.clone()),
            1,
            100,
        )
        .unwrap()
    };
    let (proofs, stats) = wide(None, None).prove_all_with_stats(vec![goal.clone()], None, None, None);
    assert_eq!(proofs.len(), 1);
    assert_eq!(proofs[0].depth(), 3);
    assert_eq!(stats.max_resolvent_width_seen, 2);
    let (proofs, _) = wide(Some(1), None).prove_all_with_stats(vec![goal.clone()], None, None, None);
    assert_eq!(proofs.len(), 0);
    let (proofs, stats) =
        wide(None, Some(4)).prove_all_with_stats(vec![goal.clone()], None, None, None);
    assert_eq!(proofs.len(), 0);
    assert_eq!(stats.attempted_resolutions, 4);
}

#[test]
fn knowledge_can_be_added_and_forgotten() {
    let goal = clause(vec![lit("p", vec![k("a")], false)]);
    let fact = clause(vec![lit("p", vec![k("a")], true)]);
    let mut prover = make_prover(10, vec![], false, 100);
    let (proofs, _) = prover.prove_all_with_stats(vec![goal.clone()], None, None, None);
    assert_eq!(proofs.len(), 0);
    let (proofs, _) =
        prover.prove_all_with_stats(vec![goal.clone()], Some(vec![fact.clone()]), None, None);
    assert_eq!(proofs.len(), 1);
    prover.extend_knowledge(vec![fact.clone(), fact]);
    assert_eq!(prover.base_knowledge.len(), 1);
    let (proofs, _) = prover.prove_all_with_stats(vec![goal.clone()], None, None, None);
    assert_eq!(proofs.len(), 1);
    prover.purge_similarity_cache();
    prover.reset();
    assert_eq!(prover.base_knowledge.len(), 0);
    let (proofs, _) = prover.prove_all_with_stats(vec![goal], None, None, None);
    assert_eq!(proofs.len(), 0);
}
