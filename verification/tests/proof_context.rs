use fuzzy_resolution::prover::operations::fresh_names::decimal_string;
use fuzzy_resolution::prover::ProofStep;
use fuzzy_resolution::prover::ProofStepNode;
use fuzzy_resolution::prover::SharedProofContext;
use fuzzy_resolution::prover::SubstitutionsMap;
use fuzzy_resolution::types::Atom;
use fuzzy_resolution::types::CNFDisjunction;
use fuzzy_resolution::types::CNFLiteral;
use fuzzy_resolution::types::Predicate;
use fuzzy_resolution::util::LiteralSet;
use fuzzy_resolution::util::PyArcItem;

type Comparator = fn(&String, Option<u64>, &String, Option<u64>) -> u64;

fn create_proof_step_node(depth: usize, running_similarity: f64) -> ProofStepNode {
    let pred = Predicate::new("Rust", None);
    let disj = PyArcItem::new(CNFDisjunction::new(LiteralSet::new()));
    let lit = PyArcItem::new(CNFLiteral::new(Atom::new(pred.clone(), vec![]), true));
    let subs = SubstitutionsMap::new();
    ProofStepNode::new(ProofStep::new(
        disj.clone(),
        disj.clone(),
        lit.clone(),
        lit.clone(),
        subs.clone(),
        subs.clone(),
        disj.clone(),
        0.5f64.to_bits(),
        running_similarity.to_bits(),
        depth,
        None,
    ))
}

#[test]
fn test_new() {
    let ctx = SharedProofContext::<Comparator>::new(0.0f64.to_bits(), Some(2), false, None, None);
    assert_eq!(ctx.max_proofs, Some(2));
}

#[test]
fn test_record_leaf_proof_keeps_step_with_highest_similarity() {
    let mut ctx =
        SharedProofContext::<Comparator>::new(0.0f64.to_bits(), Some(1), false, None, None);
    let proof_step1 = create_proof_step_node(2, 0.5);
    ctx.record_leaf_proof(proof_step1.clone());
    assert_eq!(ctx.scored_leaf_proof_steps.len(), 1);
    assert_eq!(ctx.scored_leaf_proof_steps.get(0).2, proof_step1);
    // higher similarity, so it should kick out step 1
    let proof_step2 = create_proof_step_node(4, 0.6);
    ctx.record_leaf_proof(proof_step2.clone());
    assert_eq!(ctx.scored_leaf_proof_steps.len(), 1);
    assert_eq!(ctx.scored_leaf_proof_steps.get(0).2, proof_step2);
}

#[test]
fn test_record_leaf_proof_keeps_step_with_lowest_depth_if_similarity_is_equal() {
    let mut ctx =
        SharedProofContext::<Comparator>::new(0.0f64.to_bits(), Some(1), false, None, None);
    let proof_step1 = create_proof_step_node(4, 0.5);
    ctx.record_leaf_proof(proof_step1.clone());
    assert_eq!(ctx.scored_leaf_proof_steps.len(), 1);
    assert_eq!(ctx.scored_leaf_proof_steps.get(0).2, proof_step1);
    // as similar and less deep, so it should kick out step 1
    let proof_step2 = create_proof_step_node(3, 0.5);
    ctx.record_leaf_proof(proof_step2.clone());
    assert_eq!(ctx.scored_leaf_proof_steps.len(), 1);
    assert_eq!(ctx.scored_leaf_proof_steps.get(0).2, proof_step2);
}

#[test]
fn test_check_resolvent() {
    let mut ctx =
        SharedProofContext::<Comparator>::new(0.0f64.to_bits(), Some(1), true, None, None);
    let proof_step = create_proof_step_node(4, 0.5);
    assert!(ctx.check_resolvent(&proof_step.inner));

    let worse_sim_step = create_proof_step_node(4, 0.4);
    assert!(!ctx.check_resolvent(&worse_sim_step.inner));

    let worse_depth_step = create_proof_step_node(5, 0.5);
    assert!(!ctx.check_resolvent(&worse_depth_step.inner));

    let better_sim_step = create_proof_step_node(4, 0.6);
    assert!(ctx.check_resolvent(&better_sim_step.inner));

    let better_depth_step = create_proof_step_node(3, 0.5);
    assert!(ctx.check_resolvent(&better_depth_step.inner));
}

#[test]
fn a_full_list_drops_its_last_proof_and_raises_the_floor() {
    let mut ctx =
        SharedProofContext::<Comparator>::new(0.1f64.to_bits(), Some(2), false, None, None);
    ctx.record_leaf_proof(create_proof_step_node(1, 0.7));
    ctx.record_leaf_proof(create_proof_step_node(1, 0.6));
    assert_eq!(ctx.min_similarity_threshold, 0.1f64.to_bits());
    assert_eq!(ctx.stats.discarded_proofs, 0);
    ctx.record_leaf_proof(create_proof_step_node(1, 0.9));
    assert_eq!(ctx.total_leaf_proofs(), 2);
    assert_eq!(ctx.scored_leaf_proof_steps.get(0).0, 0.9f64.to_bits());
    assert_eq!(ctx.scored_leaf_proof_steps.get(1).0, 0.7f64.to_bits());
    assert_eq!(ctx.stats.discarded_proofs, 1);
    assert_eq!(ctx.min_similarity_threshold, 0.7f64.to_bits());
}

#[test]
fn a_later_proof_goes_behind_its_equals() {
    let mut ctx = SharedProofContext::<Comparator>::new(0.0f64.to_bits(), None, false, None, None);
    ctx.record_leaf_proof(create_proof_step_node(2, 0.5));
    ctx.record_leaf_proof(create_proof_step_node(1, 0.5));
    ctx.record_leaf_proof(create_proof_step_node(2, 0.8));
    ctx.record_leaf_proof(create_proof_step_node(3, 0.8));
    let order: Vec<(u64, usize)> = (0..4)
        .map(|i| {
            let entry = ctx.scored_leaf_proof_steps.get(i);
            (entry.0, entry.1)
        })
        .collect();
    assert_eq!(
        order,
        vec![
            (0.8f64.to_bits(), 2),
            (0.8f64.to_bits(), 3),
            (0.5f64.to_bits(), 1),
            (0.5f64.to_bits(), 2)
        ]
    );
}

#[test]
fn without_the_check_every_resolvent_passes() {
    let mut ctx = SharedProofContext::<Comparator>::new(0.0f64.to_bits(), None, false, None, None);
    let proof_step = create_proof_step_node(4, 0.5);
    assert!(ctx.check_resolvent(&proof_step.inner));
    assert!(ctx.check_resolvent(&proof_step.inner));
}

#[test]
fn the_second_of_two_paths_to_a_resolvent_is_turned_away() {
    let mut ctx = SharedProofContext::<Comparator>::new(0.0f64.to_bits(), None, true, None, None);
    let first = create_proof_step_node(3, 0.8);
    let second = create_proof_step_node(5, 0.7);
    assert!(ctx.check_resolvent(&first.inner));
    assert!(!ctx.check_resolvent(&second.inner));
    let (admitted, record) = ctx.check_seen_resolvent_info(17, &second.inner);
    assert!(admitted);
    assert_eq!(record, (5, 0.7f64.to_bits()));
    let (admitted, record) = ctx.check_seen_resolvent_info(17, &first.inner);
    assert!(admitted);
    assert_eq!(record, (3, 0.8f64.to_bits()));
    let (admitted, record) = ctx.check_seen_resolvent_info(17, &second.inner);
    assert!(!admitted);
    assert_eq!(record, (3, 0.8f64.to_bits()));
}

#[test]
fn numbers_are_written_in_decimal() {
    assert_eq!(decimal_string(0), "0");
    assert_eq!(decimal_string(7), "7");
    assert_eq!(decimal_string(10), "10");
    assert_eq!(decimal_string(1234567890), "1234567890");
}
