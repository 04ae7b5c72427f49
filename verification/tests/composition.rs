use foldpass::compose::{fold_chain_per_item, fold_chain_per_pass};
use foldpass::passes::{Deduplicator, DummyOptimizer};
use foldpass::program::{synthetic_program, Prog};

#[test]
fn per_item_matches_per_pass() {
    let prog_a = Prog { arguments: vec![1, 2, 3], statements: vec![5, 5, 7, 5, 8, 8, 9] };
    let mut dedup_a = Deduplicator::default();
    let mut dummy_a = DummyOptimizer::default();
    let out_a = fold_chain_per_item(&mut dedup_a, &mut dummy_a, prog_a);

    let prog_b = Prog { arguments: vec![1, 2, 3], statements: vec![5, 5, 7, 5, 8, 8, 9] };
    let mut dedup_b = Deduplicator::default();
    let mut dummy_b = DummyOptimizer::default();
    let out_b = fold_chain_per_pass(&mut dedup_b, &mut dummy_b, prog_b);

    assert_eq!(out_a.arguments, out_b.arguments);
    assert_eq!(out_a.statements, out_b.statements);
    assert_eq!(out_a.statements, vec![5, 7, 8, 9]);
}

#[test]
fn empty_statements_stay_empty() {
    let prog_a = Prog { arguments: vec![6], statements: vec![] };
    let mut dedup_a = Deduplicator::default();
    let mut dummy_a = DummyOptimizer::default();
    let out_a = fold_chain_per_item(&mut dedup_a, &mut dummy_a, prog_a);
    assert!(out_a.statements.is_empty());

    let prog_b = Prog { arguments: vec![6], statements: vec![] };
    let mut dedup_b = Deduplicator::default();
    let mut dummy_b = DummyOptimizer::default();
    let out_b = fold_chain_per_pass(&mut dedup_b, &mut dummy_b, prog_b);
    assert!(out_b.statements.is_empty());
}

#[test]
fn arguments_never_filtered() {
    let prog_a = Prog { arguments: vec![10, 20, 20, 30], statements: vec![1, 1, 2] };
    let mut dedup_a = Deduplicator::default();
    let mut dummy_a = DummyOptimizer::default();
    let out_a = fold_chain_per_item(&mut dedup_a, &mut dummy_a, prog_a);
    assert_eq!(out_a.arguments, vec![10, 20, 20, 30]);

    let prog_b = Prog { arguments: vec![10, 20, 20, 30], statements: vec![1, 1, 2] };
    let mut dummy_b = DummyOptimizer::default();
    let mut dedup_b = Deduplicator::default();
    let out_b = fold_chain_per_pass(&mut dummy_b, &mut dedup_b, prog_b);
    assert_eq!(out_b.arguments, vec![10, 20, 20, 30]);
}

#[test]
fn chained_either_order_dedups() {
    let prog_a = Prog { arguments: vec![], statements: vec![1, 1, 2, 3, 3, 3] };
    let mut dedup_a = Deduplicator::default();
    let mut dummy_a = DummyOptimizer::default();
    let out_a = fold_chain_per_item(&mut dedup_a, &mut dummy_a, prog_a);
    assert_eq!(out_a.statements, vec![1, 2, 3]);

    let prog_b = Prog { arguments: vec![], statements: vec![1, 1, 2, 3, 3, 3] };
    let mut dummy_b = DummyOptimizer::default();
    let mut dedup_b = Deduplicator::default();
    let out_b = fold_chain_per_item(&mut dummy_b, &mut dedup_b, prog_b);
    assert_eq!(out_b.statements, vec![1, 2, 3]);
}

#[test]
fn benchmark_input_collapses_to_one_statement() {
    let prog_a = synthetic_program(100, 100000, 1);
    let mut dedup_a = Deduplicator::default();
    let mut dummy_a = DummyOptimizer::default();
    let out_a = fold_chain_per_item(&mut dedup_a, &mut dummy_a, prog_a);
    assert_eq!(out_a.statements, vec![1]);
    assert_eq!(out_a.arguments.len(), 100);

    let prog_b = synthetic_program(100, 100000, 1);
    let mut dedup_b = Deduplicator::default();
    let mut dummy_b = DummyOptimizer::default();
    let out_b = fold_chain_per_pass(&mut dedup_b, &mut dummy_b, prog_b);
    assert_eq!(out_b.statements, vec![1]);
    assert_eq!(out_b.arguments.len(), 100);
}
