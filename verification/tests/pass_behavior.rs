use foldpass::folder::{fold_program, Folder};
use foldpass::passes::{Deduplicator, DummyOptimizer};
use foldpass::program::{synthetic_program, Prog};

#[test]
fn dedup_removes_duplicates() {
    let prog = Prog { arguments: vec![7, 8], statements: vec![1, 1, 2, 3, 3, 3] };
    let mut dedup = Deduplicator::default();
    let out = fold_program(&mut dedup, prog);
    assert_eq!(out.statements, vec![1, 2, 3]);
    assert_eq!(out.arguments, vec![7, 8]);
}

#[test]
fn noop_keeps_statements() {
    let prog = Prog { arguments: vec![7, 8], statements: vec![1, 1, 2, 3, 3, 3] };
    let mut dummy = DummyOptimizer::default();
    let out = fold_program(&mut dummy, prog);
    assert_eq!(out.statements, vec![1, 1, 2, 3, 3, 3]);
    assert_eq!(out.arguments, vec![7, 8]);
}

#[test]
fn dedup_then_noop_equals_noop_then_dedup() {
    let prog_a = Prog { arguments: vec![], statements: vec![1, 1, 2, 3, 3, 3] };
    let mut dedup_a = Deduplicator::default();
    let mut dummy_a = DummyOptimizer::default();
    let mid_a = fold_program(&mut dedup_a, prog_a);
    let out_a = fold_program(&mut dummy_a, mid_a);
    assert_eq!(out_a.statements, vec![1, 2, 3]);

    let prog_b = Prog { arguments: vec![], statements: vec![1, 1, 2, 3, 3, 3] };
    let mut dummy_b = DummyOptimizer::default();
    let mut dedup_b = Deduplicator::default();
    let mid_b = fold_program(&mut dummy_b, prog_b);
    let out_b = fold_program(&mut dedup_b, mid_b);
    assert_eq!(out_b.statements, vec![1, 2, 3]);
}

#[test]
fn dedup_twice_changes_nothing_more() {
    let prog = Prog { arguments: vec![4, 4], statements: vec![5, 5, 7, 5, 8, 8, 9] };
    let mut first = Deduplicator::default();
    let once = fold_program(&mut first, prog);
    let again = Prog { arguments: once.arguments.clone(), statements: once.statements.clone() };
    let mut second = Deduplicator::default();
    let twice = fold_program(&mut second, again);
    assert_eq!(twice.arguments, once.arguments);
    assert_eq!(twice.statements, once.statements);
}

#[test]
fn dedup_preserves_order_of_survivors() {
    let prog = Prog { arguments: vec![], statements: vec![4, 9, 4, 2, 9, 7] };
    let mut dedup = Deduplicator::default();
    let out = fold_program(&mut dedup, prog);
    assert_eq!(out.statements, vec![4, 9, 2, 7]);
}

#[test]
fn dedup_hook_drops_only_repeats() {
    let mut dedup = Deduplicator::new();
    assert_eq!(dedup.fold_statement(5), Some(5));
    assert_eq!(dedup.fold_statement(5), None);
    assert_eq!(dedup.fold_statement(6), Some(6));
    assert_eq!(dedup.fold_statement(5), None);
}

#[test]
fn argument_hooks_are_identity() {
    let mut dedup = Deduplicator::new();
    let mut dummy = DummyOptimizer::default();
    assert_eq!(dedup.fold_argument(11), 11);
    assert_eq!(dummy.fold_argument(11), 11);
    assert_eq!(dummy.fold_statement(11), Some(11));
}

#[test]
fn synthetic_program_is_constant() {
    let p = synthetic_program(3, 2, 42);
    assert_eq!(p.arguments, vec![42, 42, 42]);
    assert_eq!(p.statements, vec![42, 42]);
    let q = synthetic_program(0, 0, 1);
    assert!(q.arguments.is_empty());
    assert!(q.statements.is_empty());
}
