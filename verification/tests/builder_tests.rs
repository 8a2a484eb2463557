//! The stratified sampler: acceptance, deduplication, balance,
//! disjointness, rarity statistics, exhaustion, and seed determinism.

use mlml::builder::{build_dataset, entry_eq, DatasetBuilder, Entry};
use mlml::expr::{BinaryOp, BinaryOpType, Expr};
use mlml::generator::ExprGenerator;
use mlml::parser::Parser;

fn var(c: char) -> Expr {
    Expr::Var(c)
}

fn bin(ty: BinaryOpType, l: Expr, r: Expr) -> Expr {
    Expr::BinaryOp(Box::new(BinaryOp::new(ty, l, r)))
}

fn entry(e: Expr, state: Vec<(char, bool)>) -> Entry {
    let ret = e.evaluate(&state);
    Entry { expr: e, state, ret }
}

#[test]
fn offer_accepts_wanted_polarity_first() {
    let mut b = DatasetBuilder::new(&vec![2]);
    // The split wants `true` first, so a false candidate is rejected.
    let false_entry = entry(var('a'), vec![('a', false)]);
    assert!(!b.offer(0, false_entry));
    assert_eq!(b.split_len(0), 0);
    let true_entry = entry(var('a'), vec![('a', true)]);
    assert!(b.offer(0, true_entry));
    assert_eq!(b.split_len(0), 1);
    // Now it wants `false`.
    let true_again = entry(var('b'), vec![('b', true)]);
    assert!(!b.offer(0, true_again));
    let false_entry = entry(var('a'), vec![('a', false)]);
    assert!(b.offer(0, false_entry));
    assert_eq!(b.split_len(0), 2);
    assert!(b.split_complete(0));
}

#[test]
fn offer_deduplicates_globally() {
    let mut b = DatasetBuilder::new(&vec![4, 4]);
    let e = entry(var('a'), vec![('a', true)]);
    assert!(b.offer(0, e));
    // The same entry again, to the same split: rejected, nothing changes.
    let same = entry(var('a'), vec![('a', true)]);
    assert!(!b.offer(0, same));
    assert_eq!(b.split_len(0), 1);
    assert_eq!(b.total_seen(), 1);
    // And to the other split: still rejected, the seen set is global.
    let same = entry(var('a'), vec![('a', true)]);
    assert!(!b.offer(1, same));
    assert_eq!(b.split_len(1), 0);
}

#[test]
fn shape_histogram_counts_accepted_entries() {
    let mut b = DatasetBuilder::new(&vec![4]);
    let e1 = entry(var('a'), vec![('a', true)]);
    let e2 = entry(var('b'), vec![('b', false)]);
    let e3 = entry(bin(BinaryOpType::And, var('a'), var('b')), vec![('a', true), ('b', true)]);
    assert!(b.offer(0, e1));
    assert!(b.offer(0, e2));
    assert!(b.offer(0, e3));
    assert_eq!(b.total_seen(), 3);
    assert_eq!(b.shape_count(&var('z')), 2);
    assert_eq!(b.shape_count(&bin(BinaryOpType::And, var('x'), var('y'))), 1);
    assert_eq!(b.shape_count(&bin(BinaryOpType::Or, var('x'), var('y'))), 0);
}

#[test]
fn rows_carry_label_complexity_and_rarity() {
    let mut b = DatasetBuilder::new(&vec![2]);
    let e1 = entry(var('a'), vec![('a', true)]);
    assert!(b.offer(0, e1));
    let e2 = entry(bin(BinaryOpType::Or, var('a'), var('b')), vec![('a', false), ('b', false)]);
    assert!(b.offer(0, e2));
    let row0 = b.split_row(0, 0);
    assert_eq!(row0.expression, "[a: true] a");
    assert_eq!(row0.result, true);
    assert_eq!(row0.complexity, 1);
    assert_eq!(row0.shape_count, 1);
    assert_eq!(row0.seen_count, 1);
    let row1 = b.split_row(0, 1);
    assert_eq!(row1.expression, "[a, b: false] (a ∨ b)");
    assert_eq!(row1.result, false);
    assert_eq!(row1.complexity, 2 + 2 * 1);
    assert_eq!(row1.shape_count, 1);
    assert_eq!(row1.seen_count, 2);
}

fn run_rows(seed: u64, targets: &Vec<usize>) -> Vec<Vec<(String, bool)>> {
    let generator = ExprGenerator::new(2, 2);
    let alphabet = vec!['a', 'b'];
    let b = build_dataset(&generator, &alphabet, targets, 1_000_000, seed).expect("enough space");
    let mut out = Vec::new();
    for s in 0..b.split_count() {
        let mut rows = Vec::new();
        for j in 0..b.split_len(s) {
            let row = b.split_row(s, j);
            rows.push((row.expression, row.result));
        }
        out.push(rows);
    }
    out
}

#[test]
fn end_to_end_balanced_disjoint_and_deterministic() {
    let targets = vec![4, 4, 4];
    let rows = run_rows(42, &targets);
    assert_eq!(rows.len(), 3);
    for split in &rows {
        assert_eq!(split.len(), 4);
        // Balance: exactly half the entries of each split are true.
        let trues = split.iter().filter(|(_, r)| *r).count();
        assert_eq!(trues, 2);
        // Every row's expression part parses back.
        for (text, _) in split {
            let expr_part = text.split("] ").nth(1).expect("row holds an expression");
            assert!(Parser::new(expr_part).parse().is_ok());
        }
    }
    // Disjointness: no row text appears in two splits, and none twice in
    // one split.
    let mut all: Vec<&String> = rows.iter().flatten().map(|(t, _)| t).collect();
    let before = all.len();
    all.sort();
    all.dedup();
    assert_eq!(all.len(), before);
    // The same seed reproduces the same dataset.
    let again = run_rows(42, &targets);
    assert_eq!(rows, again);
    // Another seed gives a different (but still valid) dataset.
    let other = run_rows(43, &targets);
    assert_ne!(rows, other);
    for split in &other {
        assert_eq!(split.len(), 4);
        assert_eq!(split.iter().filter(|(_, r)| *r).count(), 2);
    }
}

#[test]
fn exhaustion_names_split_and_deficit() {
    // One variable and height zero leave only two possible entries, so a
    // target of ten cannot be filled.
    let generator = ExprGenerator::new(0, 1);
    let alphabet = vec!['a'];
    let targets = vec![10];
    let err = build_dataset(&generator, &alphabet, &targets, 10_000, 7).unwrap_err();
    assert_eq!(err.split, 0);
    assert!(err.deficit >= 1 && err.deficit <= 10);
}

#[test]
fn entry_eq_is_structural() {
    let a = entry(var('a'), vec![('a', true)]);
    let b = entry(var('a'), vec![('a', true)]);
    let c = entry(var('a'), vec![('a', false)]);
    assert!(entry_eq(&a, &b));
    assert!(!entry_eq(&a, &c));
}
