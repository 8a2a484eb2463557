//! Structural operations and the evaluator on concrete expressions.

use mlml::eval::evaluate;
use mlml::expr::{BinaryOp, BinaryOpType, Expr, ExprStructure};

fn var(c: char) -> Expr {
    Expr::Var(c)
}

fn not(e: Expr) -> Expr {
    Expr::Not(Box::new(e))
}

fn bin(ty: BinaryOpType, l: Expr, r: Expr) -> Expr {
    Expr::BinaryOp(Box::new(BinaryOp::new(ty, l, r)))
}

#[test]
fn depth_counts_inner_nodes() {
    assert_eq!(var('a').depth(), 0);
    assert_eq!(not(var('a')).depth(), 1);
    let e = bin(BinaryOpType::And, var('a'), var('b'));
    assert_eq!(e.depth(), 1);
    let deep = bin(BinaryOpType::Or, not(var('a')), bin(BinaryOpType::And, var('b'), var('c')));
    assert_eq!(deep.depth(), 1 + 1 + 1);
}

#[test]
fn num_variables_counts_occurrences() {
    assert_eq!(var('a').num_variables(), 1);
    let e = bin(BinaryOpType::And, var('a'), var('a'));
    assert_eq!(e.num_variables(), 2);
    let e2 = not(bin(BinaryOpType::Implies, var('a'), not(var('b'))));
    assert_eq!(e2.num_variables(), 2);
}

#[test]
fn complexity_combines_occurrences_and_depth() {
    let e = bin(BinaryOpType::Implies, var('a'), var('b'));
    assert_eq!(e.complexity(), 2 + 2 * 1);
    let e2 = not(var('a'));
    assert_eq!(e2.complexity(), 1 + 2 * 1);
}

#[test]
fn structure_erases_variables() {
    let e1 = bin(BinaryOpType::And, var('a'), var('b'));
    let e2 = bin(BinaryOpType::And, var('x'), var('y'));
    assert_eq!(e1.to_structure(), e2.to_structure());
    let e3 = bin(BinaryOpType::Or, var('a'), var('b'));
    assert_ne!(e1.to_structure(), e3.to_structure());
    assert_eq!(var('z').to_structure(), ExprStructure::Var);
}

#[test]
fn truth_table_concrete_cases() {
    let implies = bin(BinaryOpType::Implies, var('a'), var('b'));
    assert_eq!(implies.evaluate(&[('a', true), ('b', false)]), false);
    let equivalent = bin(BinaryOpType::Equivalent, var('a'), var('a'));
    assert_eq!(equivalent.evaluate(&[('a', false)]), true);
    let negation = not(var('a'));
    assert_eq!(negation.evaluate(&[('a', true)]), false);
}

#[test]
fn truth_tables_all_connectives() {
    for (a, b) in [(false, false), (false, true), (true, false), (true, true)] {
        let state = [('a', a), ('b', b)];
        assert_eq!(bin(BinaryOpType::And, var('a'), var('b')).evaluate(&state), a && b);
        assert_eq!(bin(BinaryOpType::Or, var('a'), var('b')).evaluate(&state), a || b);
        assert_eq!(bin(BinaryOpType::Implies, var('a'), var('b')).evaluate(&state), !a || b);
        assert_eq!(bin(BinaryOpType::Equivalent, var('a'), var('b')).evaluate(&state), a == b);
    }
}

#[test]
fn free_evaluate_matches_method() {
    let e = bin(BinaryOpType::Equivalent, not(var('p')), var('q'));
    for (p, q) in [(false, false), (false, true), (true, false), (true, true)] {
        let state = [('p', p), ('q', q)];
        assert_eq!(evaluate(&e, &state), e.evaluate(&state));
        assert_eq!(evaluate(&e, &state), (!p) == q);
    }
}

#[test]
fn evaluate_takes_first_binding() {
    let e = var('a');
    assert_eq!(e.evaluate(&[('a', true), ('a', false)]), true);
}
