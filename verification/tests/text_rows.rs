//! The canonical row-text encoding of assignments and samples.

use mlml::expr::{BinaryOp, BinaryOpType, Expr};
use mlml::text::{row_text, stringify_state};

fn var(c: char) -> Expr {
    Expr::Var(c)
}

fn bin(ty: BinaryOpType, l: Expr, r: Expr) -> Expr {
    Expr::BinaryOp(Box::new(BinaryOp::new(ty, l, r)))
}

#[test]
fn state_text_groups_by_truth_value() {
    assert_eq!(stringify_state(&[]), "[]");
    assert_eq!(stringify_state(&[('a', true)]), "[a: true]");
    assert_eq!(stringify_state(&[('b', false)]), "[b: false]");
    assert_eq!(
        stringify_state(&[('a', true), ('b', false), ('c', true)]),
        "[a, c: true; b: false]"
    );
    assert_eq!(
        stringify_state(&[('x', false), ('y', false)]),
        "[x, y: false]"
    );
}

#[test]
fn row_text_joins_state_and_expression() {
    let e = bin(BinaryOpType::And, var('a'), Expr::Not(Box::new(var('b'))));
    let state = [('a', true), ('b', false)];
    assert_eq!(row_text(&e, &state), "[a: true; b: false] (a ∧ ¬b)");
}
