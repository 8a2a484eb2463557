//! The printer, the parser, its error cases, and the round-trip law on
//! concrete expressions.

use mlml::expr::{BinaryOp, BinaryOpType, Expr};
use mlml::parser::{ParseError, Parser};

fn var(c: char) -> Expr {
    Expr::Var(c)
}

fn not(e: Expr) -> Expr {
    Expr::Not(Box::new(e))
}

fn bin(ty: BinaryOpType, l: Expr, r: Expr) -> Expr {
    Expr::BinaryOp(Box::new(BinaryOp::new(ty, l, r)))
}

fn samples() -> Vec<Expr> {
    vec![
        var('a'),
        not(var('b')),
        not(not(var('z'))),
        bin(BinaryOpType::And, var('a'), var('b')),
        bin(BinaryOpType::Or, var('a'), not(var('b'))),
        bin(BinaryOpType::Implies, not(var('p')), bin(BinaryOpType::Equivalent, var('q'), var('p'))),
        not(bin(BinaryOpType::And, bin(BinaryOpType::Or, var('x'), var('y')), var('z'))),
    ]
}

#[test]
fn printer_output() {
    assert_eq!(var('a').to_text(), "a");
    assert_eq!(not(var('a')).to_text(), "¬a");
    assert_eq!(bin(BinaryOpType::And, var('a'), var('b')).to_text(), "(a ∧ b)");
    assert_eq!(bin(BinaryOpType::Or, var('a'), var('b')).to_text(), "(a ∨ b)");
    assert_eq!(bin(BinaryOpType::Implies, var('a'), var('b')).to_text(), "(a → b)");
    assert_eq!(bin(BinaryOpType::Equivalent, var('a'), var('b')).to_text(), "(a ↔ b)");
    assert_eq!(not(bin(BinaryOpType::And, var('a'), var('b'))).to_text(), "¬(a ∧ b)");
    assert_eq!(
        bin(BinaryOpType::Or, bin(BinaryOpType::And, var('a'), var('b')), var('c')).to_text(),
        "((a ∧ b) ∨ c)"
    );
}

#[test]
fn round_trip_concrete() {
    for e in samples() {
        let text = e.to_text();
        let parsed = Parser::new(&text).parse().expect("canonical text must parse");
        assert_eq!(parsed, e, "round trip failed for {text}");
    }
}

#[test]
fn parser_skips_whitespace() {
    let expected = bin(BinaryOpType::And, var('a'), not(var('b')));
    let parsed = Parser::new("  ( a ∧\t¬ b )  ").parse().unwrap();
    assert_eq!(parsed, expected);
}

#[test]
fn parser_skips_unicode_whitespace() {
    // No-break space, em space, and ideographic space count as whitespace
    // between tokens, like every Unicode whitespace character.
    let parsed = Parser::new("¬\u{00A0}a").parse().unwrap();
    assert_eq!(parsed, not(var('a')));
    let expected = bin(BinaryOpType::Or, var('x'), var('y'));
    let parsed = Parser::new("(\u{2003}x\u{00A0}∨\u{3000}y\u{2028})").parse().unwrap();
    assert_eq!(parsed, expected);
}

#[test]
fn parse_error_position() {
    // On an error the parser stops right after what it read: here the
    // whitespace, the parenthesis, and the variable.
    let mut p = Parser::new(" (a");
    assert_eq!(p.parse(), Err(ParseError::MissingOperator));
    assert_eq!(p.pos, 3);
    // A bad first character is looked at but not consumed.
    let mut p = Parser::new("  1");
    assert_eq!(
        p.parse(),
        Err(ParseError::ExpectedExpression { got: Some('1') })
    );
    assert_eq!(p.pos, 2);
}

#[test]
fn parse_empty_input() {
    assert_eq!(
        Parser::new("").parse(),
        Err(ParseError::ExpectedExpression { got: None })
    );
    assert_eq!(
        Parser::new("   ").parse(),
        Err(ParseError::ExpectedExpression { got: None })
    );
}

#[test]
fn parse_bad_start() {
    assert_eq!(
        Parser::new("1").parse(),
        Err(ParseError::ExpectedExpression { got: Some('1') })
    );
}

#[test]
fn parse_missing_operator() {
    assert_eq!(Parser::new("(a").parse(), Err(ParseError::MissingOperator));
}

#[test]
fn parse_unknown_operator() {
    assert_eq!(
        Parser::new("(a % b)").parse(),
        Err(ParseError::UnknownOperator { got: '%' })
    );
}

#[test]
fn parse_missing_close_paren() {
    assert_eq!(
        Parser::new("(a ∧ b").parse(),
        Err(ParseError::UnexpectedEnd { expected: ')' })
    );
    assert_eq!(
        Parser::new("(a ∧ b(").parse(),
        Err(ParseError::UnexpectedChar { expected: ')', got: '(' })
    );
}

#[test]
fn parse_truncated_operand() {
    assert_eq!(
        Parser::new("(a ∧").parse(),
        Err(ParseError::ExpectedExpression { got: None })
    );
    assert_eq!(Parser::new("¬").parse(), Err(ParseError::ExpectedExpression { got: None }));
}

#[test]
fn parse_stops_after_one_expression() {
    let parsed = Parser::new("a b").parse().unwrap();
    assert_eq!(parsed, var('a'));
}
