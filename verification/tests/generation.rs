//! The random generator's bounds, the state sampler's coverage, and the
//! round-trip law on generated expressions.

use mlml::expr::Expr;
use mlml::generator::{generate_state, ExprGenerator};
use mlml::parser::Parser;
use rand::SeedableRng;
use rand_xorshift::XorShiftRng;

fn height(e: &Expr) -> usize {
    match e {
        Expr::Var(_) => 0,
        Expr::Not(inner) => 1 + height(inner),
        Expr::BinaryOp(b) => 1 + height(&b.l).max(height(&b.r)),
    }
}

fn distinct_vars(e: &Expr, out: &mut Vec<char>) {
    match e {
        Expr::Var(c) => {
            if !out.contains(c) {
                out.push(*c);
            }
        },
        Expr::Not(inner) => distinct_vars(inner, out),
        Expr::BinaryOp(b) => {
            distinct_vars(&b.l, out);
            distinct_vars(&b.r, out);
        },
    }
}

#[test]
fn generated_expressions_respect_bounds() {
    let alphabet: Vec<char> = ('a'..='f').collect();
    let generator = ExprGenerator::new(4, 3);
    let mut rng = XorShiftRng::seed_from_u64(7);
    for _ in 0..300 {
        let e = generator.generate(&alphabet, &mut rng);
        assert!(height(&e) <= 4, "height bound broken by {}", e.to_text());
        let mut vars = Vec::new();
        distinct_vars(&e, &mut vars);
        assert!(vars.len() <= 3, "variable bound broken by {}", e.to_text());
        for v in &vars {
            assert!(alphabet.contains(v));
        }
    }
}

#[test]
fn generated_expressions_round_trip() {
    let alphabet: Vec<char> = ('a'..='z').collect();
    let generator = ExprGenerator::new(5, 4);
    let mut rng = XorShiftRng::seed_from_u64(99);
    for _ in 0..300 {
        let e = generator.generate(&alphabet, &mut rng);
        let text = e.to_text();
        let parsed = Parser::new(&text).parse().expect("generated text must parse");
        assert_eq!(parsed, e, "round trip failed for {text}");
    }
}

#[test]
fn sampled_state_covers_exactly_the_variables() {
    let alphabet: Vec<char> = ('a'..='e').collect();
    let generator = ExprGenerator::new(3, 4);
    let mut rng = XorShiftRng::seed_from_u64(5);
    for _ in 0..200 {
        let e = generator.generate(&alphabet, &mut rng);
        let state = generate_state(&e, &mut rng);
        let mut vars = Vec::new();
        distinct_vars(&e, &mut vars);
        let keys: Vec<char> = state.iter().map(|p| p.0).collect();
        for v in &vars {
            assert_eq!(keys.iter().filter(|k| *k == v).count(), 1);
        }
        // The keys come in order of first occurrence in the expression,
        // exactly as the left-to-right collection finds them.
        assert_eq!(keys, vars);
        // With full coverage, evaluation is defined.
        let _ = e.evaluate(&state);
    }
}

#[test]
fn same_seed_same_expressions() {
    let alphabet: Vec<char> = ('a'..='d').collect();
    let generator = ExprGenerator::new(3, 2);
    let mut rng1 = XorShiftRng::seed_from_u64(1234);
    let mut rng2 = XorShiftRng::seed_from_u64(1234);
    for _ in 0..50 {
        let e1 = generator.generate(&alphabet, &mut rng1);
        let e2 = generator.generate(&alphabet, &mut rng2);
        assert_eq!(e1, e2);
    }
}
