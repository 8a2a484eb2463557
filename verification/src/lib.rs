//! A verified pipeline for building labeled datasets of propositional-logic
//! expressions: an expression grammar with a printer and a parser that invert
//! each other, a boolean evaluator, a bounded weighted random generator, and
//! a deduplicated, class-balanced multi-split sampler.

pub mod builder;
pub mod config;
pub mod dataset;
pub mod eval;
pub mod expr;
pub mod generator;
pub mod parser;
pub mod rng;
pub mod text;
pub mod tokenizer;
