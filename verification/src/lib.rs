//! Calculator core: a tokenizer for arithmetic expressions and a two-stack,
//! precedence-driven (shunting-yard style) evaluator.
//!
//! The evaluator reduces a token sequence to a single expression tree whose
//! shape records exactly which operands each operator combines, or fails with
//! a classified error. Realizing the tree as a double-precision number is a
//! small, value-level step left to the (unverified) caller, so that every
//! structural decision the calculator makes is verified here.
#![verifier::loop_isolation(false)]

pub mod calculator;
pub mod errors;
pub mod laws;
pub mod semantics;
