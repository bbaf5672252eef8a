//! The core of a small Lisp: values, environments, the evaluator with its builtins, and the
//! reader that turns text into values.
//!
//! Every function states what it computes over a mathematical model: a value is taken by its
//! view, an environment by the chain of its scopes, and evaluation is the function
//! `semantics::eval_of` of scopes, value and nesting depth.

pub mod equality;
pub mod error;
pub mod eval;
pub mod laws;
pub mod lenv;
pub mod lookup;
pub mod lval;
pub mod parse;
pub mod roundtrip;
pub mod run;
pub mod semantics;
pub mod text;
