//! Evaluation of expressions.

pub mod evaluator;
pub mod laws;
pub mod locks;
pub mod members;
pub mod pages;
pub mod reads;
pub mod scoping;

pub use evaluator::{eval, EvalContext, EvalError};
