//! Types and type checking.

pub mod check;
pub mod debug;
pub mod flow;
pub mod order;
pub mod soundness;
pub mod types;
pub mod typing;

pub use types::{Param, Type};
