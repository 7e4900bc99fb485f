//! Meerkat: a distributed reactive programming language.

pub mod error;
pub mod net;
pub mod runtime;
