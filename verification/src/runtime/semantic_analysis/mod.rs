//! Which names an expression reads.

pub mod read_write;
