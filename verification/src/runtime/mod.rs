//! The language runtime: syntax, static analysis, evaluation and updates.

pub mod ast;
pub mod blame;
pub mod collections;
pub mod creation;
pub mod fetch;
pub mod graphs;
pub mod html;
pub mod import_order;
pub mod import_requests;
pub mod importing;
pub mod imports;
pub mod interner;
pub mod interpreter;
pub mod limits;
pub mod loading;
pub mod locking;
pub mod lookup;
pub mod manager;
pub mod nameres;
pub mod node;
pub mod parser;
pub mod semantic_analysis;
pub mod resolution;
pub mod startup;
pub mod text;
pub mod tree;
pub mod tt;
pub mod txn;
pub mod update;
pub mod wait_die;
pub mod web;

pub use interner::Interner;
pub use node::Node;
