//! Live updates of services.

pub mod aftermath;
pub mod blocks;
pub mod changes;
pub mod commit;
pub mod coverage;
pub mod definitions;
pub mod effects;
pub mod needs;
pub mod nesting;
pub mod outcomes;
pub mod patch;
pub mod pieces;
pub mod printing;
pub mod reading;
pub mod run;
pub mod scanning;
pub mod tokens;
pub mod transaction;
pub mod values;

pub use blocks::transactions_of;
pub use printing::{format_decl, format_expr, format_update_source};
pub use transaction::{Transaction, TransactionState};
