//! Networking: messages between nodes, and their bytes.

pub mod codec;
pub mod messages;
pub mod protocol;
pub mod types;

pub use messages::{NetworkEvent, NetworkReply};
pub use protocol::MEERKAT_PROTOCOL;
pub use types::{Address, MeerkatMessage, MessageId, NetworkCommand};
