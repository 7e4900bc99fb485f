//! System limits.

use vstd::prelude::*;

verus! {

/// Maximum allowed length of an identifier in characters.
pub const MAX_IDENTIFIER_LENGTH: usize = 64;

/// Maximum allowed length of a string literal in characters.
pub const MAX_STRING_LITERAL_LENGTH: usize = 8192;

/// Maximum allowed nesting depth of a type structure.
pub const MAX_TYPE_DEPTH: usize = 16;

/// Maximum length of a path or reply address in a network request.
pub const MAX_NET_REQUEST_STRING_LENGTH: usize = 4096;

/// Maximum nesting depth of scope blocks.
pub const MAX_SCOPE_DEPTH: usize = 64;

/// Maximum allowed time in seconds for an individual import attempt.
pub const INDIVIDUAL_IMPORT_TIMEOUT_SECS: u64 = 2;

/// Maximum number of retry attempts for an individual import request.
pub const MAX_IMPORT_RETRIES: u8 = 5;

/// Backoff delay in milliseconds between import retry attempts.
pub const IMPORT_RETRY_DELAY_MS: u64 = 200;

/// Polling interval in milliseconds for the network import event loop.
pub const IMPORT_POLL_INTERVAL_MS: u64 = 10;

/// Maximum length of source code received over the network in bytes.
pub const MAX_NET_REQUEST_SOURCE_LENGTH: usize = 1_048_576;

/// Maximum number of services allowed to be imported.
pub const MAX_IMPORTED_SERVICES: usize = 256;

/// Maximum number of pending update requests allowed per peer.
pub const MAX_PENDING_UPDATES_PER_PEER: usize = 32;

/// How often a transaction tries again for locks that others hold. The number is also the time
/// limit of a transaction that waits: one that waits each time gives up after about 200 ms.
pub const MAX_WAIT_DIE_RETRIES: u32 = 10;

/// Pause in milliseconds before a transaction that let go of its locks starts anew.
pub const WAIT_DIE_RETRY_BACKOFF_MS: u64 = 2;

/// Pause in milliseconds before a transaction looks again for a lock that it waits for. The holder
/// has to have time to finish.
pub const WAIT_ON_RETRY_BACKOFF_MS: u64 = 20;

} // verus!
