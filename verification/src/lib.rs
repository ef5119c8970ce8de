//! State-management core for a counter contract with an audit history and a
//! per-user registry of bookmarked numbers.
//!
//! The library owns the data model: insertion-ordered key-value containers,
//! forward/reverse pagination, deterministic entry-id generation, the counter
//! with its statistics, and the bookmark registry with its ownership and
//! visibility rules. The host runtime (message decoding, permit validation,
//! response padding) lives outside and hands the library plain values.

pub mod errors;
pub mod execute;
pub mod instantiate;
pub mod migrate;
pub mod msg;
pub mod query;
pub mod schema;
pub mod state;
pub mod time;
