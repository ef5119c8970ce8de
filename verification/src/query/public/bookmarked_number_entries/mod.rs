//! The public bookmark queries.

pub mod global_public_entries;
