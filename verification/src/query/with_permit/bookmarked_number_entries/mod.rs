//! The permit-gated bookmark queries.

pub mod global_entries;
pub mod one_owned_entry;
pub mod owned_entries;
