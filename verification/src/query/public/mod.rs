//! The queries open to everyone.

pub mod bookmarked_number_entries;
