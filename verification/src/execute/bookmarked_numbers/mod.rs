//! The bookmark-related execute calls.

pub mod add_bookmark_number;
pub mod update_bookmark_number_entry;
