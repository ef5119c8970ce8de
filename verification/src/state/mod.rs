//! The stored state: containers, records and their managers.

pub mod config;
pub mod ids;
pub mod ordered;
pub mod bookmarked_numbers;
pub mod state;
pub mod user_count_update_history;
pub mod user_statistic_data;
pub mod utils;
