//! Bringing a fresh contract instance to life.

use vstd::prelude::*;

use crate::migrate::{all_migration_version, spec_all_versions};
use crate::schema::StorageSchema;
use crate::state::bookmarked_numbers::BookmarkedNumbersManager;
use crate::state::config::Config;
use crate::state::ordered::OrderedMap;
use crate::state::state::State;
use crate::state::user_count_update_history::UserCountUpdateHistoryManager;

verus! {

/// The state of a freshly instantiated contract: the counter at the given
/// value with zeroed statistics, the given manager in charge, empty
/// registries, and every known migration recorded as already run.
pub fn perform_instantiate(count: i32, contract_manager: String, contract_address: String) -> (r:
    StorageSchema)
    ensures
        r.wf(),
        r.state == (State { count, count_increment_count: 0, count_reset_count: 0 }),
        r.config.contract_manager@ == contract_manager@,
        r.config.contract_address@ == contract_address@,
        r.user_statistic_data.model().len() == 0,
        r.user_count_update_history.entries.model().len() == 0,
        r.user_count_update_history.public_index@.len() == 0,
        r.user_count_update_history.next_id == 1,
        r.bookmarked_numbers.entries.model().len() == 0,
        r.bookmarked_numbers.global_public_entry_index@.len() == 0,
        r.bookmarked_numbers.next_id == 1,
        r.schema_migration_versions matches Some(v) && v@.map_values(|s: String| s@)
            == spec_all_versions(),
{
    let state = State { count, count_increment_count: 0, count_reset_count: 0 };
    let config = Config { contract_manager, contract_address };
    // every migration the code knows is already reflected in a fresh schema
    let schema_migrations = all_migration_version();
    StorageSchema {
        state,
        config,
        user_statistic_data: OrderedMap::new(),
        user_count_update_history: UserCountUpdateHistoryManager::new(),
        bookmarked_numbers: BookmarkedNumbersManager::new(),
        schema_migration_versions: Some(schema_migrations),
    }
}

} // verus!
