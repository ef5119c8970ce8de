//! The storage schema: every named store of the contract as one value.
//!
//! The running contract keeps these stores in the host's key-value storage;
//! here they are fields of a single context passed to every operation. Each
//! constructed schema is its own isolated namespace.

use vstd::prelude::*;

use crate::state::bookmarked_numbers::BookmarkedNumbersManager;
use crate::state::config::Config;
use crate::state::ordered::OrderedMap;
use crate::state::state::State;
use crate::state::user_count_update_history::UserCountUpdateHistoryManager;
use crate::state::user_statistic_data::UserStatisticData;

verus! {

/// The contract's whole state.
pub struct StorageSchema {
    /// The counter and its statistics.
    pub state: State,
    /// The manager address and the contract's own address.
    pub config: Config,
    /// Per user, that user's statistics.
    pub user_statistic_data: OrderedMap<UserStatisticData>,
    /// The audit log of counter changes.
    pub user_count_update_history: UserCountUpdateHistoryManager,
    /// The registry of bookmarked numbers.
    pub bookmarked_numbers: BookmarkedNumbersManager,
    /// The migration versions already run, if any were recorded.
    pub schema_migration_versions: Option<Vec<String>>,
}

impl StorageSchema {
    /// The whole state is well-formed: each manager's invariant holds.
    pub open spec fn wf(&self) -> bool {
        &&& self.user_statistic_data.wf()
        &&& self.user_statistic_data.model().len() < u32::MAX
        &&& self.user_count_update_history.wf()
        &&& self.bookmarked_numbers.wf()
    }
}

} // verus!
