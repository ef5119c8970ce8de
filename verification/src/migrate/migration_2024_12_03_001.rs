//! The migration that gave the counter its increment statistic.

use vstd::prelude::*;

verus! {

/// The counter record after this migration.
#[derive(Clone, Copy, Debug, PartialEq, Eq, Structural)]
pub struct NewState {
    pub count: i32,
    pub count_increment_count: i32,
}

/// The counter record before this migration: the bare count.
#[derive(Clone, Copy, Debug, PartialEq, Eq, Structural)]
pub struct OldState {
    pub count: i32,
}

/// Carries the old count over and starts the statistic at zero.
pub fn migrate_state(old_state: OldState) -> (r: NewState)
    ensures
        r.count == old_state.count,
        r.count_increment_count == 0,
{
    NewState { count: old_state.count, count_increment_count: 0 }
}

} // verus!
