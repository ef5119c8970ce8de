//! Per-user counter statistics.

use vstd::prelude::*;

verus! {

/// What the contract remembers about one user: how often they incremented
/// the counter. Created lazily with a zero count on the first increment.
#[derive(Clone, Copy, Debug, PartialEq, Eq, Structural)]
pub struct UserStatisticData {
    pub count_increment_count: u32,
}

impl View for UserStatisticData {
    type V = UserStatisticData;

    open spec fn view(&self) -> UserStatisticData {
        *self
    }
}

impl Default for UserStatisticData {
    /// The statistic of a user that never incremented.
    fn default() -> (r: UserStatisticData)
        ensures
            r.count_increment_count == 0,
    {
        UserStatisticData { count_increment_count: 0 }
    }
}

} // verus!
