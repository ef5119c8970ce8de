//! Reading the global statistics.

use vstd::prelude::*;

use crate::msg::response::QueryAnswer;
use crate::schema::StorageSchema;

verus! {

/// The global increment and reset counts. The dispatch layer grants this to
/// the contract manager alone.
pub fn query_global_statistic_data(schema: &StorageSchema, _viewer: String) -> (r: QueryAnswer)
    ensures
        r == (QueryAnswer::GlobalStatisticData {
            count_increment_count: schema.state.count_increment_count,
            count_reset_count: schema.state.count_reset_count,
        }),
{
    QueryAnswer::GlobalStatisticData {
        count_increment_count: schema.state.count_increment_count,
        count_reset_count: schema.state.count_reset_count,
    }
}

} // verus!
