//! Reading the viewer's own statistics.

use vstd::prelude::*;

use crate::execute::increment::spec_user_statistic;
use crate::msg::response::QueryAnswer;
use crate::schema::StorageSchema;

verus! {

/// The viewer's increment count; a viewer never seen reads as zero.
pub fn query_user_statistic_data(schema: &StorageSchema, viewer: String) -> (r: QueryAnswer)
    requires
        schema.wf(),
    ensures
        r == (QueryAnswer::UserStatisticData {
            count_increment_count: spec_user_statistic(*schema, viewer@).count_increment_count,
        }),
{
    let state = match schema.user_statistic_data.get(&viewer) {
        Some(s) => *s,
        None => crate::state::user_statistic_data::UserStatisticData::default(),
    };
    QueryAnswer::UserStatisticData { count_increment_count: state.count_increment_count }
}

} // verus!
