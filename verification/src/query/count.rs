//! Reading the counter.

use vstd::prelude::*;

use crate::msg::response::CountResponse;
use crate::schema::StorageSchema;

verus! {

/// The current count.
pub fn query_count(schema: &StorageSchema) -> (r: CountResponse)
    ensures
        r.count == schema.state.count,
{
    CountResponse { count: schema.state.count }
}

} // verus!
