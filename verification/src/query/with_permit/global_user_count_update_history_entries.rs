//! Reading the whole audit log, a manager-only query.

use vstd::prelude::*;

use crate::errors::ContractError;
use crate::msg::response::QueryAnswer;
use crate::query::{history_entries_in_response, spec_history_entry_in_response};
use crate::schema::StorageSchema;
use crate::state::utils::{page_in_bounds, page_of, read_order};

verus! {

/// What this query answers: one page of all history entries with the global
/// total, newest first when asked, and the out-of-bounds error exactly when
/// the page starts beyond the end.
pub open spec fn spec_query_post(
    schema: StorageSchema,
    page_one_based: u32,
    page_size: u32,
    reverse_order: bool,
    r: Result<QueryAnswer, ContractError>,
) -> bool {
    &&& (r is Ok <==> page_in_bounds(
        schema.user_count_update_history.entries.model(),
        (page_one_based - 1) as u32,
        page_size,
    ))
    &&& (r is Err ==> r == Err::<QueryAnswer, ContractError>(ContractError::OutOfBounds))
    &&& (r matches Ok(a) ==> (a matches QueryAnswer::UserCountUpdateHistoryEntries {
        entries,
        total_count,
    } && entries@.map_values(|e: crate::msg::response::UserCountUpdateHistoryEntryInResponse| e@)
        == page_of(
        read_order(schema.user_count_update_history.entries.key_model(), reverse_order),
        (page_one_based - 1) as u32,
        page_size,
    ).map_values(
        |id: Seq<char>| spec_history_entry_in_response(
            schema.user_count_update_history.entries.spec_get(id),
        ),
    ) && total_count == schema.user_count_update_history.entries.model().len()))
}

/// One page of all history entries with the global total, newest first when
/// asked. The dispatch layer grants this to the contract manager alone.
pub fn query_global_user_count_update_history_entries(
    schema: &StorageSchema,
    page_one_based: u32,
    page_size: u32,
    reverse_order: bool,
) -> (r: Result<QueryAnswer, ContractError>)
    requires
        schema.wf(),
        page_one_based >= 1,
    ensures
        spec_query_post(*schema, page_one_based, page_size, reverse_order, r),
{
    proof {
        schema.user_count_update_history.entries.lemma_models_agree();
    }
    let entries = match schema.user_count_update_history.get_global_entries(
        page_one_based - 1,
        page_size,
        reverse_order,
    ) {
        Ok(v) => v,
        Err(e) => {
            return Err(e);
        },
    };
    let response_entries = history_entries_in_response(&entries);
    let total_count = schema.user_count_update_history.get_global_entries_total_count();
    proof {
        crate::query::lemma_history_page_glue(
            schema.user_count_update_history.entries,
            page_of(
                read_order(schema.user_count_update_history.entries.key_model(), reverse_order),
                (page_one_based - 1) as u32,
                page_size,
            ),
            entries@,
            response_entries@,
        );
    }
    Ok(QueryAnswer::UserCountUpdateHistoryEntries { entries: response_entries, total_count })
}

} // verus!
