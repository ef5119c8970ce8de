//! Reading all bookmarks, a permit-gated query.

use vstd::prelude::*;

use crate::errors::ContractError;
use crate::msg::response::QueryAnswer;
use crate::query::{bookmark_entries_in_response, spec_bookmark_entry_in_response};
use crate::schema::StorageSchema;
use crate::state::utils::{page_in_bounds, page_of, read_order};

verus! {

/// What this query answers: one page of all bookmarks with the global
/// total, newest first when asked, and the out-of-bounds error exactly when
/// the page starts beyond the end.
pub open spec fn spec_query_post(
    schema: StorageSchema,
    page_one_based: u32,
    page_size: u32,
    reverse_order: bool,
    r: Result<QueryAnswer, ContractError>,
) -> bool {
    &&& (r is Ok <==> page_in_bounds(
        schema.bookmarked_numbers.entries.model(),
        (page_one_based - 1) as u32,
        page_size,
    ))
    &&& (r is Err ==> r == Err::<QueryAnswer, ContractError>(ContractError::OutOfBounds))
    &&& (r matches Ok(a) ==> (a matches QueryAnswer::BookmarkedNumberEntries {
        entries,
        total_count,
    } && entries@.map_values(|e: crate::msg::response::BookmarkedNumberEntryInResponse| e@)
        == page_of(
        read_order(schema.bookmarked_numbers.entries.key_model(), reverse_order),
        (page_one_based - 1) as u32,
        page_size,
    ).map_values(
        |id: Seq<char>| spec_bookmark_entry_in_response(
            (id, schema.bookmarked_numbers.entries.spec_get(id)),
        ),
    ) && total_count == schema.bookmarked_numbers.entries.model().len()))
}

/// One page of all bookmarks with the global total, newest first when asked.
pub fn query_entries(
    schema: &StorageSchema,
    page_one_based: u32,
    page_size: u32,
    reverse_order: bool,
) -> (r: Result<QueryAnswer, ContractError>)
    requires
        schema.wf(),
        page_one_based >= 1,
    ensures
        spec_query_post(*schema, page_one_based, page_size, reverse_order, r),
{
    proof {
        schema.bookmarked_numbers.entries.lemma_models_agree();
    }
    let entries = match schema.bookmarked_numbers.get_global_entries(
        page_one_based - 1,
        page_size,
        reverse_order,
    ) {
        Ok(v) => v,
        Err(e) => {
            return Err(e);
        },
    };
    let response_entries = bookmark_entries_in_response(&entries);
    let total_count = schema.bookmarked_numbers.get_global_entries_total_count();
    proof {
        crate::query::lemma_bookmark_page_glue(
            schema.bookmarked_numbers.entries,
            page_of(
                read_order(schema.bookmarked_numbers.entries.key_model(), reverse_order),
                (page_one_based - 1) as u32,
                page_size,
            ),
            entries@,
            response_entries@,
        );
    }
    Ok(QueryAnswer::BookmarkedNumberEntries { entries: response_entries, total_count })
}

} // verus!
