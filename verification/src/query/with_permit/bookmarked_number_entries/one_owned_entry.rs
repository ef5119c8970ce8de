//! Reading one of the viewer's own bookmarks by id.

use vstd::prelude::*;

use crate::errors::ContractError;
use crate::msg::response::{BookmarkedNumberEntryInResponse, QueryAnswer};
use crate::query::spec_bookmark_entry_in_response;
use crate::schema::StorageSchema;

verus! {

/// What this query answers: the entry under `entry_id` for its owner, the
/// not-found error for an unknown id, and the authorization error for a
/// viewer that is not the owner.
pub open spec fn spec_query_post(
    schema: StorageSchema,
    viewer: Seq<char>,
    entry_id: Seq<char>,
    r: Result<QueryAnswer, ContractError>,
) -> bool {
    &&& (!schema.bookmarked_numbers.entries.spec_contains(entry_id) ==> r == Err::<
        QueryAnswer,
        ContractError,
    >(ContractError::NotFound))
    &&& (schema.bookmarked_numbers.entries.spec_contains(entry_id)
        && !schema.bookmarked_numbers.authorized(viewer, entry_id) ==> r == Err::<
        QueryAnswer,
        ContractError,
    >(ContractError::Unauthorized))
    &&& (schema.bookmarked_numbers.entries.spec_contains(entry_id)
        && schema.bookmarked_numbers.authorized(viewer, entry_id) ==> (r matches Ok(a) && (
    a matches QueryAnswer::OneBookmarkedNumberEntry { entry } && entry@
        == spec_bookmark_entry_in_response(
        (entry_id, schema.bookmarked_numbers.entries.spec_get(entry_id)),
    ))))
}

/// The entry under `entry_id`, for its owner's eyes: an unknown id fails
/// with the not-found error, a viewer that is not the owner with the
/// authorization error.
pub fn query(schema: &StorageSchema, viewer: String, entry_id: String) -> (r: Result<
    QueryAnswer,
    ContractError,
>)
    requires
        schema.wf(),
    ensures
        spec_query_post(*schema, viewer@, entry_id@, r),
{
    let entry = match schema.bookmarked_numbers.get_one_owned_entry(viewer, entry_id.clone()) {
        Ok(e) => e,
        Err(e) => {
            return Err(e);
        },
    };
    Ok(
        QueryAnswer::OneBookmarkedNumberEntry {
            entry: BookmarkedNumberEntryInResponse {
                entry_id,
                owner_addr: entry.owner_addr,
                number: entry.number,
                memo_text: entry.memo_text,
                marked_as_public_at_in_ms: match entry.marked_as_public_at {
                    Some(t) => Some(t.millis()),
                    None => None,
                },
                created_at_in_ms: entry.created_at.millis(),
                updated_at_in_ms: entry.updated_at.millis(),
            },
        },
    )
}

} // verus!
