//! Updating a bookmark from an execute call.

use vstd::prelude::*;

use crate::errors::ContractError;
use crate::schema::StorageSchema;
use crate::state::bookmarked_numbers::{BookmarkedNumbersManager, UpdateOneEntryPayload};
use crate::state::ordered::{family_add, family_remove, index_of};
use crate::time::Timestamp;

verus! {

/// What updating a bookmark does: the not-found, authorization or blocked-
/// transition error — each changing nothing — or the entry rewritten with
/// the visibility transition applied to the public indexes.
pub open spec fn spec_update_post(
    prev_schema: StorageSchema,
    post_schema: StorageSchema,
    now: Timestamp,
    sender_addr: Seq<char>,
    entry_id: Seq<char>,
    memo_text: Seq<char>,
    mark_entry_as_public: bool,
    r: Result<(), ContractError>,
) -> bool {
    let prev = prev_schema.bookmarked_numbers;
    &&& post_schema.wf()
    &&& post_schema.state == prev_schema.state
    &&& post_schema.config == prev_schema.config
    &&& post_schema.user_statistic_data == prev_schema.user_statistic_data
    &&& post_schema.user_count_update_history == prev_schema.user_count_update_history
    &&& post_schema.schema_migration_versions == prev_schema.schema_migration_versions
    &&& (!prev.entries.spec_contains(entry_id) ==> r == Err::<(), ContractError>(
        ContractError::NotFound,
    ) && post_schema == prev_schema)
    &&& (prev.entries.spec_contains(entry_id) && !prev.authorized(sender_addr, entry_id) ==> r
        == Err::<(), ContractError>(ContractError::Unauthorized) && post_schema == prev_schema)
    &&& (prev.entries.spec_contains(entry_id) && prev.authorized(sender_addr, entry_id)
        && prev.entries.spec_get(entry_id).marked_as_public_at is Some && !mark_entry_as_public
        && !prev.removable(entry_id) ==> r == Err::<(), ContractError>(
        ContractError::UnsupportedTransition,
    ) && post_schema == prev_schema)
    &&& (prev.entries.spec_contains(entry_id) && prev.authorized(sender_addr, entry_id) && !(
    prev.entries.spec_get(entry_id).marked_as_public_at is Some && !mark_entry_as_public
        && !prev.removable(entry_id)) ==> {
        let old_e = prev.entries.spec_get(entry_id);
        let new_e = BookmarkedNumbersManager::updated_entry(
            old_e,
            memo_text,
            mark_entry_as_public,
            now,
        );
        &&& r == Ok::<(), ContractError>(())
        &&& post_schema.bookmarked_numbers.entries.model() == prev.entries.model().update(
            index_of(prev.entries.key_model(), entry_id),
            (entry_id, new_e),
        )
        &&& post_schema.bookmarked_numbers.owner_entry_index == prev.owner_entry_index
        &&& post_schema.bookmarked_numbers.owner_number_index == prev.owner_number_index
        &&& post_schema.bookmarked_numbers.next_id == prev.next_id
        &&& (old_e.marked_as_public_at is None && mark_entry_as_public
            ==> post_schema.bookmarked_numbers.global_public_entry_index@
            == prev.global_public_entry_index@.push(entry_id)
            && post_schema.bookmarked_numbers.number_public_index.model() == family_add(
            prev.number_public_index.model(),
            old_e.number,
            entry_id,
        ))
        &&& (old_e.marked_as_public_at is Some && !mark_entry_as_public
            ==> post_schema.bookmarked_numbers.global_public_entry_index@
            == prev.global_public_entry_index@.drop_last()
            && post_schema.bookmarked_numbers.number_public_index.model() == family_remove(
            prev.number_public_index.model(),
            old_e.number,
            entry_id,
        ))
        &&& ((old_e.marked_as_public_at is Some) == mark_entry_as_public
            ==> post_schema.bookmarked_numbers.global_public_entry_index
            == prev.global_public_entry_index
            && post_schema.bookmarked_numbers.number_public_index == prev.number_public_index)
    })
}

/// Rewrites the entry under `entry_id` for the sender: the manager's update
/// rules decide, and a failing call changes nothing.
pub fn execute(
    schema: &mut StorageSchema,
    now: Timestamp,
    sender_addr: String,
    entry_id: String,
    memo_text: String,
    mark_entry_as_public: bool,
) -> (r: Result<(), ContractError>)
    requires
        old(schema).wf(),
    ensures
        spec_update_post(
            *old(schema),
            *final(schema),
            now,
            sender_addr@,
            entry_id@,
            memo_text@,
            mark_entry_as_public,
            r,
        ),
{
    schema.bookmarked_numbers.update_one_entry(
        now,
        sender_addr,
        UpdateOneEntryPayload { entry_id, memo_text, mark_entry_as_public },
    )
}

} // verus!
