//! Creating a bookmark from an execute call.

use vstd::prelude::*;

use crate::errors::ContractError;
use crate::schema::StorageSchema;
use crate::state::bookmarked_numbers::{BookmarkedNumberEntry, BookmarkedNumberEntryModel};
use crate::state::ids::spec_external_id;
use crate::state::ordered::family_add;
use crate::time::Timestamp;

verus! {

/// The entry an execute call creates: owned by the sender, created and
/// updated now, and public from the start if so asked.
pub open spec fn spec_new_entry(
    sender: Seq<char>,
    number: i32,
    memo: Seq<char>,
    mark_entry_as_public: bool,
    now: Timestamp,
) -> BookmarkedNumberEntryModel {
    BookmarkedNumberEntryModel {
        owner_addr: sender,
        number,
        memo_text: memo,
        marked_as_public_at: if mark_entry_as_public {
            Some(now)
        } else {
            None
        },
        created_at: now,
        updated_at: now,
    }
}

/// What creating a bookmark does: the duplicate error and no change when
/// the sender already bookmarked the number; otherwise one entry appended
/// under a fresh id and indexed per owner, per number, and — when public —
/// in both public indexes.
pub open spec fn spec_add_post(
    prev: StorageSchema,
    post: StorageSchema,
    now: Timestamp,
    sender_addr: Seq<char>,
    number: i32,
    memo_text: Seq<char>,
    mark_entry_as_public: bool,
    r: Result<(), ContractError>,
) -> bool {
    &&& post.wf()
    &&& (r is Err <==> prev.bookmarked_numbers.has_number(sender_addr, number))
    &&& (r is Err ==> r == Err::<(), ContractError>(ContractError::DuplicateNumber) && post
        == prev)
    &&& (r is Ok ==> {
        let id = spec_external_id(prev.bookmarked_numbers.next_id, now.nanos);
        let e = spec_new_entry(sender_addr, number, memo_text, mark_entry_as_public, now);
        &&& post.bookmarked_numbers.entries.model()
            == prev.bookmarked_numbers.entries.model().push((id, e))
        &&& post.bookmarked_numbers.owner_entry_index.model() == family_add(
            prev.bookmarked_numbers.owner_entry_index.model(),
            sender_addr,
            id,
        )
        &&& post.bookmarked_numbers.owner_number_index.model() == family_add(
            prev.bookmarked_numbers.owner_number_index.model(),
            sender_addr,
            number,
        )
        &&& post.bookmarked_numbers.global_public_entry_index@ == if mark_entry_as_public {
            prev.bookmarked_numbers.global_public_entry_index@.push(id)
        } else {
            prev.bookmarked_numbers.global_public_entry_index@
        }
        &&& post.bookmarked_numbers.number_public_index.model() == if mark_entry_as_public {
            family_add(prev.bookmarked_numbers.number_public_index.model(), number, id)
        } else {
            prev.bookmarked_numbers.number_public_index.model()
        }
        &&& post.bookmarked_numbers.next_id == prev.bookmarked_numbers.next_id + 1
        &&& post.state == prev.state
        &&& post.config == prev.config
        &&& post.user_statistic_data == prev.user_statistic_data
        &&& post.user_count_update_history == prev.user_count_update_history
        &&& post.schema_migration_versions == prev.schema_migration_versions
    })
}

/// Bookmarks `number` for the sender, or fails with the duplicate error —
/// changing nothing — when the sender already bookmarked it.
pub fn execute(
    schema: &mut StorageSchema,
    now: Timestamp,
    sender_addr: String,
    number: i32,
    memo_text: String,
    mark_entry_as_public: bool,
) -> (r: Result<(), ContractError>)
    requires
        old(schema).wf(),
        old(schema).bookmarked_numbers.next_id < u64::MAX,
        old(schema).bookmarked_numbers.entries.model().len() + 1 < u32::MAX,
    ensures
        spec_add_post(
            *old(schema),
            *final(schema),
            now,
            sender_addr@,
            number,
            memo_text@,
            mark_entry_as_public,
            r,
        ),
        final(schema).wf(),
        r is Err <==> old(schema).bookmarked_numbers.has_number(sender_addr@, number),
        r is Err ==> r == Err::<(), ContractError>(ContractError::DuplicateNumber) && *final(schema) == *old(schema),
        r is Ok ==> {
            let id = spec_external_id(old(schema).bookmarked_numbers.next_id, now.nanos);
            let e = spec_new_entry(sender_addr@, number, memo_text@, mark_entry_as_public, now);
            &&& final(schema).bookmarked_numbers.entries.model() == old(schema).bookmarked_numbers.entries.model().push((id, e))
            &&& final(schema).bookmarked_numbers.owner_entry_index.model() == family_add(
                old(schema).bookmarked_numbers.owner_entry_index.model(),
                sender_addr@,
                id,
            )
            &&& final(schema).bookmarked_numbers.owner_number_index.model() == family_add(
                old(schema).bookmarked_numbers.owner_number_index.model(),
                sender_addr@,
                number,
            )
            &&& final(schema).bookmarked_numbers.global_public_entry_index@
                == if mark_entry_as_public {
                old(schema).bookmarked_numbers.global_public_entry_index@.push(id)
            } else {
                old(schema).bookmarked_numbers.global_public_entry_index@
            }
            &&& final(schema).bookmarked_numbers.number_public_index.model()
                == if mark_entry_as_public {
                family_add(old(schema).bookmarked_numbers.number_public_index.model(), number, id)
            } else {
                old(schema).bookmarked_numbers.number_public_index.model()
            }
            &&& final(schema).bookmarked_numbers.next_id == old(schema).bookmarked_numbers.next_id + 1
        },
        final(schema).state == old(schema).state,
        final(schema).config == old(schema).config,
        final(schema).user_statistic_data == old(schema).user_statistic_data,
        final(schema).user_count_update_history == old(schema).user_count_update_history,
        final(schema).schema_migration_versions == old(schema).schema_migration_versions,
{
    let entry = BookmarkedNumberEntry {
        owner_addr: sender_addr,
        number,
        memo_text,
        marked_as_public_at: if mark_entry_as_public {
            Some(now)
        } else {
            None
        },
        created_at: now,
        updated_at: now,
    };
    schema.bookmarked_numbers.add_one_entry(now, entry)
}

} // verus!
