//! The execute calls: every operation that changes state.
//!
//! The host shell decodes the wire message, checks the machine limits the
//! arithmetic needs, and hands the dispatch plain values; the response
//! padding on the way out is the shell's business too.

pub mod bookmarked_numbers;
pub mod increment;
pub mod reset;

use vstd::prelude::*;

use crate::errors::ContractError;
use crate::msg::ExecuteMsg;
use crate::schema::StorageSchema;
use crate::time::Timestamp;

verus! {

/// Performs one execute call for the authenticated sender. Revoking a
/// permit touches the host's revoked-permit book, not the state here, so
/// that arm changes nothing and reports success.
pub fn execute_dispatch(
    schema: &mut StorageSchema,
    now: Timestamp,
    sender_addr: String,
    msg: ExecuteMsg,
) -> (r: Result<(), ContractError>)
    requires
        old(schema).wf(),
        msg matches ExecuteMsg::Increment { count, mark_history_as_public }
            ==> increment::spec_increment_pre(*old(schema), sender_addr@, count),
        msg matches ExecuteMsg::Reset { count } ==> old(schema).state.count_reset_count
            < i32::MAX,
        msg matches ExecuteMsg::AddBookmarkNumber { .. } ==> old(schema).bookmarked_numbers.next_id < u64::MAX && old(schema).bookmarked_numbers.entries.model().len() + 1 < u32::MAX,
    ensures
        final(schema).wf(),
        msg matches ExecuteMsg::Increment { count, mark_history_as_public }
            ==> increment::spec_increment_post(
            *old(schema),
            *final(schema),
            now,
            sender_addr@,
            count,
            match mark_history_as_public {
                Some(b) => b,
                None => false,
            },
            r,
        ),
        msg matches ExecuteMsg::Reset { count } ==> reset::spec_reset_post(
            *old(schema),
            *final(schema),
            sender_addr@,
            count,
            r,
        ),
        msg matches ExecuteMsg::AddBookmarkNumber { number, memo_text, mark_entry_as_public }
            ==> bookmarked_numbers::add_bookmark_number::spec_add_post(
            *old(schema),
            *final(schema),
            now,
            sender_addr@,
            number,
            memo_text@,
            mark_entry_as_public,
            r,
        ),
        msg matches ExecuteMsg::UpdateBookmarkedNumber { entry_id, memo_text, mark_entry_as_public }
            ==> bookmarked_numbers::update_bookmark_number_entry::spec_update_post(
            *old(schema),
            *final(schema),
            now,
            sender_addr@,
            entry_id@,
            memo_text@,
            mark_entry_as_public,
            r,
        ),
        msg matches ExecuteMsg::RevokePermit { .. } ==> r == Ok::<(), ContractError>(()) && *final(schema) == *old(schema),
{
    match msg {
        ExecuteMsg::Increment { count, mark_history_as_public } => {
            let mark = match mark_history_as_public {
                Some(b) => b,
                None => false,
            };
            increment::try_increment(schema, now, sender_addr, count, mark)
        },
        ExecuteMsg::Reset { count } => reset::try_reset(schema, sender_addr, count),
        ExecuteMsg::AddBookmarkNumber { number, memo_text, mark_entry_as_public } => {
            bookmarked_numbers::add_bookmark_number::execute(
                schema,
                now,
                sender_addr,
                number,
                memo_text,
                mark_entry_as_public,
            )
        },
        ExecuteMsg::UpdateBookmarkedNumber { entry_id, memo_text, mark_entry_as_public } => {
            bookmarked_numbers::update_bookmark_number_entry::execute(
                schema,
                now,
                sender_addr,
                entry_id,
                memo_text,
                mark_entry_as_public,
            )
        },
        ExecuteMsg::RevokePermit { .. } => {
            // the revoked-permit book lives with the host
            Ok(())
        },
    }
}

} // verus!
