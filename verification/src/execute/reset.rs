//! Resetting the counter, a manager-only operation.

use vstd::prelude::*;

use crate::errors::ContractError;
use crate::schema::StorageSchema;
use crate::state::state::State;

verus! {

/// What a reset does: the unauthorized error and no change for any sender
/// but the manager; for the manager, the counter overwritten and the reset
/// statistic advanced by one, with everything else untouched.
pub open spec fn spec_reset_post(
    prev: StorageSchema,
    post: StorageSchema,
    sender_addr: Seq<char>,
    count: i32,
    r: Result<(), ContractError>,
) -> bool {
    &&& post.wf()
    &&& (sender_addr != prev.config.contract_manager@ ==> r == Err::<(), ContractError>(
        ContractError::Unauthorized,
    ) && post == prev)
    &&& (sender_addr == prev.config.contract_manager@ ==> r == Ok::<(), ContractError>(())
        && post.state == (State {
        count,
        count_increment_count: prev.state.count_increment_count,
        count_reset_count: (prev.state.count_reset_count + 1) as i32,
    }) && post.config == prev.config && post.user_statistic_data == prev.user_statistic_data
        && post.user_count_update_history == prev.user_count_update_history
        && post.bookmarked_numbers == prev.bookmarked_numbers && post.schema_migration_versions
        == prev.schema_migration_versions)
}

/// Overwrites the counter with the given value and counts the reset; only
/// the configured contract manager may do it, and a failing call changes
/// nothing.
pub fn try_reset(schema: &mut StorageSchema, sender_addr: String, count: i32) -> (r: Result<
    (),
    ContractError,
>)
    requires
        old(schema).wf(),
        old(schema).state.count_reset_count < i32::MAX,
    ensures
        spec_reset_post(*old(schema), *final(schema), sender_addr@, count, r),
{
    if sender_addr != schema.config.contract_manager {
        return Err(ContractError::Unauthorized);
    }
    let mut state = schema.state;
    state.count = count;
    state.count_reset_count = state.count_reset_count + 1;
    schema.state = state;
    Ok(())
}

} // verus!
