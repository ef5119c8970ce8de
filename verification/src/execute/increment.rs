//! Incrementing the counter.

use vstd::prelude::*;

use crate::errors::ContractError;
use crate::schema::StorageSchema;
use crate::state::ids::spec_external_id;
use crate::state::ordered::{family_add, index_of};
use crate::state::state::State;
use crate::state::user_count_update_history::{
    UserCountUpdateHistoryEntry, UserCountUpdateHistoryEntryModel,
};
use crate::state::user_statistic_data::UserStatisticData;
use crate::time::Timestamp;

verus! {

/// What an increment adds to the counter: the given delta, or one.
pub open spec fn spec_delta(count: Option<i32>) -> int {
    match count {
        Some(c) => c as int,
        None => 1,
    }
}

/// The statistic of `sender` as stored, or the zero statistic for a sender
/// never seen.
pub open spec fn spec_user_statistic(schema: StorageSchema, sender: Seq<char>) -> UserStatisticData {
    if schema.user_statistic_data.spec_contains(sender) {
        schema.user_statistic_data.spec_get(sender)
    } else {
        UserStatisticData { count_increment_count: 0 }
    }
}

/// The machine limits an increment must respect: none of the touched
/// counters or stores may overflow.
pub open spec fn spec_increment_pre(
    schema: StorageSchema,
    sender_addr: Seq<char>,
    count: Option<i32>,
) -> bool {
    &&& i32::MIN <= schema.state.count + spec_delta(count) <= i32::MAX
    &&& schema.state.count_increment_count < i32::MAX
    &&& spec_user_statistic(schema, sender_addr).count_increment_count < u32::MAX
    &&& schema.user_statistic_data.model().len() + 1 < u32::MAX
    &&& schema.user_count_update_history.next_id < u64::MAX
    &&& schema.user_count_update_history.entries.model().len() + 1 < u32::MAX
}

/// What an increment does: the counter moves by the delta, both increment
/// statistics advance by one, and exactly one history entry is appended.
pub open spec fn spec_increment_post(
    prev: StorageSchema,
    post: StorageSchema,
    now: Timestamp,
    sender_addr: Seq<char>,
    count: Option<i32>,
    mark_history_as_public: bool,
    r: Result<(), ContractError>,
) -> bool {
    &&& r == Ok::<(), ContractError>(())
    &&& post.wf()
    &&& post.state == (State {
        count: (prev.state.count + spec_delta(count)) as i32,
        count_increment_count: (prev.state.count_increment_count + 1) as i32,
        count_reset_count: prev.state.count_reset_count,
    })
    &&& (prev.user_statistic_data.spec_contains(sender_addr)
        ==> post.user_statistic_data.model() == prev.user_statistic_data.model().update(
        index_of(prev.user_statistic_data.key_model(), sender_addr),
        (
            sender_addr,
            UserStatisticData {
                count_increment_count: (spec_user_statistic(
                    prev,
                    sender_addr,
                ).count_increment_count + 1) as u32,
            },
        ),
    ))
    &&& (!prev.user_statistic_data.spec_contains(sender_addr)
        ==> post.user_statistic_data.model() == prev.user_statistic_data.model().push(
        (sender_addr, UserStatisticData { count_increment_count: 1 }),
    ))
    &&& post.user_count_update_history.entries.model()
        == prev.user_count_update_history.entries.model().push(
        (
            spec_external_id(prev.user_count_update_history.next_id, now.nanos),
            UserCountUpdateHistoryEntryModel {
                user_addr: sender_addr,
                count_change: spec_delta(count) as i32,
                created_at: now,
                marked_as_public_at: if mark_history_as_public {
                    Some(now)
                } else {
                    None
                },
            },
        ),
    )
    &&& post.user_count_update_history.user_index.model() == family_add(
        prev.user_count_update_history.user_index.model(),
        sender_addr,
        spec_external_id(prev.user_count_update_history.next_id, now.nanos),
    )
    &&& post.user_count_update_history.public_index@ == if mark_history_as_public {
        prev.user_count_update_history.public_index@.push(
            spec_external_id(prev.user_count_update_history.next_id, now.nanos),
        )
    } else {
        prev.user_count_update_history.public_index@
    }
    &&& post.config == prev.config
    &&& post.bookmarked_numbers == prev.bookmarked_numbers
    &&& post.schema_migration_versions == prev.schema_migration_versions
}

/// Adds the delta (default one) to the counter, counts the increment both
/// globally and for the sender, and appends one history entry — public, if
/// so asked.
pub fn try_increment(
    schema: &mut StorageSchema,
    now: Timestamp,
    sender_addr: String,
    count: Option<i32>,
    mark_history_as_public: bool,
) -> (r: Result<(), ContractError>)
    requires
        old(schema).wf(),
        spec_increment_pre(*old(schema), sender_addr@, count),
    ensures
        spec_increment_post(
            *old(schema),
            *final(schema),
            now,
            sender_addr@,
            count,
            mark_history_as_public,
            r,
        ),
{
    let count_change: i32 = if count.is_some() {
        count.unwrap()
    } else {
        1
    };
    let mut state = schema.state;
    state.count = state.count + count_change;
    state.count_increment_count = state.count_increment_count + 1;
    schema.state = state;
    let mut user_stats = match schema.user_statistic_data.get(&sender_addr) {
        Some(s) => *s,
        None => UserStatisticData::default(),
    };
    user_stats.count_increment_count = user_stats.count_increment_count + 1;
    schema.user_statistic_data.insert(&sender_addr, user_stats);
    let history_entry = UserCountUpdateHistoryEntry {
        user_addr: sender_addr.clone(),
        count_change,
        created_at: now,
        marked_as_public_at: if mark_history_as_public {
            Some(now)
        } else {
            None
        },
    };
    let added = schema.user_count_update_history.add_entry(now, history_entry);
    proof {
        assert(added is Ok);
    }
    Ok(())
}

} // verus!
