use counter_bookmarks::errors::ContractError;
use counter_bookmarks::instantiate::perform_instantiate;
use counter_bookmarks::msg::response::{
    BookmarkedNumberEntryInResponse, QueryAnswer, UserCountUpdateHistoryEntryInResponse,
};
use counter_bookmarks::msg::QueryWithPermit;
use counter_bookmarks::query::count::query_count;
use counter_bookmarks::query::global_public_user_count_update_history_entries;
use counter_bookmarks::query::privileges::query_privileges;
use counter_bookmarks::query::public::bookmarked_number_entries::global_public_entries;
use counter_bookmarks::query::with_permit;
use counter_bookmarks::query::with_permit::bookmarked_number_entries::{
    global_entries, one_owned_entry, owned_entries,
};
use counter_bookmarks::schema::StorageSchema;
use counter_bookmarks::state::bookmarked_numbers::BookmarkedNumberEntry;
use counter_bookmarks::state::ids::external_id;
use counter_bookmarks::state::state::State;
use counter_bookmarks::state::user_count_update_history::UserCountUpdateHistoryEntry;
use counter_bookmarks::state::user_statistic_data::UserStatisticData;
use counter_bookmarks::time::Timestamp;

fn mock_env_time() -> Timestamp {
    Timestamp::from_nanos(1_571_797_419_879_305_533)
}

fn fresh_schema() -> StorageSchema {
    perform_instantiate(17, "contract_manager".to_string(), "contract_address".to_string())
}

fn entry(owner: &str, number: i32, memo: &str, public_at: Option<Timestamp>) -> BookmarkedNumberEntry {
    BookmarkedNumberEntry {
        owner_addr: owner.to_string(),
        number,
        memo_text: memo.to_string(),
        marked_as_public_at: public_at,
        created_at: Timestamp::default(),
        updated_at: Timestamp::default(),
    }
}

fn history_entry(
    user: &str,
    count_change: i32,
    public_at: Option<Timestamp>,
) -> UserCountUpdateHistoryEntry {
    UserCountUpdateHistoryEntry {
        user_addr: user.to_string(),
        count_change,
        created_at: Timestamp::default(),
        marked_as_public_at: public_at,
    }
}

fn bookmark_response(
    entry_id: String,
    owner: &str,
    number: i32,
    memo: &str,
    marked_ms: Option<u64>,
) -> BookmarkedNumberEntryInResponse {
    BookmarkedNumberEntryInResponse {
        entry_id,
        owner_addr: owner.to_string(),
        number,
        memo_text: memo.to_string(),
        marked_as_public_at_in_ms: marked_ms,
        created_at_in_ms: 0,
        updated_at_in_ms: 0,
    }
}

fn history_response(user: &str, count_change: i32) -> UserCountUpdateHistoryEntryInResponse {
    UserCountUpdateHistoryEntryInResponse {
        user_addr: user.to_string(),
        count_change,
        created_at_in_ms: 0,
    }
}

#[test]
fn query_count_works() {
    let schema = fresh_schema();
    assert_eq!(query_count(&schema).count, 17);
}

#[test]
fn query_privileges_works() {
    let schema = fresh_schema();
    assert!(query_privileges(&schema, "contract_manager".to_string()).is_contract_manager);
    assert!(!query_privileges(&schema, "someone_else".to_string()).is_contract_manager);
}

#[test]
fn global_public_user_count_update_history_entries_query_user_count_update_history_entries_works() {
    let mut schema = fresh_schema();
    let env = mock_env_time();
    let user_addr = "user_addr";

    let entries = vec![
        history_entry(user_addr, 1, Some(Timestamp::from_nanos(0))),
        history_entry(user_addr, 2, None),
        history_entry(user_addr, 3, Some(Timestamp::from_nanos(0))),
        history_entry(user_addr, 4, Some(Timestamp::from_nanos(0))),
        history_entry(user_addr, 5, Some(Timestamp::from_nanos(0))),
    ];
    for e in &entries {
        assert!(schema.user_count_update_history.add_entry(env, e.clone()).is_ok());
    }
    // actual query
    assert_eq!(
        global_public_user_count_update_history_entries::query_user_count_update_history_entries(
            &schema, 1, 3, false,
        )
        .unwrap(),
        QueryAnswer::UserCountUpdateHistoryEntries {
            entries: vec![
                history_response(user_addr, 1),
                history_response(user_addr, 3),
                history_response(user_addr, 4),
            ],
            total_count: 4,
        },
    );
    assert_eq!(
        global_public_user_count_update_history_entries::query_user_count_update_history_entries(
            &schema, 1, 3, true,
        )
        .unwrap(),
        QueryAnswer::UserCountUpdateHistoryEntries {
            entries: vec![
                history_response(user_addr, 5),
                history_response(user_addr, 4),
                history_response(user_addr, 3),
            ],
            total_count: 4,
        },
    );
}

#[test]
fn global_public_entries_query_entries_works() {
    let mut schema = fresh_schema();
    let env = mock_env_time();
    let user_addr = "user_addr";
    let memo_text = "whatever".to_string();

    let entries = vec![
        entry(user_addr, 1, &memo_text, Some(Timestamp::from_nanos(0))),
        entry(user_addr, 2, &memo_text, None),
        entry(user_addr, 3, &memo_text, Some(Timestamp::from_nanos(0))),
        entry(user_addr, 4, &memo_text, Some(Timestamp::from_nanos(0))),
        entry(user_addr, 5, &memo_text, Some(Timestamp::from_nanos(0))),
    ];
    for e in &entries {
        assert!(schema.bookmarked_numbers.add_one_entry(env, e.clone()).is_ok());
    }
    // actual query
    assert_eq!(
        global_public_entries::query_entries(&schema, 1, 3, false).unwrap(),
        QueryAnswer::BookmarkedNumberEntries {
            entries: vec![
                bookmark_response(external_id(1, env), user_addr, 1, &memo_text, Some(0)),
                bookmark_response(external_id(3, env), user_addr, 3, &memo_text, Some(0)),
                bookmark_response(external_id(4, env), user_addr, 4, &memo_text, Some(0)),
            ],
            total_count: 4,
        },
    );
    assert_eq!(
        global_public_entries::query_entries(&schema, 1, 3, true).unwrap(),
        QueryAnswer::BookmarkedNumberEntries {
            entries: vec![
                bookmark_response(external_id(5, env), user_addr, 5, &memo_text, Some(0)),
                bookmark_response(external_id(4, env), user_addr, 4, &memo_text, Some(0)),
                bookmark_response(external_id(3, env), user_addr, 3, &memo_text, Some(0)),
            ],
            total_count: 4,
        },
    );
}

#[test]
fn global_entries_query_entries_works() {
    let mut schema = fresh_schema();
    let env = mock_env_time();
    let user_addr_1 = "user_addr_1";
    let user_addr_2 = "user_addr_2";
    let memo_text = "whatever".to_string();

    let entries = vec![
        entry(user_addr_1, 1, &memo_text, None),
        entry(user_addr_2, 1, &memo_text, None),
    ];
    for e in &entries {
        assert!(schema.bookmarked_numbers.add_one_entry(env, e.clone()).is_ok());
    }
    // actual query
    assert_eq!(
        global_entries::query_entries(&schema, 1, 2, false).unwrap(),
        QueryAnswer::BookmarkedNumberEntries {
            entries: vec![
                bookmark_response(external_id(1, env), user_addr_1, 1, &memo_text, None),
                bookmark_response(external_id(2, env), user_addr_2, 1, &memo_text, None),
            ],
            total_count: 2,
        },
    );
    assert_eq!(
        global_entries::query_entries(&schema, 1, 2, true).unwrap(),
        QueryAnswer::BookmarkedNumberEntries {
            entries: vec![
                bookmark_response(external_id(2, env), user_addr_2, 1, &memo_text, None),
                bookmark_response(external_id(1, env), user_addr_1, 1, &memo_text, None),
            ],
            total_count: 2,
        },
    );
}

#[test]
fn query_works() {
    let mut schema = fresh_schema();
    let env = mock_env_time();
    let owner_addr_str = "owner_addr";
    let memo_text = "whatever".to_string();

    let entries = vec![
        entry(owner_addr_str, 1, &memo_text, None),
        entry(owner_addr_str, 2, &memo_text, None),
    ];
    for e in &entries {
        assert!(schema.bookmarked_numbers.add_one_entry(env, e.clone()).is_ok());
    }
    // actual query
    for e in &entries {
        let entry_id = external_id(e.number as u64, env);
        assert_eq!(
            one_owned_entry::query(&schema, owner_addr_str.to_string(), entry_id.clone()).unwrap(),
            QueryAnswer::OneBookmarkedNumberEntry {
                entry: bookmark_response(entry_id, owner_addr_str, e.number, &memo_text, None),
            },
        );
    }
    // Fail query
    let entry_id = external_id(1, env);
    assert!(one_owned_entry::query(&schema, "not_user_addr".to_string(), entry_id).is_err());
}

#[test]
fn owned_entries_query_entries_works() {
    let mut schema = fresh_schema();
    let env = mock_env_time();
    let owner_addr_str = "owner_addr";
    let memo_text = "whatever".to_string();

    let entries = vec![
        entry(owner_addr_str, 1, &memo_text, None),
        entry(owner_addr_str, 2, &memo_text, None),
    ];
    for e in &entries {
        assert!(schema.bookmarked_numbers.add_one_entry(env, e.clone()).is_ok());
    }
    // actual query
    assert_eq!(
        owned_entries::query_entries(&schema, owner_addr_str.to_string(), 1, 2, false).unwrap(),
        QueryAnswer::BookmarkedNumberEntries {
            entries: vec![
                bookmark_response(external_id(1, env), owner_addr_str, 1, &memo_text, None),
                bookmark_response(external_id(2, env), owner_addr_str, 2, &memo_text, None),
            ],
            total_count: 2,
        },
    );
    assert_eq!(
        owned_entries::query_entries(&schema, owner_addr_str.to_string(), 1, 2, true).unwrap(),
        QueryAnswer::BookmarkedNumberEntries {
            entries: vec![
                bookmark_response(external_id(2, env), owner_addr_str, 2, &memo_text, None),
                bookmark_response(external_id(1, env), owner_addr_str, 1, &memo_text, None),
            ],
            total_count: 2,
        },
    );
    // Fail query
    assert_eq!(
        owned_entries::query_entries(&schema, "not_user_addr".to_string(), 1, 1, false).unwrap(),
        QueryAnswer::BookmarkedNumberEntries { entries: vec![], total_count: 0 },
    );
}

#[test]
fn global_statistic_data_user_statistic_data_store_with_keymap_works() {
    let mut schema = fresh_schema();
    schema.state = State { count: 999, count_increment_count: 2, count_reset_count: 1 };
    // actual query
    assert_eq!(
        with_permit::global_statistic_data::query_global_statistic_data(
            &schema,
            "whatever".to_string(),
        ),
        QueryAnswer::GlobalStatisticData { count_increment_count: 2, count_reset_count: 1 },
    );
}

#[test]
fn query_global_user_count_update_history_entries_works() {
    let mut schema = fresh_schema();
    let env = mock_env_time();
    let user_addr_1 = "user_addr_1";
    let user_addr_2 = "user_addr_2";

    let entries = vec![history_entry(user_addr_1, 0, None), history_entry(user_addr_2, 0, None)];
    for e in &entries {
        assert!(schema.user_count_update_history.add_entry(env, e.clone()).is_ok());
    }
    // actual query
    assert_eq!(
        with_permit::global_user_count_update_history_entries::query_global_user_count_update_history_entries(
            &schema, 1, 2, false,
        )
        .unwrap(),
        QueryAnswer::UserCountUpdateHistoryEntries {
            entries: vec![history_response(user_addr_1, 0), history_response(user_addr_2, 0)],
            total_count: 2,
        },
    );
}

#[test]
fn user_count_update_history_entries_query_user_count_update_history_entries_works() {
    let mut schema = fresh_schema();
    let env = mock_env_time();
    let user_addr = "user_addr";

    let entries = vec![history_entry(user_addr, 1, None), history_entry(user_addr, 2, None)];
    for e in &entries {
        assert!(schema.user_count_update_history.add_entry(env, e.clone()).is_ok());
    }
    // actual query
    assert_eq!(
        with_permit::user_count_update_history_entries::query_user_count_update_history_entries(
            &schema,
            user_addr.to_string(),
            1,
            2,
            false,
        )
        .unwrap(),
        QueryAnswer::UserCountUpdateHistoryEntries {
            entries: vec![history_response(user_addr, 1), history_response(user_addr, 2)],
            total_count: 2,
        },
    );
    assert_eq!(
        with_permit::user_count_update_history_entries::query_user_count_update_history_entries(
            &schema,
            user_addr.to_string(),
            1,
            2,
            true,
        )
        .unwrap(),
        QueryAnswer::UserCountUpdateHistoryEntries {
            entries: vec![history_response(user_addr, 2), history_response(user_addr, 1)],
            total_count: 2,
        },
    );
    // Fail query
    assert_eq!(
        with_permit::user_count_update_history_entries::query_user_count_update_history_entries(
            &schema,
            "not_user_addr".to_string(),
            1,
            1,
            false,
        )
        .unwrap(),
        QueryAnswer::UserCountUpdateHistoryEntries { entries: vec![], total_count: 0 },
    );
}

#[test]
fn user_statistic_data_user_statistic_data_store_with_keymap_works() {
    let mut schema = fresh_schema();
    let key = String::from("key");

    // is_empty
    assert!(schema.user_statistic_data.is_empty());
    // save + load
    schema.user_statistic_data.insert(&key, UserStatisticData { count_increment_count: 1 });
    assert_eq!(
        schema.user_statistic_data.get(&key),
        Some(&UserStatisticData { count_increment_count: 1 }),
    );
    // actual query
    assert_eq!(
        with_permit::user_statistic_data::query_user_statistic_data(&schema, key.clone()),
        QueryAnswer::UserStatisticData { count_increment_count: 1 },
    );
}

#[test]
fn permit_query_dispatch_guards_global_queries() {
    let schema = fresh_schema();
    // a viewer other than the manager is turned away from the global views
    assert_eq!(
        with_permit::permit_query_dispatch(
            &schema,
            "someone_else".to_string(),
            QueryWithPermit::GlobalStatisticData {},
        ),
        Err(ContractError::Unauthorized),
    );
    assert_eq!(
        with_permit::permit_query_dispatch(
            &schema,
            "someone_else".to_string(),
            QueryWithPermit::GlobalUserCountUpdateHistoryEntries {
                page: None,
                page_size: None,
                reverse_order: None,
            },
        ),
        Err(ContractError::Unauthorized),
    );
    // the manager is let through
    assert_eq!(
        with_permit::permit_query_dispatch(
            &schema,
            "contract_manager".to_string(),
            QueryWithPermit::GlobalStatisticData {},
        ),
        Ok(QueryAnswer::GlobalStatisticData { count_increment_count: 0, count_reset_count: 0 }),
    );
}

#[test]
fn paged_queries_report_out_of_bounds() {
    let mut schema = fresh_schema();
    let env = mock_env_time();
    schema
        .user_count_update_history
        .add_entry(env, history_entry("user_addr", 1, None))
        .unwrap();
    schema.bookmarked_numbers.add_one_entry(env, entry("user_addr", 1, "", None)).unwrap();

    // page 2 of size 1 starts right at the end: an empty page
    assert_eq!(
        with_permit::user_count_update_history_entries::query_user_count_update_history_entries(
            &schema,
            "user_addr".to_string(),
            2,
            1,
            false,
        )
        .unwrap(),
        QueryAnswer::UserCountUpdateHistoryEntries { entries: vec![], total_count: 1 },
    );
    // page 3 of size 1 starts beyond the end: the out-of-bounds error
    assert_eq!(
        with_permit::user_count_update_history_entries::query_user_count_update_history_entries(
            &schema,
            "user_addr".to_string(),
            3,
            1,
            false,
        ),
        Err(ContractError::OutOfBounds),
    );
    assert_eq!(
        owned_entries::query_entries(&schema, "user_addr".to_string(), 3, 1, true),
        Err(ContractError::OutOfBounds),
    );
    // totals are reported whatever the page asked for
    assert_eq!(
        owned_entries::query_entries(&schema, "user_addr".to_string(), 2, 1, false).unwrap(),
        QueryAnswer::BookmarkedNumberEntries { entries: vec![], total_count: 1 },
    );
}
