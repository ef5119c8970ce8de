use counter_bookmarks::errors::ContractError;
use counter_bookmarks::execute::bookmarked_numbers::{
    add_bookmark_number, update_bookmark_number_entry,
};
use counter_bookmarks::execute::execute_dispatch;
use counter_bookmarks::execute::increment::try_increment;
use counter_bookmarks::execute::reset::try_reset;
use counter_bookmarks::instantiate::perform_instantiate;
use counter_bookmarks::migrate::all_migration_version;
use counter_bookmarks::msg::ExecuteMsg;
use counter_bookmarks::query::count::query_count;
use counter_bookmarks::state::bookmarked_numbers::BookmarkedNumberEntry;
use counter_bookmarks::state::ids::external_id;
use counter_bookmarks::state::state::State;
use counter_bookmarks::state::user_statistic_data::UserStatisticData;
use counter_bookmarks::time::Timestamp;

fn mock_env_time() -> Timestamp {
    Timestamp::from_nanos(1_571_797_419_879_305_533)
}

#[test]
fn instantiate_works() {
    let schema = perform_instantiate(17, "contract_manager".to_string(), "earth".to_string());

    // it worked, let's query the state
    assert_eq!(query_count(&schema).count, 17);

    assert_eq!(schema.config.contract_manager, "contract_manager".to_string());
    assert_eq!(schema.config.contract_address, "earth".to_string());

    assert_eq!(schema.schema_migration_versions, Some(all_migration_version()));
    assert_eq!(schema.state.count_increment_count, 0);
}

#[test]
fn increment_without_anything_works() {
    let creator = "creator";
    let mut schema = perform_instantiate(17, "owner".to_string(), "token".to_string());

    try_increment(&mut schema, mock_env_time(), creator.to_string(), None, false).unwrap();

    // should increase counter by 1
    assert_eq!(
        schema.state,
        State { count: 18, count_increment_count: 1, count_reset_count: 0 },
    );

    assert_eq!(
        schema.user_statistic_data.get(&creator.to_string()),
        Some(&UserStatisticData { count_increment_count: 1 }),
    );

    // exactly one history entry was appended
    assert_eq!(schema.user_count_update_history.get_global_entries_total_count(), 1);
}

#[test]
fn increment_with_count_works() {
    let creator = "creator";
    let mut schema = perform_instantiate(17, "owner".to_string(), "token".to_string());

    try_increment(&mut schema, mock_env_time(), creator.to_string(), Some(3), false).unwrap();

    // should increase counter by N
    assert_eq!(
        schema.state,
        State { count: 20, count_increment_count: 1, count_reset_count: 0 },
    );

    assert_eq!(
        schema.user_statistic_data.get(&creator.to_string()),
        Some(&UserStatisticData { count_increment_count: 1 }),
    );

    // exactly one history entry was appended
    assert_eq!(schema.user_count_update_history.get_global_entries_total_count(), 1);
}

#[test]
fn reset_works() {
    let mut schema = perform_instantiate(17, "owner".to_string(), "token".to_string());

    try_reset(&mut schema, "owner".to_string(), 6).unwrap();

    // should reset count to provided value
    assert_eq!(schema.state, State { count: 6, count_increment_count: 0, count_reset_count: 1 });
}

#[test]
fn reset_owner_check_works() {
    let mut schema = perform_instantiate(17, "owner".to_string(), "token".to_string());

    let res = try_reset(&mut schema, "creator".to_string(), 6);
    assert!(res.is_err());
    assert_eq!(res, Err(ContractError::Unauthorized));

    // State unchanged
    assert_eq!(schema.state, State { count: 17, count_increment_count: 0, count_reset_count: 0 });
}

#[test]
fn execute_works() {
    let creator = "creator";
    let mut schema = perform_instantiate(17, "owner".to_string(), "token".to_string());
    let env_time = mock_env_time();
    let new_memo_text = String::from("three");

    let entry = BookmarkedNumberEntry {
        owner_addr: creator.to_string(),
        number: 1,
        memo_text: "".to_string(),
        marked_as_public_at: None,
        created_at: Timestamp::default(),
        updated_at: Timestamp::default(),
    };
    assert_eq!(schema.bookmarked_numbers.add_one_entry(env_time, entry), Ok(()));

    update_bookmark_number_entry::execute(
        &mut schema,
        env_time,
        creator.to_string(),
        external_id(1, env_time),
        new_memo_text.clone(),
        false,
    )
    .unwrap();
    assert_eq!(
        schema
            .bookmarked_numbers
            .get_owned_entries(creator.to_string(), 0, 1, true)
            .unwrap()
            .iter()
            .map(|t| t.1.clone())
            .collect::<Vec<_>>(),
        vec![BookmarkedNumberEntry {
            owner_addr: creator.to_string(),
            number: 1,
            memo_text: new_memo_text.clone(),
            marked_as_public_at: None,
            created_at: Timestamp::default(),
            updated_at: env_time,
        }],
    );
}

#[test]
fn add_bookmark_number_execute_works() {
    let mut schema = perform_instantiate(17, "owner".to_string(), "token".to_string());
    let env_time = mock_env_time();

    assert_eq!(
        add_bookmark_number::execute(
            &mut schema,
            env_time,
            "creator".to_string(),
            5,
            "a note".to_string(),
            true,
        ),
        Ok(()),
    );
    // the entry is public from the start
    assert_eq!(schema.bookmarked_numbers.get_public_entries_total_count(), 1);
    // the same number cannot be bookmarked twice by the same owner
    assert_eq!(
        add_bookmark_number::execute(
            &mut schema,
            env_time,
            "creator".to_string(),
            5,
            "again".to_string(),
            false,
        ),
        Err(ContractError::DuplicateNumber),
    );
    // another owner still can
    assert_eq!(
        add_bookmark_number::execute(
            &mut schema,
            env_time,
            "someone_else".to_string(),
            5,
            "".to_string(),
            false,
        ),
        Ok(()),
    );
}

#[test]
fn execute_dispatch_works() {
    let mut schema = perform_instantiate(17, "owner".to_string(), "token".to_string());
    let env_time = mock_env_time();

    assert_eq!(
        execute_dispatch(
            &mut schema,
            env_time,
            "creator".to_string(),
            ExecuteMsg::Increment { count: Some(2), mark_history_as_public: Some(true) },
        ),
        Ok(()),
    );
    assert_eq!(schema.state.count, 19);
    assert_eq!(schema.user_count_update_history.get_public_entries_total_count(), 1);

    assert_eq!(
        execute_dispatch(
            &mut schema,
            env_time,
            "owner".to_string(),
            ExecuteMsg::Reset { count: 2 },
        ),
        Ok(()),
    );
    assert_eq!(schema.state.count, 2);

    // revoking a permit is the host's business and changes nothing here
    let before_count = schema.state;
    assert_eq!(
        execute_dispatch(
            &mut schema,
            env_time,
            "creator".to_string(),
            ExecuteMsg::RevokePermit { permit_name: "p".to_string(), padding: None },
        ),
        Ok(()),
    );
    assert_eq!(schema.state, before_count);
}

#[test]
fn increment_can_mark_history_public() {
    let mut schema = perform_instantiate(0, "owner".to_string(), "token".to_string());
    let env_time = mock_env_time();

    try_increment(&mut schema, env_time, "creator".to_string(), None, true).unwrap();
    try_increment(&mut schema, env_time, "creator".to_string(), Some(5), false).unwrap();

    // both increments appended exactly one history entry each
    assert_eq!(schema.user_count_update_history.get_global_entries_total_count(), 2);
    // only the first was flagged public
    assert_eq!(schema.user_count_update_history.get_public_entries_total_count(), 1);
    // the statistics advanced once per call, the counter by the deltas
    assert_eq!(schema.state.count, 6);
    assert_eq!(schema.state.count_increment_count, 2);
    assert_eq!(
        schema.user_statistic_data.get(&"creator".to_string()),
        Some(&UserStatisticData { count_increment_count: 2 }),
    );
}
