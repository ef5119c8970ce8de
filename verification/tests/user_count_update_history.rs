use counter_bookmarks::state::ordered::OrderedMap;
use counter_bookmarks::state::user_count_update_history::{
    UserCountUpdateHistoryEntry, UserCountUpdateHistoryManager,
};
use counter_bookmarks::time::Timestamp;

fn mock_env_time() -> Timestamp {
    Timestamp::from_nanos(1_571_797_419_879_305_533)
}

fn history_entry(
    user: &str,
    count_change: i32,
    public_at: Option<Timestamp>,
) -> UserCountUpdateHistoryEntry {
    UserCountUpdateHistoryEntry {
        user_addr: user.to_string(),
        count_change,
        created_at: Timestamp::default(),
        marked_as_public_at: public_at,
    }
}

#[test]
fn data_store_with_keymap_works() {
    let mut store: OrderedMap<UserCountUpdateHistoryEntry> = OrderedMap::new();
    let key = String::from("a key of no particular shape");
    let user_addr = "whatever";

    // is_empty
    assert!(store.is_empty());
    // save + load
    store.insert(&key, history_entry(user_addr, 1, None));
    assert_eq!(store.get(&key), Some(&history_entry(user_addr, 1, None)));
    // update
    let mut state = store.get(&key).unwrap().clone();
    state.count_change += 2;
    store.insert(&key, state);
    assert_eq!(store.get(&key), Some(&history_entry(user_addr, 3, None)));
    // remove
    store.remove(&key).unwrap();
    assert!(store.is_empty());
}

#[test]
fn test_add_entry_n_get_public_entries() {
    let mut store = UserCountUpdateHistoryManager::new();
    let env = mock_env_time();
    let user_addr = "whatever";

    assert_eq!(store.get_global_entries_total_count(), 0);
    let entries = vec![
        history_entry(user_addr, 1, Some(Timestamp::from_nanos(0))),
        history_entry(user_addr, 2, None),
        history_entry(user_addr, 3, Some(Timestamp::from_nanos(0))),
    ];
    for e in &entries {
        store.add_entry(env, e.clone()).unwrap();
    }

    assert_eq!(
        store.get_public_entries(0, 2, true).unwrap(),
        vec![
            history_entry(user_addr, 3, Some(Timestamp::from_nanos(0))),
            history_entry(user_addr, 1, Some(Timestamp::from_nanos(0))),
        ],
    );
    assert_eq!(store.get_public_entries(1, 2, true).unwrap(), vec![]);
}

#[test]
fn test_data_stores_with_keymap_iter() {
    let mut store: OrderedMap<UserCountUpdateHistoryEntry> = OrderedMap::new();
    let key1 = String::from("key1");
    let key2 = String::from("key2");
    let key3 = String::from("key3");
    let user_addr = "whatever";

    assert!(store.is_empty());
    // save + load
    let entries = vec![
        (&key1, history_entry(user_addr, 1, None)),
        (&key2, history_entry(user_addr, 2, None)),
        (&key3, history_entry(user_addr, 3, None)),
    ];
    for (key, e) in &entries {
        store.insert(key, e.clone());
        assert_eq!(store.get(key), Some(e));
    }

    // in insertion order until stuff gets deleted
    assert_eq!(store.val_at(0), &history_entry(user_addr, 1, None));
    assert_eq!(store.val_at(1), &history_entry(user_addr, 2, None));
    assert_eq!(store.val_at(2), &history_entry(user_addr, 3, None));
    assert_eq!(store.get_len(), 3);

    // still iterable after deleting some of it
    store.remove(&key2).unwrap();
    assert_eq!(store.get_len(), 2);
    assert!(store.get(&key1).is_some());
    assert!(store.get(&key3).is_some());

    store.remove(&key3).unwrap();
    store.remove(&key1).unwrap();
    assert!(store.is_empty());
}

#[test]
fn test_get_user_entries_and_count() {
    let mut store = UserCountUpdateHistoryManager::new();
    let env = mock_env_time();
    let _key1 = String::from("key1");
    let _key2 = String::from("key2");
    let _key3 = String::from("key3");
    let user_addr = "whatever";

    assert_eq!(store.get_global_entries_total_count(), 0);
    // save + load
    let entries = vec![
        history_entry(user_addr, 1, None),
        history_entry(user_addr, 2, None),
        history_entry(user_addr, 3, None),
    ];
    for e in &entries {
        store.add_entry(env, e.clone()).unwrap();
    }

    assert_eq!(
        store.get_user_entries(user_addr.to_string(), 0, 2, false).unwrap(),
        vec![history_entry(user_addr, 1, None), history_entry(user_addr, 2, None)],
    );
    assert_eq!(
        store.get_user_entries(user_addr.to_string(), 1, 2, false).unwrap(),
        vec![history_entry(user_addr, 3, None)],
    );

    // Count
    assert_eq!(store.get_user_entries_total_count(user_addr.to_string()), 3);
}

#[test]
fn test_get_user_entries_reversed() {
    let mut store = UserCountUpdateHistoryManager::new();
    let env = mock_env_time();
    let _key1 = String::from("key1");
    let _key2 = String::from("key2");
    let _key3 = String::from("key3");
    let user_addr = "whatever";

    assert_eq!(store.get_global_entries_total_count(), 0);
    // save + load
    let entries = vec![
        history_entry(user_addr, 1, None),
        history_entry(user_addr, 2, None),
        history_entry(user_addr, 3, None),
    ];
    for e in &entries {
        store.add_entry(env, e.clone()).unwrap();
    }

    assert_eq!(
        store.get_user_entries(user_addr.to_string(), 0, 2, true).unwrap(),
        vec![history_entry(user_addr, 3, None), history_entry(user_addr, 2, None)],
    );
    assert_eq!(
        store.get_user_entries(user_addr.to_string(), 1, 2, true).unwrap(),
        vec![history_entry(user_addr, 1, None)],
    );
}

#[test]
fn user_count_update_history_test_get_global_entries_and_count() {
    let mut store = UserCountUpdateHistoryManager::new();
    let env = mock_env_time();
    let _key1 = String::from("key1");
    let _key2 = String::from("key2");
    let _key3 = String::from("key3");
    let user_addr_1 = "user_addr_1";
    let user_addr_2 = "user_addr_2";
    let user_addr_3 = "user_addr_3";

    assert_eq!(store.get_global_entries_total_count(), 0);
    // save + load
    let entries = vec![
        history_entry(user_addr_1, 1, None),
        history_entry(user_addr_2, 2, None),
        history_entry(user_addr_3, 3, None),
    ];
    for e in &entries {
        store.add_entry(env, e.clone()).unwrap();
    }

    assert_eq!(
        store.get_global_entries(0, 2, false).unwrap(),
        vec![history_entry(user_addr_1, 1, None), history_entry(user_addr_2, 2, None)],
    );
    assert_eq!(
        store.get_global_entries(1, 2, false).unwrap(),
        vec![history_entry(user_addr_3, 3, None)],
    );

    // Count
    assert_eq!(store.get_global_entries_total_count(), 3);
}

#[test]
fn test_get_global_entries_reversed() {
    let mut store = UserCountUpdateHistoryManager::new();
    let env = mock_env_time();
    let _key1 = String::from("key1");
    let _key2 = String::from("key2");
    let _key3 = String::from("key3");
    let user_addr_1 = "user_addr_1";
    let user_addr_2 = "user_addr_2";
    let user_addr_3 = "user_addr_3";

    assert_eq!(store.get_global_entries_total_count(), 0);
    // save + load
    let entries = vec![
        history_entry(user_addr_1, 1, None),
        history_entry(user_addr_2, 2, None),
        history_entry(user_addr_3, 3, None),
    ];
    for e in &entries {
        store.add_entry(env, e.clone()).unwrap();
    }

    assert_eq!(
        store.get_global_entries(0, 2, true).unwrap(),
        vec![history_entry(user_addr_3, 3, None), history_entry(user_addr_2, 2, None)],
    );
    assert_eq!(
        store.get_global_entries(1, 2, true).unwrap(),
        vec![history_entry(user_addr_1, 1, None)],
    );
}
