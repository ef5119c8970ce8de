use counter_bookmarks::state::ordered::OrderedMap;
use counter_bookmarks::state::user_statistic_data::UserStatisticData;

#[test]
fn user_statistic_data_store_with_keymap_works() {
    let mut store: OrderedMap<UserStatisticData> = OrderedMap::new();
    let key = String::from("user_statistic_data_store_with_keymap_works");

    // is_empty
    assert!(store.is_empty());
    // save + load
    store.insert(&key, UserStatisticData { count_increment_count: 1 });
    assert_eq!(store.get(&key), Some(&UserStatisticData { count_increment_count: 1 }));
    // update
    let mut state = *store.get(&key).unwrap();
    state.count_increment_count += 2;
    store.insert(&key, state);
    assert_eq!(store.get(&key), Some(&UserStatisticData { count_increment_count: 3 }));
    // remove
    store.remove(&key).unwrap();
    assert!(store.is_empty());
}

#[test]
fn test_user_stores_with_keymap_iter() {
    let mut store: OrderedMap<UserStatisticData> = OrderedMap::new();
    let _suffix = "test_user_stores_with_keymap_iter";
    let key1 = String::from("key1");
    let key2 = String::from("key2");
    let key3 = String::from("key3");

    assert!(store.is_empty());
    // save + load
    store.insert(&key1, UserStatisticData { count_increment_count: 1 });
    assert_eq!(store.get(&key1), Some(&UserStatisticData { count_increment_count: 1 }));

    // save + load
    store.insert(&key2, UserStatisticData { count_increment_count: 2 });
    assert_eq!(store.get(&key2), Some(&UserStatisticData { count_increment_count: 2 }));

    // save + load
    store.insert(&key3, UserStatisticData { count_increment_count: 3 });
    assert_eq!(store.get(&key3), Some(&UserStatisticData { count_increment_count: 3 }));

    // in insertion order until stuff gets deleted
    assert_eq!(store.val_at(0), &UserStatisticData { count_increment_count: 1 });
    assert_eq!(store.val_at(1), &UserStatisticData { count_increment_count: 2 });
    assert_eq!(store.val_at(2), &UserStatisticData { count_increment_count: 3 });
    assert_eq!(store.get_len(), 3);

    // still iterable after deleting some of it
    store.remove(&key2).unwrap();
    assert_eq!(store.get_len(), 2);
    assert!(store.get(&key1).is_some());
    assert!(store.get(&key3).is_some());

    store.remove(&key3).unwrap();
    store.remove(&key1).unwrap();
    assert!(store.is_empty());
}
