use counter_bookmarks::errors::ContractError;
use counter_bookmarks::state::bookmarked_numbers::{
    BookmarkedNumberEntry, BookmarkedNumbersManager, UpdateOneEntryPayload,
};
use counter_bookmarks::state::ids::external_id;
use counter_bookmarks::time::Timestamp;

fn mock_env_time() -> Timestamp {
    Timestamp::from_nanos(1_571_797_419_879_305_533)
}

fn entry(owner: &str, number: i32, memo: &str, public_at: Option<Timestamp>) -> BookmarkedNumberEntry {
    BookmarkedNumberEntry {
        owner_addr: owner.to_string(),
        number,
        memo_text: memo.to_string(),
        marked_as_public_at: public_at,
        created_at: Timestamp::default(),
        updated_at: Timestamp::default(),
    }
}

#[test]
fn test_add_one_entry_with_duplicate_number() {
    let mut store = BookmarkedNumbersManager::new();
    let env_time = mock_env_time();
    let owner_addr1 = "owner_addr1";
    let owner_addr2 = "owner_addr2";

    // is_empty
    assert_eq!(store.get_global_entries_total_count(), 0);
    let entries = vec![
        entry(owner_addr1, 1, "", Some(Timestamp::from_nanos(0))),
        entry(owner_addr2, 1, "", None),
    ];
    for e in &entries {
        assert_eq!(store.add_one_entry(env_time, e.clone()), Ok(()));
    }

    let res = store.add_one_entry(env_time, entries[0].clone());
    assert_eq!(res, Err(ContractError::DuplicateNumber));
    assert_eq!(res.unwrap_err().message(), "Number already bookmarked");
}

#[test]
fn test_update_one_entry() {
    let mut store = BookmarkedNumbersManager::new();
    let env_time = mock_env_time();
    let owner_addr1 = "owner_addr1";
    let owner_addr2 = "owner_addr2";

    assert_eq!(store.get_global_entries_total_count(), 0);
    assert_eq!(store.add_one_entry(env_time, entry(owner_addr1, 1, "", None)), Ok(()));

    // Not found
    let res = store.update_one_entry(
        env_time,
        owner_addr1.to_string(),
        UpdateOneEntryPayload {
            entry_id: external_id(999, env_time),
            memo_text: "".to_string(),
            mark_entry_as_public: false,
        },
    );
    assert_eq!(res, Err(ContractError::NotFound));
    assert_eq!(res.unwrap_err().message(), "Entry not found");
    // Unauthorized
    let res = store.update_one_entry(
        env_time,
        owner_addr2.to_string(),
        UpdateOneEntryPayload {
            entry_id: external_id(1, env_time),
            memo_text: "".to_string(),
            mark_entry_as_public: false,
        },
    );
    assert_eq!(res, Err(ContractError::Unauthorized));
    assert_eq!(res.unwrap_err().message(), "Unauthorized");
    // Success
    let new_memo_text = "a token of a memo".to_string();
    assert_eq!(
        store.update_one_entry(
            env_time,
            owner_addr1.to_string(),
            UpdateOneEntryPayload {
                entry_id: external_id(1, env_time),
                memo_text: new_memo_text.clone(),
                mark_entry_as_public: false,
            },
        ),
        Ok(()),
    );
    assert_eq!(
        store
            .get_global_entries(0, 1, false)
            .unwrap()
            .iter()
            .map(|t| t.1.clone())
            .collect::<Vec<_>>(),
        vec![BookmarkedNumberEntry {
            owner_addr: owner_addr1.to_string(),
            number: 1,
            memo_text: new_memo_text.clone(),
            marked_as_public_at: None,
            created_at: Timestamp::default(),
            updated_at: env_time,
        }],
    );
}

#[test]
fn test_update_one_entry_for_public_to_private_n_reverse_n_get_public_entries() {
    let mut store = BookmarkedNumbersManager::new();
    let env_time = mock_env_time();
    let owner_addr1 = "owner_addr1";

    assert_eq!(store.get_global_entries_total_count(), 0);
    let entries = vec![
        entry(owner_addr1, 1, "", None),
        entry(owner_addr1, 2, "", Some(Timestamp::from_nanos(0))),
        entry(owner_addr1, 3, "", Some(Timestamp::from_nanos(0))),
        entry(owner_addr1, 4, "", None),
        entry(owner_addr1, 5, "", Some(Timestamp::from_nanos(0))),
    ];
    for e in &entries {
        assert_eq!(store.add_one_entry(env_time, e.clone()), Ok(()));
    }

    // Mark private to public
    for seq in [1u64, 4u64] {
        assert_eq!(
            store.update_one_entry(
                env_time,
                owner_addr1.to_string(),
                UpdateOneEntryPayload {
                    entry_id: external_id(seq, env_time),
                    memo_text: "".to_string(),
                    mark_entry_as_public: true,
                },
            ),
            Ok(()),
        );
    }
    let publicly_marked = |number: i32| BookmarkedNumberEntry {
        owner_addr: owner_addr1.to_string(),
        number,
        memo_text: "".to_string(),
        marked_as_public_at: Some(env_time),
        created_at: Timestamp::default(),
        updated_at: env_time,
    };
    assert_eq!(
        store
            .get_public_entries(0, 5, false)
            .unwrap()
            .iter()
            .map(|t| t.1.clone())
            .collect::<Vec<_>>(),
        vec![
            entry(owner_addr1, 2, "", Some(Timestamp::from_nanos(0))),
            entry(owner_addr1, 3, "", Some(Timestamp::from_nanos(0))),
            entry(owner_addr1, 5, "", Some(Timestamp::from_nanos(0))),
            publicly_marked(1),
            publicly_marked(4),
        ],
    );
    // Mark non-last global public entry as private
    let res = store.update_one_entry(
        env_time,
        owner_addr1.to_string(),
        UpdateOneEntryPayload {
            entry_id: external_id(1, env_time),
            memo_text: "".to_string(),
            mark_entry_as_public: false,
        },
    );
    assert_eq!(res, Err(ContractError::UnsupportedTransition));
    assert_eq!(
        res.unwrap_err().message(),
        "Updating a public entry to be private is currently unsupported when it's not the last entry marked as public",
    );
    // Mark last entry as private - take 1
    assert_eq!(
        store.update_one_entry(
            env_time,
            owner_addr1.to_string(),
            UpdateOneEntryPayload {
                entry_id: external_id(4, env_time),
                memo_text: "".to_string(),
                mark_entry_as_public: false,
            },
        ),
        Ok(()),
    );
    assert_eq!(
        store
            .get_public_entries(0, 5, false)
            .unwrap()
            .iter()
            .map(|t| t.1.clone())
            .collect::<Vec<_>>(),
        vec![
            entry(owner_addr1, 2, "", Some(Timestamp::from_nanos(0))),
            entry(owner_addr1, 3, "", Some(Timestamp::from_nanos(0))),
            entry(owner_addr1, 5, "", Some(Timestamp::from_nanos(0))),
            publicly_marked(1),
        ],
    );
    // Mark last entry as private - take 2
    assert_eq!(
        store.update_one_entry(
            env_time,
            owner_addr1.to_string(),
            UpdateOneEntryPayload {
                entry_id: external_id(1, env_time),
                memo_text: "".to_string(),
                mark_entry_as_public: false,
            },
        ),
        Ok(()),
    );
    assert_eq!(
        store
            .get_public_entries(0, 5, false)
            .unwrap()
            .iter()
            .map(|t| t.1.clone())
            .collect::<Vec<_>>(),
        vec![
            entry(owner_addr1, 2, "", Some(Timestamp::from_nanos(0))),
            entry(owner_addr1, 3, "", Some(Timestamp::from_nanos(0))),
            entry(owner_addr1, 5, "", Some(Timestamp::from_nanos(0))),
        ],
    );
    // Mark last entry as private - take 3
    assert_eq!(
        store.update_one_entry(
            env_time,
            owner_addr1.to_string(),
            UpdateOneEntryPayload {
                entry_id: external_id(5, env_time),
                memo_text: "".to_string(),
                mark_entry_as_public: false,
            },
        ),
        Ok(()),
    );
    assert_eq!(
        store
            .get_public_entries(0, 5, false)
            .unwrap()
            .iter()
            .map(|t| t.1.clone())
            .collect::<Vec<_>>(),
        vec![
            entry(owner_addr1, 2, "", Some(Timestamp::from_nanos(0))),
            entry(owner_addr1, 3, "", Some(Timestamp::from_nanos(0))),
        ],
    );
}

#[test]
fn test_get_one_owned_entry() {
    let mut store = BookmarkedNumbersManager::new();
    let env_time = mock_env_time();
    let owner_addr1 = "owner_addr1";
    let owner_addr2 = "owner_addr2";

    assert_eq!(store.get_global_entries_total_count(), 0);
    let entries = vec![entry(owner_addr1, 1, "", None), entry(owner_addr2, 2, "", None)];
    for e in &entries {
        assert_eq!(store.add_one_entry(env_time, e.clone()), Ok(()));
    }

    // Not found
    let entry_id = external_id(3, env_time);
    let res = store.get_one_owned_entry(owner_addr1.to_string(), entry_id);
    assert_eq!(res, Err(ContractError::NotFound));
    assert_eq!(res.unwrap_err().message(), "Entry not found");
    // Unauthorized
    let entry_id = external_id(1, env_time);
    let res = store.get_one_owned_entry(owner_addr2.to_string(), entry_id);
    assert_eq!(res, Err(ContractError::Unauthorized));
    assert_eq!(res.unwrap_err().message(), "Unauthorized");
    let entry_id = external_id(2, env_time);
    assert_eq!(
        store.get_one_owned_entry(owner_addr1.to_string(), entry_id),
        Err(ContractError::Unauthorized),
    );
    // Success
    let entry_id = external_id(1, env_time);
    assert_eq!(store.get_one_owned_entry(owner_addr1.to_string(), entry_id).unwrap(), entries[0]);
    let entry_id = external_id(2, env_time);
    assert!(store.get_one_owned_entry(owner_addr2.to_string(), entry_id).is_ok());
}

#[test]
fn test_add_one_entry_n_get_public_entries() {
    let mut store = BookmarkedNumbersManager::new();
    let env_time = mock_env_time();
    let owner_addr = "whatever";

    assert_eq!(store.get_global_entries_total_count(), 0);
    let entries = vec![
        entry(owner_addr, 1, "", Some(Timestamp::from_nanos(0))),
        entry(owner_addr, 2, "", None),
        entry(owner_addr, 3, "", Some(Timestamp::from_nanos(0))),
    ];
    for e in &entries {
        store.add_one_entry(env_time, e.clone()).unwrap();
    }

    assert_eq!(
        store
            .get_public_entries(0, 2, true)
            .unwrap()
            .iter()
            .map(|t| t.1.clone())
            .collect::<Vec<_>>(),
        vec![
            entry(owner_addr, 3, "", Some(Timestamp::from_nanos(0))),
            entry(owner_addr, 1, "", Some(Timestamp::from_nanos(0))),
        ],
    );
    assert_eq!(store.get_public_entries(1, 2, true).unwrap(), vec![]);
}

#[test]
fn test_get_owned_entries_and_count() {
    let mut store = BookmarkedNumbersManager::new();
    let env_time = mock_env_time();
    let _key1 = String::from("key1");
    let _key2 = String::from("key2");
    let _key3 = String::from("key3");
    let owner_addr = "whatever";

    assert_eq!(store.get_global_entries_total_count(), 0);
    // save + load
    let entries = vec![
        entry(owner_addr, 1, "", None),
        entry(owner_addr, 2, "", None),
        entry(owner_addr, 3, "", None),
    ];
    for e in &entries {
        store.add_one_entry(env_time, e.clone()).unwrap();
    }

    // Default order
    assert_eq!(
        store
            .get_owned_entries(owner_addr.to_string(), 0, 2, false)
            .unwrap()
            .iter()
            .map(|t| t.1.clone())
            .collect::<Vec<_>>(),
        vec![entry(owner_addr, 1, "", None), entry(owner_addr, 2, "", None)],
    );
    assert_eq!(
        store
            .get_owned_entries(owner_addr.to_string(), 1, 2, false)
            .unwrap()
            .iter()
            .map(|t| t.1.clone())
            .collect::<Vec<_>>(),
        vec![entry(owner_addr, 3, "", None)],
    );

    // Reverse order
    assert_eq!(
        store
            .get_owned_entries(owner_addr.to_string(), 0, 2, true)
            .unwrap()
            .iter()
            .map(|t| t.1.clone())
            .collect::<Vec<_>>(),
        vec![entry(owner_addr, 3, "", None), entry(owner_addr, 2, "", None)],
    );
    assert_eq!(
        store
            .get_owned_entries(owner_addr.to_string(), 1, 2, true)
            .unwrap()
            .iter()
            .map(|t| t.1.clone())
            .collect::<Vec<_>>(),
        vec![entry(owner_addr, 1, "", None)],
    );

    // Count
    assert_eq!(store.get_owned_entries_total_count(owner_addr.to_string()), 3);
}

#[test]
fn bookmarked_numbers_test_get_global_entries_and_count() {
    let mut store = BookmarkedNumbersManager::new();
    let env_time = mock_env_time();
    let _key1 = String::from("key1");
    let _key2 = String::from("key2");
    let _key3 = String::from("key3");
    let owner_addr_1 = "owner_addr_1";
    let owner_addr_2 = "owner_addr_2";
    let owner_addr_3 = "owner_addr_3";

    assert_eq!(store.get_global_entries_total_count(), 0);
    // save + load
    let entries = vec![
        entry(owner_addr_1, 1, "", None),
        entry(owner_addr_2, 2, "", None),
        entry(owner_addr_3, 3, "", None),
    ];
    for e in &entries {
        store.add_one_entry(env_time, e.clone()).unwrap();
    }

    // Default order
    assert_eq!(
        store
            .get_global_entries(0, 2, false)
            .unwrap()
            .iter()
            .map(|t| t.1.clone())
            .collect::<Vec<_>>(),
        vec![entry(owner_addr_1, 1, "", None), entry(owner_addr_2, 2, "", None)],
    );
    assert_eq!(
        store
            .get_global_entries(1, 2, false)
            .unwrap()
            .iter()
            .map(|t| t.1.clone())
            .collect::<Vec<_>>(),
        vec![entry(owner_addr_3, 3, "", None)],
    );

    // Reverse order
    assert_eq!(
        store
            .get_global_entries(0, 2, true)
            .unwrap()
            .iter()
            .map(|t| t.1.clone())
            .collect::<Vec<_>>(),
        vec![entry(owner_addr_3, 3, "", None), entry(owner_addr_2, 2, "", None)],
    );
    assert_eq!(
        store
            .get_global_entries(1, 2, true)
            .unwrap()
            .iter()
            .map(|t| t.1.clone())
            .collect::<Vec<_>>(),
        vec![entry(owner_addr_1, 1, "", None)],
    );

    // Count
    assert_eq!(store.get_global_entries_total_count(), 3);
}

#[test]
fn test_public_revert_order_between_owners() {
    // "alice" and "bob" each mark one entry public in sequence; alice cannot
    // revert hers while bob's is the last one public, bob can revert his,
    // and then alice can revert hers.
    let mut store = BookmarkedNumbersManager::new();
    let env_time = mock_env_time();

    store.add_one_entry(env_time, entry("alice", 1, "", None)).unwrap();
    store.add_one_entry(env_time, entry("bob", 2, "", None)).unwrap();
    let alice_id = external_id(1, env_time);
    let bob_id = external_id(2, env_time);
    let mark = |public: bool, id: &String| UpdateOneEntryPayload {
        entry_id: id.clone(),
        memo_text: "".to_string(),
        mark_entry_as_public: public,
    };
    store.update_one_entry(env_time, "alice".to_string(), mark(true, &alice_id)).unwrap();
    store.update_one_entry(env_time, "bob".to_string(), mark(true, &bob_id)).unwrap();

    // alice's entry is no longer the last public one
    assert_eq!(
        store.update_one_entry(env_time, "alice".to_string(), mark(false, &alice_id)),
        Err(ContractError::UnsupportedTransition),
    );
    assert_eq!(store.get_public_entries_total_count(), 2);

    // bob reverts his; only alice's stays public
    assert_eq!(store.update_one_entry(env_time, "bob".to_string(), mark(false, &bob_id)), Ok(()));
    let public_now = store.get_public_entries(0, 10, false).unwrap();
    assert_eq!(public_now.len(), 1);
    assert_eq!(public_now[0].0, alice_id);

    // now alice's entry is the last public one and can go private
    assert_eq!(
        store.update_one_entry(env_time, "alice".to_string(), mark(false, &alice_id)),
        Ok(()),
    );
    assert_eq!(store.get_public_entries_total_count(), 0);
}

#[test]
fn test_public_entries_by_number() {
    // two owners publish entries for the same number; the per-number fan-out
    // lists both, other numbers list their own
    let mut store = BookmarkedNumbersManager::new();
    let env_time = mock_env_time();

    store.add_one_entry(env_time, entry("alice", 7, "", Some(env_time))).unwrap();
    store.add_one_entry(env_time, entry("bob", 7, "", Some(env_time))).unwrap();
    store.add_one_entry(env_time, entry("alice", 8, "", Some(env_time))).unwrap();

    assert_eq!(store.get_public_entries_by_number_total_count(7), 2);
    assert_eq!(store.get_public_entries_by_number_total_count(8), 1);
    assert_eq!(store.get_public_entries_by_number_total_count(9), 0);
    let sevens = store.get_public_entries_by_number(7, 0, 10, false).unwrap();
    assert_eq!(
        sevens.iter().map(|t| t.1.owner_addr.clone()).collect::<Vec<_>>(),
        vec!["alice".to_string(), "bob".to_string()],
    );
    let sevens_rev = store.get_public_entries_by_number(7, 0, 10, true).unwrap();
    assert_eq!(
        sevens_rev.iter().map(|t| t.1.owner_addr.clone()).collect::<Vec<_>>(),
        vec!["bob".to_string(), "alice".to_string()],
    );
    // out of bounds fails, the exact end is an empty page
    assert_eq!(store.get_public_entries_by_number(9, 0, 10, false), Ok(vec![]));
    assert_eq!(store.get_public_entries_by_number(7, 1, 2, false), Ok(vec![]));
    assert_eq!(
        store.get_public_entries_by_number(7, 2, 2, false),
        Err(ContractError::OutOfBounds),
    );
}

#[test]
fn test_publish_then_unpublish_restores_private_state() {
    // marking an entry public and then immediately private again (while it
    // is still the last public entry) restores it to the private query set
    // and removes it from both public indexes
    let mut store = BookmarkedNumbersManager::new();
    let env_time = mock_env_time();

    store.add_one_entry(env_time, entry("alice", 1, "", None)).unwrap();
    let id = external_id(1, env_time);
    let payload = |public: bool| UpdateOneEntryPayload {
        entry_id: id.clone(),
        memo_text: "".to_string(),
        mark_entry_as_public: public,
    };
    store.update_one_entry(env_time, "alice".to_string(), payload(true)).unwrap();
    assert_eq!(store.get_public_entries_total_count(), 1);
    assert_eq!(store.get_public_entries_by_number_total_count(1), 1);

    store.update_one_entry(env_time, "alice".to_string(), payload(false)).unwrap();
    // gone from both public indexes
    assert_eq!(store.get_public_entries_total_count(), 0);
    assert_eq!(store.get_public_entries_by_number_total_count(1), 0);
    // back in the private query set
    let got = store.get_one_owned_entry("alice".to_string(), id).unwrap();
    assert_eq!(got.marked_as_public_at, None);
    assert_eq!(store.get_owned_entries_total_count("alice".to_string()), 1);
}

#[test]
fn test_public_entries_pagination_scenario() {
    // alice bookmarks 1, 2 and 3, making 1 and 3 public: one page of two
    // public entries exists, in insertion order forward and newest first in
    // reverse
    let mut store = BookmarkedNumbersManager::new();
    let env_time = mock_env_time();

    store.add_one_entry(env_time, entry("alice", 1, "", Some(env_time))).unwrap();
    store.add_one_entry(env_time, entry("alice", 2, "", None)).unwrap();
    store.add_one_entry(env_time, entry("alice", 3, "", Some(env_time))).unwrap();

    let forward = store.get_public_entries(0, 2, false).unwrap();
    assert_eq!(forward.iter().map(|t| t.1.number).collect::<Vec<_>>(), vec![1, 3]);
    let reverse = store.get_public_entries(0, 2, true).unwrap();
    assert_eq!(reverse.iter().map(|t| t.1.number).collect::<Vec<_>>(), vec![3, 1]);
    assert_eq!(store.get_public_entries_total_count(), 2);
}
