use counter_bookmarks::errors::ContractError;
use counter_bookmarks::state::ids::external_id;
use counter_bookmarks::state::ordered::StringSet;
use counter_bookmarks::state::utils::keyset_reverse_paging;
use counter_bookmarks::time::Timestamp;

#[test]
fn external_id_is_deterministic_and_unique() {
    let t1 = Timestamp::from_nanos(1_571_797_419_879_305_533);
    let t2 = Timestamp::from_nanos(7);

    // the same inputs always give the same token
    assert_eq!(external_id(1, t1), external_id(1, t1));
    assert_eq!(external_id(42, t2), external_id(42, t2));
    // twenty-six letters, whatever the inputs
    assert_eq!(external_id(1, t1).len(), 26);
    assert_eq!(external_id(u64::MAX, Timestamp::from_nanos(u64::MAX)).len(), 26);
    // distinct sequence numbers give distinct tokens, even at the same time
    assert_ne!(external_id(1, t1), external_id(2, t1));
    // distinct times give distinct tokens, even for the same sequence number
    assert_ne!(external_id(1, t1), external_id(1, t2));
}

fn set_of(items: &[&str]) -> StringSet {
    let mut s = StringSet::new();
    for i in items {
        s.insert(&i.to_string());
    }
    s
}

#[test]
fn reverse_paging_is_reverse_of_forward_paging() {
    let set = set_of(&["a", "b", "c", "d", "e"]);
    let forward = set.paging(0, 5).unwrap();
    let mut reversed = keyset_reverse_paging(&set, 0, 5).unwrap();
    reversed.reverse();
    assert_eq!(forward, reversed);
    assert_eq!(forward, vec!["a", "b", "c", "d", "e"]);
}

#[test]
fn paging_boundaries() {
    let set = set_of(&["a", "b", "c", "d"]);
    // a page starting exactly at the end is empty, not an error
    assert_eq!(set.paging(2, 2).unwrap(), Vec::<String>::new());
    assert_eq!(keyset_reverse_paging(&set, 2, 2).unwrap(), Vec::<String>::new());
    // one position past the end fails
    assert_eq!(set.paging(5, 1), Err(ContractError::OutOfBounds));
    assert_eq!(keyset_reverse_paging(&set, 5, 1), Err(ContractError::OutOfBounds));
    assert_eq!(ContractError::OutOfBounds.message(), "out of bounds");
    // an empty container accepts every request
    let empty = StringSet::new();
    assert_eq!(empty.paging(7, 3).unwrap(), Vec::<String>::new());
    assert_eq!(keyset_reverse_paging(&empty, 7, 3).unwrap(), Vec::<String>::new());
    // a partial last page
    assert_eq!(set.paging(1, 3).unwrap(), vec!["d"]);
    assert_eq!(keyset_reverse_paging(&set, 1, 3).unwrap(), vec!["a"]);
}

#[test]
fn error_messages() {
    assert_eq!(ContractError::NotFound.message(), "Entry not found");
    assert_eq!(ContractError::Unauthorized.message(), "Unauthorized");
    assert_eq!(ContractError::DuplicateNumber.message(), "Number already bookmarked");
    assert_eq!(ContractError::InvalidAddress.message(), "Invalid address");
}
