//! The queries: every read-only call, and what they share.

pub mod count;
pub mod global_public_user_count_update_history_entries;
pub mod privileges;
pub mod public;
pub mod with_permit;

use vstd::prelude::*;

use crate::msg::response::{
    BookmarkedNumberEntryInResponse, BookmarkedNumberEntryInResponseModel,
    UserCountUpdateHistoryEntryInResponse, UserCountUpdateHistoryEntryInResponseModel,
};
use crate::state::bookmarked_numbers::{BookmarkedNumberEntry, BookmarkedNumberEntryModel};
use crate::state::user_count_update_history::{
    UserCountUpdateHistoryEntry, UserCountUpdateHistoryEntryModel,
};

verus! {

/// The page a caller asked for, one-based: a missing or zero page reads as
/// the first.
pub open spec fn spec_valid_page(page: Option<u32>) -> u32 {
    let p = match page {
        Some(p) => p,
        None => 1,
    };
    if p < 1 {
        1
    } else {
        p
    }
}

/// The page size a caller asked for: a missing size reads as ten, and one
/// outside one to a hundred falls back to one.
pub open spec fn spec_valid_page_size(page_size: Option<u32>) -> u32 {
    let s = match page_size {
        Some(s) => s,
        None => 10,
    };
    if 1 <= s && s <= 100 {
        s
    } else {
        1
    }
}

/// Applies the page fallbacks of the query boundary.
pub fn valid_page_params(page: Option<u32>, page_size: Option<u32>) -> (r: (u32, u32))
    ensures
        r.0 == spec_valid_page(page),
        r.1 == spec_valid_page_size(page_size),
{
    let p = match page {
        Some(p) => p,
        None => 1,
    };
    let p = if p < 1 {
        1
    } else {
        p
    };
    let s = match page_size {
        Some(s) => s,
        None => 10,
    };
    let s = if 1 <= s && s <= 100 {
        s
    } else {
        1
    };
    (p, s)
}

/// One history entry as the answers carry it, with the time in milliseconds.
pub open spec fn spec_history_entry_in_response(
    e: UserCountUpdateHistoryEntryModel,
) -> UserCountUpdateHistoryEntryInResponseModel {
    UserCountUpdateHistoryEntryInResponseModel {
        user_addr: e.user_addr,
        count_change: e.count_change,
        created_at_in_ms: e.created_at.nanos / 1_000_000,
    }
}

/// Carries a page of history entries into answer form, in order.
pub fn history_entries_in_response(entries: &Vec<UserCountUpdateHistoryEntry>) -> (r: Vec<
    UserCountUpdateHistoryEntryInResponse,
>)
    ensures
        r@.len() == entries@.len(),
        forall|k: int|
            0 <= k < entries@.len() ==> (#[trigger] r@[k])@ == spec_history_entry_in_response(
                entries@[k]@,
            ),
{
    let mut out: Vec<UserCountUpdateHistoryEntryInResponse> = Vec::new();
    let mut i: usize = 0;
    while i < entries.len()
        invariant
            i <= entries@.len(),
            out@.len() == i,
            forall|k: int|
                0 <= k < i ==> (#[trigger] out@[k])@ == spec_history_entry_in_response(
                    entries@[k]@,
                ),
        decreases entries@.len() - i,
    {
        let e = &entries[i];
        out.push(
            UserCountUpdateHistoryEntryInResponse {
                user_addr: e.user_addr.clone(),
                count_change: e.count_change,
                created_at_in_ms: e.created_at.millis(),
            },
        );
        i = i + 1;
    }
    out
}

/// One bookmark entry as the answers carry it, beside its id, with the times
/// in milliseconds.
pub open spec fn spec_bookmark_entry_in_response(
    p: (Seq<char>, BookmarkedNumberEntryModel),
) -> BookmarkedNumberEntryInResponseModel {
    BookmarkedNumberEntryInResponseModel {
        entry_id: p.0,
        owner_addr: p.1.owner_addr,
        number: p.1.number,
        memo_text: p.1.memo_text,
        marked_as_public_at_in_ms: match p.1.marked_as_public_at {
            Some(t) => Some(t.nanos / 1_000_000),
            None => None,
        },
        created_at_in_ms: p.1.created_at.nanos / 1_000_000,
        updated_at_in_ms: p.1.updated_at.nanos / 1_000_000,
    }
}

/// Carries a page of bookmark entries into answer form, in order.
pub fn bookmark_entries_in_response(entries: &Vec<(String, BookmarkedNumberEntry)>) -> (r: Vec<
    BookmarkedNumberEntryInResponse,
>)
    ensures
        r@.len() == entries@.len(),
        forall|k: int|
            0 <= k < entries@.len() ==> (#[trigger] r@[k])@ == spec_bookmark_entry_in_response(
                (entries@[k].0@, entries@[k].1@),
            ),
{
    let mut out: Vec<BookmarkedNumberEntryInResponse> = Vec::new();
    let mut i: usize = 0;
    while i < entries.len()
        invariant
            i <= entries@.len(),
            out@.len() == i,
            forall|k: int|
                0 <= k < i ==> (#[trigger] out@[k])@ == spec_bookmark_entry_in_response(
                    (entries@[k].0@, entries@[k].1@),
                ),
        decreases entries@.len() - i,
    {
        let p = &entries[i];
        let e = &p.1;
        out.push(
            BookmarkedNumberEntryInResponse {
                entry_id: p.0.clone(),
                owner_addr: e.owner_addr.clone(),
                number: e.number,
                memo_text: e.memo_text.clone(),
                marked_as_public_at_in_ms: match e.marked_as_public_at {
                    Some(t) => Some(t.millis()),
                    None => None,
                },
                created_at_in_ms: e.created_at.millis(),
                updated_at_in_ms: e.updated_at.millis(),
            },
        );
        i = i + 1;
    }
    out
}

/// Carrying a resolved page of history entries into answer form answers the
/// page itself.
pub proof fn lemma_history_page_glue(
    om: crate::state::ordered::OrderedMap<UserCountUpdateHistoryEntry>,
    target: Seq<Seq<char>>,
    entries: Seq<UserCountUpdateHistoryEntry>,
    resp: Seq<UserCountUpdateHistoryEntryInResponse>,
)
    requires
        entries.map_values(|e: UserCountUpdateHistoryEntry| e@) == target.map_values(
            |id: Seq<char>| om.spec_get(id),
        ),
        resp.len() == entries.len(),
        forall|k: int|
            0 <= k < entries.len() ==> (#[trigger] resp[k])@ == spec_history_entry_in_response(
                entries[k]@,
            ),
    ensures
        resp.map_values(|e: UserCountUpdateHistoryEntryInResponse| e@) == target.map_values(
            |id: Seq<char>| spec_history_entry_in_response(om.spec_get(id)),
        ),
{
    assert(entries.map_values(|e: UserCountUpdateHistoryEntry| e@).len() == entries.len());
    assert(target.map_values(|id: Seq<char>| om.spec_get(id)).len() == target.len());
    assert forall|k: int|
        #![trigger resp[k]]
        0 <= k < resp.len() implies resp.map_values(
        |e: UserCountUpdateHistoryEntryInResponse| e@,
    )[k] == target.map_values(
        |id: Seq<char>| spec_history_entry_in_response(om.spec_get(id)),
    )[k] by {
        assert(entries.map_values(|e: UserCountUpdateHistoryEntry| e@)[k] == entries[k]@);
        assert(target.map_values(|id: Seq<char>| om.spec_get(id))[k] == om.spec_get(target[k]));
        assert(entries[k]@ == om.spec_get(target[k]));
    }
    assert(resp.map_values(|e: UserCountUpdateHistoryEntryInResponse| e@) =~= target.map_values(
        |id: Seq<char>| spec_history_entry_in_response(om.spec_get(id)),
    ));
}

/// Carrying a resolved page of bookmark entries into answer form answers the
/// page itself.
pub proof fn lemma_bookmark_page_glue(
    om: crate::state::ordered::OrderedMap<BookmarkedNumberEntry>,
    target: Seq<Seq<char>>,
    entries: Seq<(String, BookmarkedNumberEntry)>,
    resp: Seq<BookmarkedNumberEntryInResponse>,
)
    requires
        entries.map_values(|p: (String, BookmarkedNumberEntry)| (p.0@, p.1@)) == target.map_values(
            |id: Seq<char>| (id, om.spec_get(id)),
        ),
        resp.len() == entries.len(),
        forall|k: int|
            0 <= k < entries.len() ==> (#[trigger] resp[k])@ == spec_bookmark_entry_in_response(
                (entries[k].0@, entries[k].1@),
            ),
    ensures
        resp.map_values(|e: BookmarkedNumberEntryInResponse| e@) == target.map_values(
            |id: Seq<char>| spec_bookmark_entry_in_response((id, om.spec_get(id))),
        ),
{
    assert(entries.map_values(|p: (String, BookmarkedNumberEntry)| (p.0@, p.1@)).len()
        == entries.len());
    assert(target.map_values(|id: Seq<char>| (id, om.spec_get(id))).len() == target.len());
    assert forall|k: int|
        #![trigger resp[k]]
        0 <= k < resp.len() implies resp.map_values(|e: BookmarkedNumberEntryInResponse| e@)[k]
        == target.map_values(
        |id: Seq<char>| spec_bookmark_entry_in_response((id, om.spec_get(id))),
    )[k] by {
        assert(entries.map_values(|p: (String, BookmarkedNumberEntry)| (p.0@, p.1@))[k] == (
        entries[k].0@, entries[k].1@));
        assert(target.map_values(|id: Seq<char>| (id, om.spec_get(id)))[k] == (
        target[k],
        om.spec_get(target[k]),
        ));
        assert((entries[k].0@, entries[k].1@) == (target[k], om.spec_get(target[k])));
    }
    assert(resp.map_values(|e: BookmarkedNumberEntryInResponse| e@) =~= target.map_values(
        |id: Seq<char>| spec_bookmark_entry_in_response((id, om.spec_get(id))),
    ));
}

} // verus!
