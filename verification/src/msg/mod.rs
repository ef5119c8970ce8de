//! The operation surface, abstracted from the wire format.
//!
//! The host shell decodes the wire messages and hands these plain values in;
//! it also carries the permit that a `WithPermit` query wraps, and resolves
//! it to the verified viewer address these types speak of.

pub mod response;

use vstd::prelude::*;

verus! {

/// What instantiation asks for.
pub struct InstantiateMsg {
    pub count: i32,
    pub contract_manager: String,
}

/// Every state-changing call.
pub enum ExecuteMsg {
    Increment { count: Option<i32>, mark_history_as_public: Option<bool> },
    Reset { count: i32 },
    AddBookmarkNumber { number: i32, memo_text: String, mark_entry_as_public: bool },
    UpdateBookmarkedNumber { entry_id: String, memo_text: String, mark_entry_as_public: bool },
    /// Disallow the use of a permit. The revoked-permit book lives with the
    /// host; the state here is untouched.
    RevokePermit { permit_name: String, padding: Option<String> },
}

/// The queries that ride on a validated permit, which names the viewer.
pub enum QueryWithPermit {
    UserStatisticData {},
    GlobalStatisticData {},
    UserCountUpdateHistoryEntries {
        page: Option<u32>,
        page_size: Option<u32>,
        reverse_order: Option<bool>,
    },
    GlobalUserCountUpdateHistoryEntries {
        page: Option<u32>,
        page_size: Option<u32>,
        reverse_order: Option<bool>,
    },
    OwnedBookmarkedNumberEntries {
        page: Option<u32>,
        page_size: Option<u32>,
        reverse_order: Option<bool>,
    },
    GlobalBookmarkedNumberEntries {
        page: Option<u32>,
        page_size: Option<u32>,
        reverse_order: Option<bool>,
    },
    OneOwnedBookmarkedNumberEntry { entry_id: String },
}

/// The migration call.
pub enum MigrateMsg {
    Migrate {},
}

} // verus!
