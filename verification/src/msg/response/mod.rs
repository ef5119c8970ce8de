//! What the queries answer with.

use vstd::prelude::*;

verus! {

/// The current count.
#[derive(Clone, Copy, Debug, PartialEq, Eq, Structural)]
pub struct CountResponse {
    pub count: i32,
}

/// Whether the asked-about wallet is the contract manager.
#[derive(Clone, Copy, Debug, PartialEq, Eq, Structural)]
pub struct PrivilegesResponse {
    pub is_contract_manager: bool,
}

/// One history entry as a query answers it, with times in milliseconds.
#[derive(Debug, PartialEq, Eq)]
pub struct UserCountUpdateHistoryEntryInResponse {
    pub user_addr: String,
    pub count_change: i32,
    pub created_at_in_ms: u64,
}

/// The abstract value of a history answer line.
pub struct UserCountUpdateHistoryEntryInResponseModel {
    pub user_addr: Seq<char>,
    pub count_change: i32,
    pub created_at_in_ms: u64,
}

impl View for UserCountUpdateHistoryEntryInResponse {
    type V = UserCountUpdateHistoryEntryInResponseModel;

    open spec fn view(&self) -> UserCountUpdateHistoryEntryInResponseModel {
        UserCountUpdateHistoryEntryInResponseModel {
            user_addr: self.user_addr@,
            count_change: self.count_change,
            created_at_in_ms: self.created_at_in_ms,
        }
    }
}

/// One bookmark entry as a query answers it, with times in milliseconds.
#[derive(Debug, PartialEq, Eq)]
pub struct BookmarkedNumberEntryInResponse {
    pub entry_id: String,
    pub owner_addr: String,
    pub number: i32,
    pub memo_text: String,
    pub marked_as_public_at_in_ms: Option<u64>,
    pub created_at_in_ms: u64,
    pub updated_at_in_ms: u64,
}

/// The abstract value of a bookmark answer line.
pub struct BookmarkedNumberEntryInResponseModel {
    pub entry_id: Seq<char>,
    pub owner_addr: Seq<char>,
    pub number: i32,
    pub memo_text: Seq<char>,
    pub marked_as_public_at_in_ms: Option<u64>,
    pub created_at_in_ms: u64,
    pub updated_at_in_ms: u64,
}

impl View for BookmarkedNumberEntryInResponse {
    type V = BookmarkedNumberEntryInResponseModel;

    open spec fn view(&self) -> BookmarkedNumberEntryInResponseModel {
        BookmarkedNumberEntryInResponseModel {
            entry_id: self.entry_id@,
            owner_addr: self.owner_addr@,
            number: self.number,
            memo_text: self.memo_text@,
            marked_as_public_at_in_ms: self.marked_as_public_at_in_ms,
            created_at_in_ms: self.created_at_in_ms,
            updated_at_in_ms: self.updated_at_in_ms,
        }
    }
}

/// Every query answer.
#[derive(Debug, PartialEq, Eq)]
pub enum QueryAnswer {
    UserStatisticData { count_increment_count: u32 },
    GlobalStatisticData { count_increment_count: i32, count_reset_count: i32 },
    UserCountUpdateHistoryEntries {
        entries: Vec<UserCountUpdateHistoryEntryInResponse>,
        total_count: u32,
    },
    BookmarkedNumberEntries { entries: Vec<BookmarkedNumberEntryInResponse>, total_count: u32 },
    OneBookmarkedNumberEntry { entry: BookmarkedNumberEntryInResponse },
}

} // verus!
