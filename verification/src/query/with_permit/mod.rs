//! The queries that ride on a validated permit.
//!
//! The host validates the permit and resolves the viewer address before the
//! dispatch here runs; the global queries are then granted to the contract
//! manager alone.

pub mod bookmarked_number_entries;
pub mod global_statistic_data;
pub mod global_user_count_update_history_entries;
pub mod user_count_update_history_entries;
pub mod user_statistic_data;

use vstd::prelude::*;

use crate::errors::ContractError;
use crate::msg::response::QueryAnswer;
use crate::msg::QueryWithPermit;
use crate::query::{spec_valid_page, spec_valid_page_size};
use crate::schema::StorageSchema;

verus! {

/// Performs the permit-gated query for the validated viewer, after applying
/// the page fallbacks; the two global queries fail with the authorization
/// error for any viewer but the contract manager.
pub fn permit_query_dispatch(schema: &StorageSchema, viewer: String, query: QueryWithPermit) -> (r:
    Result<QueryAnswer, ContractError>)
    requires
        schema.wf(),
    ensures
        query matches QueryWithPermit::UserStatisticData {  } ==> r == Ok::<
            QueryAnswer,
            ContractError,
        >(
            QueryAnswer::UserStatisticData {
                count_increment_count: crate::execute::increment::spec_user_statistic(
                    *schema,
                    viewer@,
                ).count_increment_count,
            },
        ),
        query matches QueryWithPermit::GlobalStatisticData {  } ==> (if viewer@
            != schema.config.contract_manager@ {
            r == Err::<QueryAnswer, ContractError>(ContractError::Unauthorized)
        } else {
            r == Ok::<QueryAnswer, ContractError>(
                QueryAnswer::GlobalStatisticData {
                    count_increment_count: schema.state.count_increment_count,
                    count_reset_count: schema.state.count_reset_count,
                },
            )
        }),
        query matches QueryWithPermit::UserCountUpdateHistoryEntries {
            page,
            page_size,
            reverse_order,
        } ==> user_count_update_history_entries::spec_query_post(
            *schema,
            viewer@,
            spec_valid_page(page),
            spec_valid_page_size(page_size),
            match reverse_order {
                Some(b) => b,
                None => false,
            },
            r,
        ),
        query matches QueryWithPermit::GlobalUserCountUpdateHistoryEntries {
            page,
            page_size,
            reverse_order,
        } ==> (if viewer@ != schema.config.contract_manager@ {
            r == Err::<QueryAnswer, ContractError>(ContractError::Unauthorized)
        } else {
            global_user_count_update_history_entries::spec_query_post(
                *schema,
                spec_valid_page(page),
                spec_valid_page_size(page_size),
                match reverse_order {
                    Some(b) => b,
                    None => false,
                },
                r,
            )
        }),
        query matches QueryWithPermit::OwnedBookmarkedNumberEntries {
            page,
            page_size,
            reverse_order,
        } ==> bookmarked_number_entries::owned_entries::spec_query_post(
            *schema,
            viewer@,
            spec_valid_page(page),
            spec_valid_page_size(page_size),
            match reverse_order {
                Some(b) => b,
                None => false,
            },
            r,
        ),
        query matches QueryWithPermit::GlobalBookmarkedNumberEntries {
            page,
            page_size,
            reverse_order,
        } ==> bookmarked_number_entries::global_entries::spec_query_post(
            *schema,
            spec_valid_page(page),
            spec_valid_page_size(page_size),
            match reverse_order {
                Some(b) => b,
                None => false,
            },
            r,
        ),
        query matches QueryWithPermit::OneOwnedBookmarkedNumberEntry { entry_id }
            ==> bookmarked_number_entries::one_owned_entry::spec_query_post(
            *schema,
            viewer@,
            entry_id@,
            r,
        ),
    {
    match query {
        QueryWithPermit::UserStatisticData {  } => Ok(
            user_statistic_data::query_user_statistic_data(schema, viewer),
        ),
        QueryWithPermit::GlobalStatisticData {  } => {
            // only the contract manager can check
            if schema.config.contract_manager != viewer {
                return Err(ContractError::Unauthorized);
            }
            Ok(global_statistic_data::query_global_statistic_data(schema, viewer))
        },
        QueryWithPermit::UserCountUpdateHistoryEntries { page, page_size, reverse_order } => {
            let (valid_page_one_based, valid_page_size) = crate::query::valid_page_params(
                page,
                page_size,
            );
            let reverse = match reverse_order {
                Some(b) => b,
                None => false,
            };
            user_count_update_history_entries::query_user_count_update_history_entries(
                schema,
                viewer,
                valid_page_one_based,
                valid_page_size,
                reverse,
            )
        },
        QueryWithPermit::GlobalUserCountUpdateHistoryEntries { page, page_size, reverse_order } => {
            // only the contract manager can check
            if schema.config.contract_manager != viewer {
                return Err(ContractError::Unauthorized);
            }
            let (valid_page_one_based, valid_page_size) = crate::query::valid_page_params(
                page,
                page_size,
            );
            let reverse = match reverse_order {
                Some(b) => b,
                None => false,
            };
            global_user_count_update_history_entries::query_global_user_count_update_history_entries(
                schema,
                valid_page_one_based,
                valid_page_size,
                reverse,
            )
        },
        QueryWithPermit::OwnedBookmarkedNumberEntries { page, page_size, reverse_order } => {
            let (valid_page_one_based, valid_page_size) = crate::query::valid_page_params(
                page,
                page_size,
            );
            let reverse = match reverse_order {
                Some(b) => b,
                None => false,
            };
            bookmarked_number_entries::owned_entries::query_entries(
                schema,
                viewer,
                valid_page_one_based,
                valid_page_size,
                reverse,
            )
        },
        QueryWithPermit::GlobalBookmarkedNumberEntries { page, page_size, reverse_order } => {
            let (valid_page_one_based, valid_page_size) = crate::query::valid_page_params(
                page,
                page_size,
            );
            let reverse = match reverse_order {
                Some(b) => b,
                None => false,
            };
            bookmarked_number_entries::global_entries::query_entries(
                schema,
                valid_page_one_based,
                valid_page_size,
                reverse,
            )
        },
        QueryWithPermit::OneOwnedBookmarkedNumberEntry { entry_id } => {
            bookmarked_number_entries::one_owned_entry::query(schema, viewer, entry_id)
        },
    }
}

} // verus!
