//! Reading a wallet's privileges.

use vstd::prelude::*;

use crate::msg::response::PrivilegesResponse;
use crate::schema::StorageSchema;

verus! {

/// Whether the given wallet is the configured contract manager. The host
/// validates the address before it reaches this query.
pub fn query_privileges(schema: &StorageSchema, wallet_address: String) -> (r: PrivilegesResponse)
    ensures
        r.is_contract_manager == (wallet_address@ == schema.config.contract_manager@),
{
    PrivilegesResponse {
        is_contract_manager: wallet_address == schema.config.contract_manager,
    }
}

} // verus!
