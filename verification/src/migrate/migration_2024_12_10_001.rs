//! The migration that gave the configuration the contract's own address.

use vstd::prelude::*;

verus! {

/// The configuration record after this migration.
#[derive(Debug, PartialEq, Eq)]
pub struct NewConfig {
    pub contract_manager: String,
    pub contract_address: String,
}

/// The configuration record before this migration: the manager alone.
#[derive(Debug, PartialEq, Eq)]
pub struct OldConfig {
    pub contract_manager: String,
}

/// Carries the manager over and records the contract's address, which the
/// host hands in.
pub fn execute(old_config: OldConfig, contract_address: String) -> (r: NewConfig)
    ensures
        r.contract_manager@ == old_config.contract_manager@,
        r.contract_address@ == contract_address@,
{
    NewConfig { contract_manager: old_config.contract_manager, contract_address }
}

} // verus!
