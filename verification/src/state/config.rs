//! The contract configuration record.

use vstd::prelude::*;

verus! {

/// The single mutable configuration value: the manager address, which gates
/// resets and global queries, and the contract's own address, which the host
/// uses to validate permits.
#[derive(Debug, PartialEq, Eq)]
pub struct Config {
    pub contract_manager: String,
    pub contract_address: String,
}

impl Clone for Config {
    /// A copy equal to the original.
    fn clone(&self) -> (res: Self)
        ensures
            res == *self,
    {
        Config {
            contract_manager: self.contract_manager.clone(),
            contract_address: self.contract_address.clone(),
        }
    }
}

} // verus!
