use crate::vault::StoreError;
use vstd::prelude::*;

verus! {

/// Keeps the vaults of a user's machines alike. Nothing is sent yet.
pub struct VaultSync {}

impl VaultSync {
    /// A sync that has not begun.
    pub fn new() -> (r: Result<Self, StoreError>)
        ensures
            r is Ok,
    {
        Ok(VaultSync {})
    }

    /// Begins to keep the vaults alike. Nothing is begun yet.
    pub fn start(&mut self) -> (r: Result<(), StoreError>)
        ensures
            r is Ok,
    {
        Ok(())
    }

    /// Sends the vault to the other machines. Nothing is sent yet.
    pub fn sync_to_peers(&self) -> (r: Result<(), StoreError>)
        ensures
            r is Ok,
    {
        Ok(())
    }
}

} // verus!
