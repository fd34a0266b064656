//! Capability interfaces a chain client offers to callers of this crate.

use vstd::prelude::*;

use crate::block::BlockHash;

verus! {

/// The on-chain owner record of a piece of uploaded contract code.
#[derive(Clone, Copy, Debug, PartialEq, Eq, Structural)]
pub struct CodeOwnerInfo {
    /// The account that uploaded the code.
    pub owner: u64,
    /// The storage deposit held for it.
    pub deposit: u128,
    /// How many contracts instantiate it.
    pub refcount: u64,
}

/// Read access to the contracts pallet's code storage: who owns a piece of
/// uploaded code, queried at a given block or at the current best one. A
/// connection to a node implements this; `None` means no code is stored
/// under the hash.
pub trait ContractsApi: Sized {
    fn get_owner_info(&self, code_hash: BlockHash, at: Option<BlockHash>) -> Option<CodeOwnerInfo>;
}

} // verus!
