//! The world state the machine reads, as its users provide it.
use vstd::prelude::*;
use crate::substate::{Address, Basic};
use crate::u256::U256;

verus! {

/// Read access to the world state and the block, as it stood before the transaction.
pub trait Backend {
    fn basic(&self, address: Address) -> Basic;

    fn code(&self, address: Address) -> Vec<u8>;

    fn storage(&self, address: Address, key: U256) -> U256;

    /// Whether the account held any nonzero slot when the transaction began.
    fn has_storage(&self, address: Address) -> bool;

    /// A slot's value when the transaction began.
    fn original_storage(&self, address: Address, key: U256) -> U256;

    fn block_number(&self) -> U256;

    /// The hash of block `number`, one of the 256 before the current one.
    fn block_hash(&self, number: U256) -> U256;

    fn block_coinbase(&self) -> Address;

    fn block_timestamp(&self) -> U256;

    fn block_difficulty(&self) -> U256;

    fn block_gas_limit(&self) -> U256;

    fn chain_id(&self) -> U256;

    /// The block's base fee; zero before base fees were introduced.
    fn block_base_fee(&self) -> U256;
}

} // verus!
