//! Rule sets of the successive protocol revisions: pricing and behaviour as data.
use vstd::prelude::*;

verus! {

/// Which schedule prices SSTORE.
#[derive(Clone, Copy, PartialEq, Eq, Debug, Structural)]
pub enum SstoreRule {
    /// Set costs more than reset; clearing refunds.
    Legacy,
    /// Priced on the (original, current, new) triple of the slot.
    NetMetered,
}

/// A rule set.
#[derive(Clone, Copy, PartialEq, Eq, Debug, Structural)]
pub struct Patch {
    pub gas_transaction_call: u64,
    pub gas_transaction_create: u64,
    pub gas_transaction_zero_data: u64,
    pub gas_transaction_non_zero_data: u64,
    /// Cost per 32-byte word of init code of a creating transaction; zero before it was priced.
    pub gas_initcode_word: u64,
    pub gas_expbyte: u64,
    pub gas_call: u64,
    pub gas_sload: u64,
    pub gas_sstore_set: u64,
    pub gas_sstore_reset: u64,
    pub refund_sstore_clears: u64,
    pub sstore_rule: SstoreRule,
    /// Divisor of the gas used that caps the refund at the end of a transaction.
    pub max_refund_quotient: u64,
    /// A sub-call gets at most all but one 64th of the remaining gas.
    pub call_l64_after_gas: bool,
    /// A sub-call asking for more gas than is left fails instead of being capped.
    pub err_on_call_with_more_gas: bool,
    pub call_stipend: u64,
    pub callstack_limit: usize,
    pub gas_code_deposit_byte: u64,
    /// A creation that cannot pay for its code still succeeds, with empty code.
    pub force_code_deposit: bool,
    pub max_code_size: usize,
    pub has_base_fee: bool,
    pub has_bitwise_shifting: bool,
    pub has_chain_id: bool,
    pub has_self_balance: bool,
    pub has_create2: bool,
    pub has_ext_code_hash: bool,
    pub has_return_data: bool,
    pub has_revert: bool,
}

impl Patch {
    /// Well-formed: a nonzero refund quotient, the call-depth bound of the
    /// protocol, and prices small enough that no sum of them overflows.
    pub open spec fn wf(&self) -> bool {
        &&& self.max_refund_quotient > 0
        &&& self.callstack_limit <= 1024
        &&& self.gas_transaction_call <= 100_000
        &&& self.gas_transaction_create <= 100_000
        &&& self.gas_transaction_zero_data <= 100
        &&& self.gas_transaction_non_zero_data <= 100
        &&& self.gas_initcode_word <= 100
        &&& self.gas_expbyte <= 1000
        &&& self.gas_call <= 100_000
        &&& self.gas_sload <= 100_000
        &&& self.gas_sstore_set <= 100_000
        &&& self.gas_sstore_reset <= 100_000
        &&& self.refund_sstore_clears <= 100_000
        &&& self.call_stipend <= 9000
        &&& self.gas_code_deposit_byte <= 1000
    }

    /// The first rule set.
    pub fn frontier() -> (r: Patch)
        ensures
            r.wf(),
            r.sstore_rule == SstoreRule::Legacy,
            r.gas_transaction_non_zero_data == 68,
            r.gas_call == 40,
            r.max_refund_quotient == 2,
            !r.call_l64_after_gas,
            r.force_code_deposit,
    {
        Patch {
            gas_transaction_call: 21000,
            gas_transaction_create: 21000,
            gas_transaction_zero_data: 4,
            gas_transaction_non_zero_data: 68,
            gas_initcode_word: 0,
            gas_expbyte: 10,
            gas_call: 40,
            gas_sload: 50,
            gas_sstore_set: 20000,
            gas_sstore_reset: 5000,
            refund_sstore_clears: 15000,
            sstore_rule: SstoreRule::Legacy,
            max_refund_quotient: 2,
            call_l64_after_gas: false,
            err_on_call_with_more_gas: true,
            call_stipend: 2300,
            callstack_limit: 1024,
            gas_code_deposit_byte: 200,
            force_code_deposit: true,
            max_code_size: 0xffff_ffff,
            has_base_fee: false,
            has_bitwise_shifting: false,
            has_chain_id: false,
            has_self_balance: false,
            has_create2: false,
            has_ext_code_hash: false,
            has_return_data: false,
            has_revert: false,
        }
    }

    /// The rule set with net-metered SSTORE, chain id and self-balance.
    pub fn istanbul() -> (r: Patch)
        ensures
            r.wf(),
            r.sstore_rule == SstoreRule::NetMetered,
            r.gas_sload == 800,
            r.gas_transaction_non_zero_data == 16,
            r.gas_transaction_create == 53000,
            r.gas_call == 700,
            r.max_refund_quotient == 2,
            r.call_l64_after_gas,
    {
        Patch {
            gas_transaction_call: 21000,
            gas_transaction_create: 53000,
            gas_transaction_zero_data: 4,
            gas_transaction_non_zero_data: 16,
            gas_initcode_word: 0,
            gas_expbyte: 50,
            gas_call: 700,
            gas_sload: 800,
            gas_sstore_set: 20000,
            gas_sstore_reset: 5000,
            refund_sstore_clears: 15000,
            sstore_rule: SstoreRule::NetMetered,
            max_refund_quotient: 2,
            call_l64_after_gas: true,
            err_on_call_with_more_gas: false,
            call_stipend: 2300,
            callstack_limit: 1024,
            gas_code_deposit_byte: 200,
            force_code_deposit: false,
            max_code_size: 0x6000,
            has_base_fee: false,
            has_bitwise_shifting: true,
            has_chain_id: true,
            has_self_balance: true,
            has_create2: true,
            has_ext_code_hash: true,
            has_return_data: true,
            has_revert: true,
        }
    }

    /// The rule set with a base fee, cheaper warm storage and a refund cap of a fifth.
    pub fn london() -> (r: Patch)
        ensures
            r.wf(),
            r.sstore_rule == SstoreRule::NetMetered,
            r.gas_sload == 100,
            r.refund_sstore_clears == 4800,
            r.max_refund_quotient == 5,
            r.has_base_fee,
    {
        Patch {
            gas_transaction_call: 21000,
            gas_transaction_create: 53000,
            gas_transaction_zero_data: 4,
            gas_transaction_non_zero_data: 16,
            gas_initcode_word: 0,
            gas_expbyte: 50,
            gas_call: 100,
            gas_sload: 100,
            gas_sstore_set: 20000,
            gas_sstore_reset: 2900,
            refund_sstore_clears: 4800,
            sstore_rule: SstoreRule::NetMetered,
            max_refund_quotient: 5,
            call_l64_after_gas: true,
            err_on_call_with_more_gas: false,
            call_stipend: 2300,
            callstack_limit: 1024,
            gas_code_deposit_byte: 200,
            force_code_deposit: false,
            max_code_size: 0x6000,
            has_base_fee: true,
            has_bitwise_shifting: true,
            has_chain_id: true,
            has_self_balance: true,
            has_create2: true,
            has_ext_code_hash: true,
            has_return_data: true,
            has_revert: true,
        }
    }
}

} // verus!
