//! The gas schedule: static costs, costs that depend on operands and
//! memory, SSTORE pricing and refunds, and the settlement of a transaction.
use vstd::prelude::*;
use crate::errors::ExitError;
use crate::patch::{Patch, SstoreRule};
use crate::u256::U256;

verus! {

/// `a / b` rounded up.
pub open spec fn div_ceil(a: nat, b: nat) -> nat {
    if a % b == 0 {
        a / b
    } else {
        a / b + 1
    }
}

/// The cost of `words` active words of memory: `3 * words + words^2 / 512`.
pub open spec fn memory_cost(words: nat) -> nat {
    3 * words + words * words / 512
}

/// The largest number of memory words that is ever priced.
pub const MAX_MEMORY_WORDS: u64 = 0x100_0000;

/// `a / b` rounded up.
pub fn gas_div_ceil(a: u64, b: u64) -> (r: u64)
    requires
        b > 0,
    ensures
        r == div_ceil(a as nat, b as nat),
{
    if a % b == 0 {
        a / b
    } else {
        proof {
            vstd::arithmetic::div_mod::lemma_fundamental_div_mod(a as int, b as int);
            vstd::arithmetic::div_mod::lemma_remainder(a as int, b as int);
            vstd::arithmetic::div_mod::lemma_div_decreases(a as int, b as int);
        }
        a / b + 1
    }
}

/// The cost of a memory of `words` active words.
pub fn memory_gas(words: u64) -> (r: u64)
    requires
        words <= MAX_MEMORY_WORDS,
    ensures
        r == memory_cost(words as nat),
        r <= 0x100_0000_0000,
{
    proof {
        assert(words * words <= MAX_MEMORY_WORDS * MAX_MEMORY_WORDS) by (nonlinear_arith)
            requires
                words <= MAX_MEMORY_WORDS,
        ;
    }
    3 * words + words * words / 512
}

/// The cost of growing memory from `current` to `next` active words; nothing if it does not grow.
pub fn memory_expansion_gas(current: u64, next: u64) -> (r: u64)
    requires
        current <= MAX_MEMORY_WORDS,
        next <= MAX_MEMORY_WORDS,
    ensures
        next <= current ==> r == 0,
        next > current ==> r == memory_cost(next as nat) - memory_cost(current as nat),
        r <= 0x100_0000_0000,
{
    if next <= current {
        0
    } else {
        proof {
            assert(current * current <= next * next) by (nonlinear_arith)
                requires
                    current <= next,
            ;
            vstd::arithmetic::div_mod::lemma_div_is_ordered(
                (current * current) as int,
                (next * next) as int,
                512,
            );
        }
        memory_gas(next) - memory_gas(current)
    }
}

/// SHA3 over `len` bytes: 30 plus 6 per word.
pub fn sha3_gas(len: u64) -> (r: u64)
    requires
        len <= 0xffff_ffff,
    ensures
        r == 30 + 6 * div_ceil(len as nat, 32),
{
    30 + 6 * gas_div_ceil(len, 32)
}

/// LOGn with `len` bytes of data: 375, 375 per topic and 8 per byte.
pub fn log_gas(topics: u64, len: u64) -> (r: u64)
    requires
        topics <= 4,
        len <= 0xffff_ffff,
    ensures
        r == 375 + 375 * topics + 8 * len,
{
    375 + 375 * topics + 8 * len
}

/// A copy of `len` bytes into memory: 3 plus 3 per word.
pub fn copy_gas(len: u64) -> (r: u64)
    requires
        len <= 0xffff_ffff,
    ensures
        r == 3 + 3 * div_ceil(len as nat, 32),
{
    3 + 3 * gas_div_ceil(len, 32)
}

/// The number of bytes needed to write `v`.
pub open spec fn byte_len_of_bits(bits: nat) -> nat {
    div_ceil(bits, 8)
}

/// EXP: 10 plus the patch's cost per byte of the exponent.
pub fn exp_gas(patch: &Patch, exponent: &U256) -> (r: u64)
    requires
        patch.gas_expbyte <= 1000,
    ensures
        10 <= r <= 10 + 32 * patch.gas_expbyte,
        exists|bits: nat|
            crate::u256::is_bit_length(exponent.value(), bits) && r == 10 + patch.gas_expbyte
                * byte_len_of_bits(bits),
{
    let bits = exponent.bits() as u64;
    let bytes = gas_div_ceil(bits, 8);
    proof {
        assert(bytes <= 32);
        assert(patch.gas_expbyte * bytes <= 1000 * 32) by (nonlinear_arith)
            requires
                patch.gas_expbyte <= 1000,
                bytes <= 32,
        ;
        assert(patch.gas_expbyte * bytes <= 32 * patch.gas_expbyte) by (nonlinear_arith)
            requires
                bytes <= 32,
        ;
    }
    10 + patch.gas_expbyte * bytes
}

/// The cost of CALL before the gas handed to the callee: the base, 9000 to move
/// value, and 25000 to bring a new account into being.
pub fn call_gas(patch: &Patch, transfers_value: bool, new_account: bool) -> (r: u64)
    requires
        patch.gas_call <= 100_000,
    ensures
        r == patch.gas_call + (if transfers_value { 9000nat } else { 0 }) + (if new_account {
            25000nat
        } else {
            0
        }),
{
    let mut g = patch.gas_call;
    if transfers_value {
        g = g + 9000;
    }
    if new_account {
        g = g + 25000;
    }
    g
}

/// The gas a callee may receive when `after_gas` is left to the caller.
pub open spec fn callee_gas_cap(patch: Patch, after_gas: nat) -> nat {
    if patch.call_l64_after_gas {
        (after_gas - after_gas / 64) as nat
    } else {
        after_gas
    }
}

/// The gas limit of a callee that asked for `requested` when `after_gas` is
/// left: OutOfGas where the patch refuses a request above all the gas left;
/// otherwise the request, capped at what the patch lets a callee have.
pub fn callee_gas_limit(patch: &Patch, requested: &U256, after_gas: u64) -> (r: Result<
    u64,
    ExitError,
>)
    ensures
        patch.err_on_call_with_more_gas && requested.value() > after_gas ==> r == Err::<
            u64,
            ExitError,
        >(ExitError::OutOfGas),
        !(patch.err_on_call_with_more_gas && requested.value() > after_gas) && requested.value()
            <= callee_gas_cap(*patch, after_gas as nat) ==> r == Ok::<u64, ExitError>(
            requested.value() as u64,
        ),
        !(patch.err_on_call_with_more_gas && requested.value() > after_gas) && requested.value()
            > callee_gas_cap(*patch, after_gas as nat) ==> r == Ok::<u64, ExitError>(
            callee_gas_cap(*patch, after_gas as nat) as u64,
        ),
{
    if patch.err_on_call_with_more_gas && U256::from_u64(after_gas).lt(requested) {
        return Err(ExitError::OutOfGas);
    }
    let cap = if patch.call_l64_after_gas {
        after_gas - after_gas / 64
    } else {
        after_gas
    };
    let cap_word = U256::from_u64(cap);
    if !cap_word.lt(requested) {
        proof {
            vstd::arithmetic::div_mod::lemma_small_mod(requested.value(), crate::u256::limb_base());
        }
        Ok(requested.low_u64())
    } else {
        Ok(cap)
    }
}

/// SSTORE's cost for a slot that held `original` when the transaction began,
/// holds `current` and is set to `new`.
pub open spec fn sstore_cost(patch: Patch, original: nat, current: nat, new: nat) -> nat {
    match patch.sstore_rule {
        SstoreRule::Legacy => if current == 0 && new != 0 {
            patch.gas_sstore_set as nat
        } else {
            patch.gas_sstore_reset as nat
        },
        SstoreRule::NetMetered => if current == new {
            patch.gas_sload as nat
        } else if original == current {
            if original == 0 {
                patch.gas_sstore_set as nat
            } else {
                patch.gas_sstore_reset as nat
            }
        } else {
            patch.gas_sload as nat
        },
    }
}

/// SSTORE's change to the refund counter; negative where an earlier refund is taken back.
pub open spec fn sstore_refund(patch: Patch, original: nat, current: nat, new: nat) -> int {
    match patch.sstore_rule {
        SstoreRule::Legacy => if current != 0 && new == 0 {
            patch.refund_sstore_clears as int
        } else {
            0
        },
        SstoreRule::NetMetered => if current == new {
            0
        } else if original == current {
            if original != 0 && new == 0 {
                patch.refund_sstore_clears as int
            } else {
                0
            }
        } else {
            (if original != 0 && current == 0 {
                -(patch.refund_sstore_clears as int)
            } else {
                0
            }) + (if original != 0 && new == 0 {
                patch.refund_sstore_clears as int
            } else {
                0
            }) + (if original == new {
                if original == 0 {
                    patch.gas_sstore_set as int - patch.gas_sload as int
                } else {
                    patch.gas_sstore_reset as int - patch.gas_sload as int
                }
            } else {
                0
            })
        },
    }
}

/// SSTORE's cost and change to the refund counter.
pub fn sstore_gas(patch: &Patch, original: &U256, current: &U256, new: &U256) -> (r: (u64, i64))
    requires
        patch.gas_sload <= 100_000,
        patch.gas_sstore_set <= 100_000,
        patch.gas_sstore_reset <= 100_000,
        patch.refund_sstore_clears <= 100_000,
    ensures
        r.0 == sstore_cost(*patch, original.value(), current.value(), new.value()),
        r.1 == sstore_refund(*patch, original.value(), current.value(), new.value()),
{
    match patch.sstore_rule {
        SstoreRule::Legacy => {
            let cost = if current.is_zero() && !new.is_zero() {
                patch.gas_sstore_set
            } else {
                patch.gas_sstore_reset
            };
            let refund: i64 = if !current.is_zero() && new.is_zero() {
                patch.refund_sstore_clears as i64
            } else {
                0
            };
            (cost, refund)
        },
        SstoreRule::NetMetered => {
            let clears = patch.refund_sstore_clears as i64;
            if current.eq_word(new) {
                (patch.gas_sload, 0)
            } else if original.eq_word(current) {
                if original.is_zero() {
                    (patch.gas_sstore_set, 0)
                } else {
                    (patch.gas_sstore_reset, if new.is_zero() { clears } else { 0 })
                }
            } else {
                let mut refund: i64 = 0;
                if !original.is_zero() && current.is_zero() {
                    refund = refund - clears;
                }
                if !original.is_zero() && new.is_zero() {
                    refund = refund + clears;
                }
                if original.eq_word(new) {
                    if original.is_zero() {
                        refund = refund + (patch.gas_sstore_set as i64 - patch.gas_sload as i64);
                    } else {
                        refund = refund + (patch.gas_sstore_reset as i64 - patch.gas_sload as i64);
                    }
                }
                (patch.gas_sload, refund)
            }
        },
    }
}

/// What a run of SSTOREs of `writes` to one slot costs net of refunds, from `current`.
pub open spec fn sstore_net_of_run(patch: Patch, original: nat, current: nat, writes: Seq<nat>) -> int
    decreases writes.len(),
{
    if writes.len() == 0 {
        0
    } else {
        sstore_cost(patch, original, current, writes[0]) - sstore_refund(
            patch,
            original,
            current,
            writes[0],
        ) + sstore_net_of_run(patch, original, writes[0], writes.drop_first())
    }
}

/// Under net metering, a run of SSTOREs to one slot costs, net of refunds, what a
/// single SSTORE from the original value to the last value costs, plus one
/// SLOAD for each write before the last: intermediate values leave no trace.
pub proof fn lemma_sstore_run_net(patch: Patch, original: nat, writes: Seq<nat>)
    requires
        patch.sstore_rule == SstoreRule::NetMetered,
        writes.len() > 0,
    ensures
        sstore_net_of_run(patch, original, original, writes) == sstore_cost(
            patch,
            original,
            original,
            writes.last(),
        ) - sstore_refund(patch, original, original, writes.last()) + (writes.len() - 1)
            * patch.gas_sload,
    decreases writes.len(),
{
    let rest = writes.drop_first();
    if writes.len() > 1 {
        lemma_sstore_run_net_from(patch, original, writes[0], rest);
        assert(rest.last() == writes.last());
    } else {
        assert(sstore_net_of_run(patch, original, writes[0], rest) == 0);
        assert(writes.last() == writes[0]);
    }
}

/// The step of the run: from any current value, the rest of a run nets to one
/// write from the original value plus one SLOAD per write.
proof fn lemma_sstore_run_net_from(patch: Patch, original: nat, current: nat, writes: Seq<nat>)
    requires
        patch.sstore_rule == SstoreRule::NetMetered,
        writes.len() > 0,
    ensures
        sstore_cost(patch, original, original, current) - sstore_refund(
            patch,
            original,
            original,
            current,
        ) + sstore_net_of_run(patch, original, current, writes) == sstore_cost(
            patch,
            original,
            original,
            writes.last(),
        ) - sstore_refund(patch, original, original, writes.last()) + writes.len()
            * patch.gas_sload,
    decreases writes.len(),
{
    let rest = writes.drop_first();
    lemma_sstore_step(patch, original, current, writes[0]);
    assert(sstore_net_of_run(patch, original, current, writes) == sstore_cost(
        patch,
        original,
        current,
        writes[0],
    ) - sstore_refund(patch, original, current, writes[0]) + sstore_net_of_run(
        patch,
        original,
        writes[0],
        rest,
    ));
    if writes.len() == 1 {
        assert(sstore_net_of_run(patch, original, writes[0], rest) == 0);
        assert(writes.last() == writes[0]);
    }
    if writes.len() > 1 {
        lemma_sstore_run_net_from(patch, original, writes[0], rest);
        assert(rest.last() == writes.last());
    }
    let n = writes.len() as int;
    let g = patch.gas_sload as int;
    assert((n - 1) * g + g == n * g) by (nonlinear_arith);
}

/// Writing `current` and then `new` nets what writing `new` directly does, plus one SLOAD.
proof fn lemma_sstore_step(patch: Patch, original: nat, current: nat, new: nat)
    requires
        patch.sstore_rule == SstoreRule::NetMetered,
    ensures
        sstore_cost(patch, original, original, current) - sstore_refund(
            patch,
            original,
            original,
            current,
        ) + sstore_cost(patch, original, current, new) - sstore_refund(patch, original, current, new)
            == sstore_cost(patch, original, original, new) - sstore_refund(
            patch,
            original,
            original,
            new,
        ) + patch.gas_sload,
{
}

/// Intrinsic gas of a transaction: the base for a call or a creation and a cost per byte of input.
pub open spec fn intrinsic_cost(patch: Patch, is_create: bool, data: Seq<u8>) -> nat
    decreases data.len(),
{
    if data.len() == 0 {
        (if is_create {
            patch.gas_transaction_create as nat
        } else {
            patch.gas_transaction_call as nat
        })
    } else {
        intrinsic_cost(patch, is_create, data.drop_last()) + (if data.last() == 0 {
            patch.gas_transaction_zero_data as nat
        } else {
            patch.gas_transaction_non_zero_data as nat
        })
    }
}

/// The whole intrinsic gas: the base and the input bytes, plus, for a
/// creation, the cost per word of init code.
pub open spec fn intrinsic_total(patch: Patch, is_create: bool, data: Seq<u8>) -> nat {
    intrinsic_cost(patch, is_create, data) + (if is_create {
        (patch.gas_initcode_word * div_ceil(data.len() as nat, 32)) as nat
    } else {
        0nat
    })
}

/// The intrinsic gas of a transaction with input `data`, plus, for a creation,
/// the patch's cost per word of init code.
pub fn intrinsic_gas(patch: &Patch, is_create: bool, data: &[u8]) -> (r: u64)
    requires
        data@.len() <= 0xffff_ffff,
        patch.gas_transaction_call <= 100_000,
        patch.gas_transaction_create <= 100_000,
        patch.gas_transaction_zero_data <= 100,
        patch.gas_transaction_non_zero_data <= 100,
        patch.gas_initcode_word <= 100,
    ensures
        r == intrinsic_total(*patch, is_create, data@),
{
    let mut g: u64 = if is_create {
        patch.gas_transaction_create
    } else {
        patch.gas_transaction_call
    };
    let mut i: usize = 0;
    while i < data.len()
        invariant
            i <= data@.len() <= 0xffff_ffff,
            patch.gas_transaction_zero_data <= 100,
            patch.gas_transaction_non_zero_data <= 100,
            patch.gas_transaction_call <= 100_000,
            patch.gas_transaction_create <= 100_000,
            g == intrinsic_cost(*patch, is_create, data@.subrange(0, i as int)),
            g <= 100_000 + 100 * i,
        decreases data@.len() - i,
    {
        proof {
            assert(data@.subrange(0, i + 1).drop_last() == data@.subrange(0, i as int));
        }
        if data[i] == 0 {
            g = g + patch.gas_transaction_zero_data;
        } else {
            g = g + patch.gas_transaction_non_zero_data;
        }
        i = i + 1;
    }
    proof {
        assert(data@.subrange(0, data@.len() as int) == data@);
    }
    if is_create {
        let words = gas_div_ceil(data.len() as u64, 32);
        proof {
            assert(patch.gas_initcode_word * words <= 100 * 0x800_0000) by (nonlinear_arith)
                requires
                    patch.gas_initcode_word <= 100,
                    words <= 0x800_0000,
            ;
        }
        g = g + patch.gas_initcode_word * words;
    }
    g
}

/// The refund granted at the end of a transaction: the counter, capped at the
/// gas used divided by the patch's quotient.
pub open spec fn capped_refund(patch: Patch, used: nat, counter: nat) -> nat {
    if counter < used / patch.max_refund_quotient as nat {
        counter
    } else {
        used / patch.max_refund_quotient as nat
    }
}

/// Settles the gas of a finished transaction: returns the gas finally used and
/// the gas returned to the sender, which add up to the gas limit.
pub fn settle_gas(patch: &Patch, gas_limit: u64, used: u64, refund_counter: u64) -> (r: (u64, u64))
    requires
        patch.wf(),
        used <= gas_limit,
    ensures
        r.1 == gas_limit - used + capped_refund(*patch, used as nat, refund_counter as nat),
        r.0 == used - capped_refund(*patch, used as nat, refund_counter as nat),
        r.0 + r.1 == gas_limit,
{
    let cap = used / patch.max_refund_quotient;
    let refund = if refund_counter < cap {
        refund_counter
    } else {
        cap
    };
    (used - refund, gas_limit - used + refund)
}

/// The gas a creation pays to store `len` bytes of code.
pub fn code_deposit_gas(patch: &Patch, len: usize) -> (r: u64)
    requires
        patch.gas_code_deposit_byte <= 1000,
        len <= 0xffff_ffff,
    ensures
        r == patch.gas_code_deposit_byte * len,
{
    proof {
        assert(patch.gas_code_deposit_byte * len <= 1000 * 0xffff_ffff) by (nonlinear_arith)
            requires
                patch.gas_code_deposit_byte <= 1000,
                len <= 0xffff_ffff,
        ;
    }
    patch.gas_code_deposit_byte * len as u64
}

} // verus!
