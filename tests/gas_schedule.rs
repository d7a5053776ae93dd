use sputnikvm::gas::{
    call_gas, callee_gas_limit, code_deposit_gas, copy_gas, exp_gas, gas_div_ceil, intrinsic_gas, log_gas,
    memory_expansion_gas, memory_gas, settle_gas, sha3_gas, sstore_gas,
};
use sputnikvm::errors::ExitError;
use sputnikvm::patch::Patch;
use sputnikvm::u256::U256;

fn w(v: u64) -> U256 {
    U256::from_u64(v)
}

#[test]
fn memory_cost_formula() {
    assert_eq!(memory_gas(0), 0);
    assert_eq!(memory_gas(1), 3);
    assert_eq!(memory_gas(32), 96 + 2);
    assert_eq!(memory_gas(1024), 3072 + 2048);
    assert_eq!(memory_expansion_gas(1, 1), 0);
    assert_eq!(memory_expansion_gas(2, 1), 0);
    assert_eq!(memory_expansion_gas(1, 32), 98 - 3);
}

#[test]
fn per_word_and_per_byte_costs() {
    assert_eq!(gas_div_ceil(0, 32), 0);
    assert_eq!(gas_div_ceil(33, 32), 2);
    assert_eq!(sha3_gas(0), 30);
    assert_eq!(sha3_gas(33), 42);
    assert_eq!(log_gas(0, 0), 375);
    assert_eq!(log_gas(2, 10), 375 + 750 + 80);
    assert_eq!(copy_gas(64), 9);
    let p = Patch::istanbul();
    assert_eq!(exp_gas(&p, &w(0)), 10);
    assert_eq!(exp_gas(&p, &w(255)), 60);
    assert_eq!(exp_gas(&p, &w(256)), 110);
    assert_eq!(code_deposit_gas(&p, 10), 2000);
}

#[test]
fn call_costs_and_the_63_64_rule() {
    let p = Patch::istanbul();
    assert_eq!(call_gas(&p, false, false), 700);
    assert_eq!(call_gas(&p, true, false), 9700);
    assert_eq!(call_gas(&p, true, true), 34700);
    assert_eq!(callee_gas_limit(&p, &w(100), 6400), Ok(100));
    assert_eq!(callee_gas_limit(&p, &w(10_000), 6400), Ok(6300));
    let f = Patch::frontier();
    assert_eq!(callee_gas_limit(&f, &w(10_000), 6400), Err(ExitError::OutOfGas));
    assert_eq!(callee_gas_limit(&f, &w(6400), 6400), Ok(6400));
    // Refusing only requests above all the gas left; the 63/64 rule still caps.
    let mut both = Patch::istanbul();
    both.err_on_call_with_more_gas = true;
    assert_eq!(callee_gas_limit(&both, &w(6400), 6400), Ok(6300));
    assert_eq!(callee_gas_limit(&both, &w(6401), 6400), Err(ExitError::OutOfGas));
}

#[test]
fn legacy_sstore_pricing() {
    let p = Patch::frontier();
    assert_eq!(sstore_gas(&p, &w(0), &w(0), &w(1)), (20000, 0));
    assert_eq!(sstore_gas(&p, &w(1), &w(1), &w(2)), (5000, 0));
    assert_eq!(sstore_gas(&p, &w(1), &w(1), &w(0)), (5000, 15000));
}

#[test]
fn net_metered_sstore_pricing() {
    let p = Patch::istanbul();
    // No change: an SLOAD's worth.
    assert_eq!(sstore_gas(&p, &w(5), &w(5), &w(5)), (800, 0));
    // First change of a fresh slot.
    assert_eq!(sstore_gas(&p, &w(0), &w(0), &w(1)), (20000, 0));
    // First change of a set slot, to zero.
    assert_eq!(sstore_gas(&p, &w(5), &w(5), &w(0)), (5000, 15000));
    // Dirty slot set back to its original zero.
    assert_eq!(sstore_gas(&p, &w(0), &w(1), &w(0)), (800, 19200));
    // Dirty slot that had been cleared, set again.
    assert_eq!(sstore_gas(&p, &w(5), &w(0), &w(7)), (800, -15000));
}

#[test]
fn net_metered_run_depends_only_on_first_and_last() {
    // 0 -> 1 -> 0 nets two SLOADs; 5 -> 0 -> 5 too.
    let p = Patch::istanbul();
    let (c1, r1) = sstore_gas(&p, &w(0), &w(0), &w(1));
    let (c2, r2) = sstore_gas(&p, &w(0), &w(1), &w(0));
    assert_eq!(c1 as i64 + c2 as i64 - r1 - r2, 1600);
    let (c1, r1) = sstore_gas(&p, &w(5), &w(5), &w(0));
    let (c2, r2) = sstore_gas(&p, &w(5), &w(0), &w(5));
    assert_eq!(c1 as i64 + c2 as i64 - r1 - r2, 1600);
}

#[test]
fn intrinsic_gas_counts_zero_and_nonzero_bytes() {
    let p = Patch::istanbul();
    assert_eq!(intrinsic_gas(&p, false, &[]), 21000);
    assert_eq!(intrinsic_gas(&p, false, &[0, 1, 2, 0]), 21000 + 8 + 32);
    assert_eq!(intrinsic_gas(&p, true, &[]), 53000);
    let f = Patch::frontier();
    assert_eq!(intrinsic_gas(&f, false, &[7]), 21068);
}

#[test]
fn settlement_adds_up_to_the_gas_limit() {
    let p = Patch::london();
    // Refund capped at a fifth of the gas used.
    assert_eq!(settle_gas(&p, 100_000, 50_000, 40_000), (40_000, 60_000));
    assert_eq!(settle_gas(&p, 100_000, 50_000, 1_000), (49_000, 51_000));
    let i = Patch::istanbul();
    assert_eq!(settle_gas(&i, 100_000, 50_000, 40_000), (25_000, 75_000));
    let (used, returned) = settle_gas(&i, 30_000, 30_000, 0);
    assert_eq!(used + returned, 30_000);
}
