use sputnikvm::errors::ExitError;
use sputnikvm::precompiled::{
    gas_and_step, precompile_at, ECRECPrecompiled, IDPrecompiled, Precompile, RIP160Precompiled, SHA256Precompiled,
};
use sputnikvm::u256::U256;

fn hex(s: &str) -> Vec<u8> {
    (0..s.len()).step_by(2).map(|i| u8::from_str_radix(&s[i..i + 2], 16).unwrap()).collect()
}

#[test]
fn identity_returns_its_input() {
    let id = IDPrecompiled;
    assert_eq!(id.step(&[1, 2, 3]), vec![1, 2, 3]);
    assert_eq!(id.gas(&[]), 15);
    assert_eq!(id.gas(&[0; 33]), 21);
}

#[test]
fn sha256_of_the_empty_string() {
    let p = SHA256Precompiled;
    assert_eq!(p.step(&[]), hex("e3b0c44298fc1c149afbf4c8996fb92427ae41e4649b934ca495991b7852b855"));
    assert_eq!(p.gas(&[0; 32]), 72);
}

#[test]
fn ripemd160_is_left_padded_to_a_word() {
    let p = RIP160Precompiled;
    let mut expected = vec![0u8; 12];
    expected.extend(hex("9c1185a5c5e9fc54612808977ee8f548b2258d31"));
    assert_eq!(p.step(&[]), expected);
    assert_eq!(p.gas(&[1]), 720);
}

#[test]
fn ecrecover_rejects_a_bad_recovery_id() {
    let p = ECRECPrecompiled;
    let mut input = vec![0u8; 128];
    input[63] = 29;
    assert_eq!(p.step(&input), Vec::<u8>::new());
    assert_eq!(p.gas(&input), 3000);
}

#[test]
fn ecrecover_finds_the_signer() {
    let parts = [
        "38d18acb67d25c8bb9942764b62f18e17054f66a817bd4295423adf9ed98873e",
        "000000000000000000000000000000000000000000000000000000000000001b",
        "38d18acb67d25c8bb9942764b62f18e17054f66a817bd4295423adf9ed98873e",
        "789d1dd423d25f0772d2748d60f7e4b81bb14d086eba8e8e8efb6dcff8a4ae02",
    ];
    let input = hex(&parts.join(""));
    let out = ECRECPrecompiled.step(&input);
    assert_eq!(out, hex("000000000000000000000000ceaccac640adf55b2028469bd36ba501f28b699d"));
}

#[test]
fn dispatch_by_address_and_gas_limit() {
    assert_eq!(precompile_at(&U256::from_u64(2)), Some(Precompile::Sha256));
    assert_eq!(precompile_at(&U256::from_u64(5)), None);
    assert_eq!(precompile_at(&U256::zero()), None);
    assert_eq!(gas_and_step(Precompile::Identity, &[9, 9], 14), Err(ExitError::OutOfGas));
    assert_eq!(gas_and_step(Precompile::Identity, &[9, 9], 18), Ok((18, vec![9, 9])));
}
