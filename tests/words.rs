use sputnikvm::u256::U256;

fn w(v: u64) -> U256 {
    U256::from_u64(v)
}

fn bytes_of(x: &U256) -> Vec<u8> {
    x.to_be_bytes()
}

#[test]
fn add_wraps_at_two_to_the_256() {
    let (sum, over) = U256::max_value().overflowing_add(U256::one());
    assert!(over);
    assert!(sum.is_zero());
    let (sum, over) = w(3).overflowing_add(w(4));
    assert!(!over);
    assert!(sum.eq_word(&w(7)));
}

#[test]
fn add_carries_across_limbs() {
    let (sum, over) = w(u64::MAX).overflowing_add(w(1));
    assert!(!over);
    let mut expected = vec![0u8; 32];
    expected[23] = 1;
    assert_eq!(bytes_of(&sum), expected);
}

#[test]
fn sub_underflows_below_zero() {
    let (diff, under) = w(3).underflowing_sub(w(5));
    assert!(under);
    let (back, _) = diff.overflowing_add(w(2));
    assert!(back.is_zero());
    let (diff, under) = w(10).underflowing_sub(w(4));
    assert!(!under);
    assert!(diff.eq_word(&w(6)));
}

#[test]
fn mul_is_exact_and_reports_overflow() {
    let (p, over) = w(u64::MAX).overflowing_mul(w(u64::MAX));
    assert!(!over);
    let mut expected = vec![0u8; 32];
    // (2^64 - 1)^2 = 2^128 - 2^65 + 1
    expected[16..24].copy_from_slice(&[0xff, 0xff, 0xff, 0xff, 0xff, 0xff, 0xff, 0xfe]);
    expected[31] = 1;
    assert_eq!(bytes_of(&p), expected);
    let (_, over) = U256::max_value().overflowing_mul(w(2));
    assert!(over);
    let (p, over) = U256::max_value().overflowing_mul(U256::max_value());
    assert!(over);
    assert!(p.eq_word(&U256::one()));
}

#[test]
fn bits_and_log2floor() {
    assert_eq!(U256::zero().bits(), 0);
    assert_eq!(w(1).bits(), 1);
    assert_eq!(w(255).bits(), 8);
    assert_eq!(w(256).bits(), 9);
    assert_eq!(U256::max_value().bits(), 256);
    assert_eq!(w(1).log2floor(), 0);
    assert_eq!(w(1024).log2floor(), 10);
    assert_eq!(U256::max_value().log2floor(), 255);
    let (big, _) = w(1u64 << 63).overflowing_mul(w(4));
    assert_eq!(big.bits(), 66);
    assert_eq!(big.log2floor(), 65);
}

#[test]
fn byte_round_trip() {
    let mut raw = vec![0u8; 32];
    for (i, b) in raw.iter_mut().enumerate() {
        *b = (i as u8).wrapping_mul(37).wrapping_add(5);
    }
    let x = U256::from_be_bytes(&raw);
    assert_eq!(bytes_of(&x), raw);
    let short = U256::from_be_bytes(&[0x01, 0x00]);
    assert!(short.eq_word(&w(256)));
    assert!(U256::from_be_bytes(&[]).is_zero());
}

#[test]
fn comparisons_and_constants() {
    assert!(w(3).lt(&w(4)));
    assert!(!w(4).lt(&w(4)));
    assert!(w(4).lt(&U256::max_value()));
    assert!(U256::min_value().is_zero());
    assert!(U256::one().eq_word(&w(1)));
    assert!(w(5).fits_u64());
    assert!(!U256::max_value().fits_u64());
    assert_eq!(U256::max_value().low_u64(), u64::MAX);
}

#[test]
fn division_and_remainder() {
    assert!(w(100).div(w(7)).eq_word(&w(14)));
    assert!(w(100).rem(w(7)).eq_word(&w(2)));
    assert!(w(5).div(U256::zero()).is_zero());
    assert!(w(5).rem(U256::zero()).is_zero());
    assert!(w(3).div(w(5)).is_zero());
    let q = U256::max_value().div(w(2));
    let (back, _) = q.overflowing_mul(w(2));
    let (back, _) = back.overflowing_add(U256::max_value().rem(w(2)));
    assert!(back.eq_word(&U256::max_value()));
    assert!(U256::max_value().div(U256::max_value()).eq_word(&U256::one()));
}

#[test]
fn bitwise_operations() {
    assert!(w(0b1100).bitand(w(0b1010)).eq_word(&w(0b1000)));
    assert!(w(0b1100).bitor(w(0b1010)).eq_word(&w(0b1110)));
    assert!(w(0b1100).bitxor(w(0b1010)).eq_word(&w(0b0110)));
    assert!(U256::zero().not().eq_word(&U256::max_value()));
    let (minus_one, _) = U256::zero().underflowing_sub(w(1));
    assert!(w(1).not().eq_word(&minus_one.underflowing_sub(w(1)).0));
}

#[test]
fn signed_comparison() {
    let (minus_one, _) = U256::zero().underflowing_sub(w(1));
    assert!(minus_one.slt(&w(0)));
    assert!(!w(0).slt(&minus_one));
    assert!(w(1).slt(&w(2)));
    let (minus_two, _) = U256::zero().underflowing_sub(w(2));
    assert!(minus_two.slt(&minus_one));
}

#[test]
fn signed_division_and_modulo() {
    let neg = |v: u64| U256::zero().underflowing_sub(w(v)).0;
    assert!(neg(7).sdiv(w(2)).eq_word(&neg(3)));
    assert!(w(7).sdiv(neg(2)).eq_word(&neg(3)));
    assert!(neg(7).sdiv(neg(2)).eq_word(&w(3)));
    assert!(neg(7).smod(w(2)).eq_word(&neg(1)));
    assert!(w(7).smod(neg(2)).eq_word(&w(1)));
    assert!(w(7).sdiv(U256::zero()).is_zero());
    // The most negative word divided by -1 stays itself.
    let (min, _) = w(2).exp(w(255)).overflowing_mul(w(1));
    assert!(min.sdiv(neg(1)).eq_word(&min));
}

#[test]
fn addmod_keeps_the_carry() {
    assert!(w(10).addmod(w(10), w(8)).eq_word(&w(4)));
    let max = U256::max_value();
    // (2^256 - 1) * 2 mod 10 = (2^257 - 2) mod 10 = 0.
    assert!(max.addmod(max, w(10)).is_zero());
    assert!(max.addmod(w(2), w(10)).eq_word(&w(7)));
    assert!(w(1).addmod(w(2), U256::zero()).is_zero());
}

#[test]
fn signextend_copies_the_sign_bit_up() {
    // 0xff extended from one byte is -1.
    let (minus_one, _) = U256::zero().underflowing_sub(w(1));
    assert!(w(0xff).signextend(w(0)).eq_word(&minus_one));
    assert!(w(0x7f).signextend(w(0)).eq_word(&w(0x7f)));
    // Bits above the extended byte are dropped.
    assert!(w(0x1234).signextend(w(0)).eq_word(&w(0x34)));
    assert!(w(0x8000).signextend(w(1)).eq_word(&minus_one.underflowing_sub(w(0x7fff)).0));
    assert!(w(0x8000).signextend(w(31)).eq_word(&w(0x8000)));
}

#[test]
fn mulmod_uses_the_full_product() {
    assert!(w(10).mulmod(w(10), w(7)).eq_word(&w(2)));
    let max = U256::max_value();
    // (2^256 - 1)^2 mod 12: 2^256 = 4 (mod 12), so (4 - 1)^2 = 9.
    assert!(max.mulmod(max, w(12)).eq_word(&w(9)));
    assert!(w(3).mulmod(w(4), U256::zero()).is_zero());
}

#[test]
fn shifts() {
    assert!(w(1).shl(8).eq_word(&w(256)));
    assert!(w(256).shr(8).eq_word(&w(1)));
    assert!(w(1).shl(255).shl(1).is_zero());
    assert!(U256::max_value().shr(255).eq_word(&w(1)));
    assert!(w(5).shl(256).is_zero());
    assert!(w(5).shr(300).is_zero());
}
