//! 256-bit unsigned words held as four 64-bit limbs, least significant first.
use vstd::prelude::*;
use vstd::arithmetic::div_mod::lemma_fundamental_div_mod_converse_mod;
use vstd::arithmetic::power2::{pow2, lemma2_to64, lemma_pow2_adds, lemma_pow2_unfold, lemma_pow2_pos};
use vstd::std_specs::bits::u64_leading_zeros;
use vstd::arithmetic::power::{pow, lemma_pow_mod_noop, lemma_pow_multiplies, lemma_pow_adds, lemma_pow1};
use vstd::arithmetic::div_mod::lemma_mul_mod_noop;

verus! {

/// 2^64, the base of one limb.
pub open spec fn limb_base() -> nat {
    18446744073709551616
}

/// 2^256, the number of distinct words.
pub open spec fn word_modulus() -> nat {
    18446744073709551616 * (18446744073709551616 * (18446744073709551616 * 18446744073709551616))
}

/// A value reduced to a word.
pub open spec fn wrap(x: nat) -> nat {
    x % word_modulus()
}

/// `n` is the number of significant bits of `v`: the least `n` with `v < 2^n`.
pub open spec fn is_bit_length(v: nat, n: nat) -> bool {
    v < pow2(n) && (n == 0 || pow2((n - 1) as nat) <= v)
}

/// 256 to the power `n`.
pub open spec fn pow256(n: nat) -> nat
    decreases n,
{
    if n == 0 {
        1
    } else {
        256 * pow256((n - 1) as nat)
    }
}

/// The number that a big-endian byte string stands for.
pub open spec fn be_value(s: Seq<u8>) -> nat
    decreases s.len(),
{
    if s.len() == 0 {
        0
    } else {
        be_value(s.drop_last()) * 256 + s.last() as nat
    }
}

/// A 256-bit unsigned integer.
#[derive(Clone, Copy, PartialEq, Eq, Debug, Structural)]
pub struct U256 {
    l0: u64,
    l1: u64,
    l2: u64,
    l3: u64,
}

impl U256 {
    /// The number this word stands for.
    pub closed spec fn value(self) -> nat {
        self.l0 as nat + 18446744073709551616 * (self.l1 as nat + 18446744073709551616 * (
        self.l2 as nat + 18446744073709551616 * self.l3 as nat))
    }

    pub proof fn lemma_value_bound(self)
        ensures
            self.value() < word_modulus(),
    {
    }

    /// Every number below 2^256 is the value of exactly one word.
    pub proof fn lemma_value_injective(a: U256, b: U256)
        ensures
            a.value() == b.value() <==> a == b,
    {
        if a.value() == b.value() {
            assert(a.l3 == b.l3) by {
                if a.l3 < b.l3 {
                    assert(a.value() < b.value());
                } else if a.l3 > b.l3 {
                    assert(a.value() > b.value());
                }
            }
            assert(a.l2 == b.l2) by {
                if a.l2 < b.l2 {
                    assert(a.value() < b.value());
                } else if a.l2 > b.l2 {
                    assert(a.value() > b.value());
                }
            }
            assert(a.l1 == b.l1) by {
                if a.l1 < b.l1 {
                    assert(a.value() < b.value());
                } else if a.l1 > b.l1 {
                    assert(a.value() > b.value());
                }
            }
        }
    }

    pub fn zero() -> (r: U256)
        ensures
            r.value() == 0,
    {
        U256 { l0: 0, l1: 0, l2: 0, l3: 0 }
    }

    pub fn one() -> (r: U256)
        ensures
            r.value() == 1,
    {
        U256 { l0: 1, l1: 0, l2: 0, l3: 0 }
    }

    pub fn max_value() -> (r: U256)
        ensures
            r.value() == word_modulus() - 1,
    {
        U256 { l0: u64::MAX, l1: u64::MAX, l2: u64::MAX, l3: u64::MAX }
    }

    pub fn min_value() -> (r: U256)
        ensures
            r.value() == 0,
    {
        U256::zero()
    }

    pub fn from_u64(v: u64) -> (r: U256)
        ensures
            r.value() == v,
    {
        U256 { l0: v, l1: 0, l2: 0, l3: 0 }
    }

    /// Whether the word fits in 64 bits.
    pub fn fits_u64(&self) -> (r: bool)
        ensures
            r == (self.value() < limb_base()),
    {
        self.l1 == 0 && self.l2 == 0 && self.l3 == 0
    }

    /// The word as a `u64`, for a word below 2^64.
    pub fn as_u64(&self) -> (r: u64)
        requires
            self.value() < limb_base(),
        ensures
            r == self.value(),
    {
        proof {
            vstd::arithmetic::div_mod::lemma_small_mod(self.value(), limb_base());
        }
        self.low_u64()
    }

    /// The low 64 bits of the word.
    pub fn low_u64(&self) -> (r: u64)
        ensures
            r == self.value() % limb_base(),
    {
        proof {
            lemma_fundamental_div_mod_converse_mod(
                self.value() as int,
                limb_base() as int,
                (self.l1 as nat + 18446744073709551616 * (self.l2 as nat + 18446744073709551616
                    * self.l3 as nat)) as int,
                self.l0 as int,
            );
        }
        self.l0
    }

    pub fn is_zero(&self) -> (r: bool)
        ensures
            r == (self.value() == 0),
    {
        self.l0 == 0 && self.l1 == 0 && self.l2 == 0 && self.l3 == 0
    }

    pub fn eq_word(&self, other: &U256) -> (r: bool)
        ensures
            r == (self.value() == other.value()),
    {
        proof {
            U256::lemma_value_injective(*self, *other);
        }
        self.l0 == other.l0 && self.l1 == other.l1 && self.l2 == other.l2 && self.l3 == other.l3
    }

    pub fn lt(&self, other: &U256) -> (r: bool)
        ensures
            r == (self.value() < other.value()),
    {
        if self.l3 != other.l3 {
            self.l3 < other.l3
        } else if self.l2 != other.l2 {
            self.l2 < other.l2
        } else if self.l1 != other.l1 {
            self.l1 < other.l1
        } else {
            self.l0 < other.l0
        }
    }

    /// The number of significant bits.
    pub fn bits(&self) -> (r: usize)
        ensures
            r <= 256,
            is_bit_length(self.value(), r as nat),
    {
        proof {
            lemma_powers_of_limb_base();
            lemma_value_split(self.l0 as int, self.l1 as int, self.l2 as int, self.l3 as int,
                limb_base() as int);
        }
        if self.l3 != 0 {
            let k = 64 - self.l3.leading_zeros() as usize;
            proof {
                lemma_limb_bit_length(self.l3);
                lemma_top_limb(self.l0 as int + limb_base() * (self.l1 as int + limb_base() * self.l2 as int),
                    self.l3 as int, 192, k as nat);
            }
            192 + k
        } else if self.l2 != 0 {
            let k = 64 - self.l2.leading_zeros() as usize;
            proof {
                lemma_limb_bit_length(self.l2);
                lemma_top_limb(self.l0 as int + limb_base() * self.l1 as int, self.l2 as int, 128, k as nat);
            }
            128 + k
        } else if self.l1 != 0 {
            let k = 64 - self.l1.leading_zeros() as usize;
            proof {
                lemma_limb_bit_length(self.l1);
                lemma_top_limb(self.l0 as int, self.l1 as int, 64, k as nat);
            }
            64 + k
        } else {
            proof {
                lemma_limb_bit_length(self.l0);
            }
            64 - self.l0.leading_zeros() as usize
        }
    }

    /// The floor of the base-2 logarithm of a nonzero word.
    pub fn log2floor(&self) -> (r: usize)
        requires
            self.value() != 0,
        ensures
            r < 256,
            pow2(r as nat) <= self.value() < pow2(r as nat + 1),
    {
        let b = self.bits();
        proof {
            lemma2_to64();
        }
        b - 1
    }

    /// The 32-byte big-endian encoding.
    pub fn to_be_bytes(&self) -> (r: Vec<u8>)
        ensures
            r@.len() == 32,
            be_value(r@) == self.value(),
    {
        let mut out = limb_to_be_bytes(self.l3);
        let mut b2 = limb_to_be_bytes(self.l2);
        let mut b1 = limb_to_be_bytes(self.l1);
        let mut b0 = limb_to_be_bytes(self.l0);
        let ghost s3 = out@;
        let ghost (v2, v1, v0) = (b2@, b1@, b0@);
        out.append(&mut b2);
        let ghost s32 = out@;
        out.append(&mut b1);
        let ghost s321 = out@;
        out.append(&mut b0);
        proof {
            lemma_pow256_limb_base();
            lemma_be_concat(s3, v2);
            lemma_be_concat(s32, v1);
            lemma_be_concat(s321, v0);
            let w = limb_base() as int;
            let (x0, x1, x2, x3) = (self.l0 as int, self.l1 as int, self.l2 as int, self.l3 as int);
            assert(((x3 * w + x2) * w + x1) * w + x0 == x0 + w * (x1 + w * (x2 + w * x3)))
                by (nonlinear_arith);
        }
        out
    }

    /// The word that a big-endian string of at most 32 bytes stands for.
    pub fn from_be_bytes(s: &[u8]) -> (r: U256)
        requires
            s@.len() <= 32,
        ensures
            r.value() == be_value(s@),
    {
        let mut acc = U256::zero();
        let radix = U256::from_u64(256);
        let mut i: usize = 0;
        while i < s.len()
            invariant
                i <= s@.len() <= 32,
                radix.value() == 256,
                acc.value() == be_value(s@.subrange(0, i as int)),
            decreases s@.len() - i,
        {
            proof {
                let pre = s@.subrange(0, i as int);
                let next = s@.subrange(0, i + 1);
                assert(next.drop_last() == pre);
                lemma_be_bound(next);
                lemma_pow256_monotone((i + 1) as nat, 32);
                lemma_pow256_limb_base();
                vstd::arithmetic::div_mod::lemma_small_mod(acc.value() * 256, word_modulus());
                vstd::arithmetic::div_mod::lemma_small_mod(be_value(next), word_modulus());
            }
            let (shifted, _) = acc.overflowing_mul(radix);
            let (sum, _) = shifted.overflowing_add(U256::from_u64(s[i] as u64));
            acc = sum;
            i = i + 1;
        }
        proof {
            assert(s@.subrange(0, s@.len() as int) == s@);
        }
        acc
    }

    /// `self` to the power `exponent`, modulo 2^256.
    pub fn exp(self, exponent: U256) -> (r: U256)
        ensures
            r.value() == pow(self.value() as int, exponent.value()) % word_modulus() as int,
    {
        let two = U256::from_u64(2);
        let mut result = U256::one();
        let mut base = self;
        let mut e = exponent;
        let ghost m = word_modulus() as int;
        proof {
            vstd::arithmetic::power::lemma_pow0(self.value() as int);
            vstd::arithmetic::div_mod::lemma_small_mod(self.value(), word_modulus());
            assert(1 * pow(self.value() as int, exponent.value()) == pow(self.value() as int, exponent.value()));
        }
        while !e.is_zero()
            invariant
                two.value() == 2,
                m == word_modulus(),
                (result.value() * pow(base.value() as int, e.value())) % m == pow(self.value() as int, exponent.value()) % m,
            decreases e.value(),
        {
            let half = e.div(two);
            let bit = e.rem(two);
            let ghost (r0, b0, h) = (result.value() as int, base.value() as int, half.value());
            let ghost bitv = bit.value();
            if !bit.is_zero() {
                let (p, _) = result.overflowing_mul(base);
                result = p;
            }
            let (sq, _) = base.overflowing_mul(base);
            base = sq;
            proof {
                vstd::arithmetic::div_mod::lemma_fundamental_div_mod(e.value() as int, 2);
                result.lemma_value_bound();
                vstd::arithmetic::div_mod::lemma_small_mod(r0 as nat, word_modulus());
                vstd::arithmetic::power::lemma_pow0(b0);
                vstd::arithmetic::power::lemma_pow1(b0);
                assert(result.value() == (r0 * pow(b0, bitv)) % m);
                lemma_exp_step(r0, b0, h, bitv, m);
                assert(e.value() == 2 * h + bitv);
            }
            e = half;
        }
        proof {
            vstd::arithmetic::power::lemma_pow0(base.value() as int);
            result.lemma_value_bound();
            vstd::arithmetic::div_mod::lemma_small_mod(result.value(), word_modulus());
        }
        result
    }

    /// The quotient, rounded down; zero for a zero divisor.
    pub fn div(self, other: U256) -> (r: U256)
        ensures
            other.value() == 0 ==> r.value() == 0,
            other.value() != 0 ==> r.value() == self.value() / other.value(),
    {
        if other.is_zero() {
            return U256::zero();
        }
        let pows = powers_of_two();
        let ghost a = self.value();
        let ghost b = other.value();
        proof {
            lemma_pow2_256();
            self.lemma_value_bound();
            assert(a < pow2(256) * b) by (nonlinear_arith)
                requires
                    a < pow2(256),
                    b >= 1,
            ;
        }
        let mut q = U256::zero();
        let mut i: usize = 256;
        while i > 0
            invariant
                i <= 256,
                pows@.len() == 256,
                forall|k: int| 0 <= k < 256 ==> (#[trigger] pows@[k]).value() == pow2(k as nat),
                a == self.value(),
                b == other.value(),
                b >= 1,
                q.value() * b <= a,
                a < (q.value() + pow2(i as nat)) * b,
            decreases i,
        {
            i = i - 1;
            let p = pows[i];
            let (cand, over) = q.overflowing_add(p);
            proof {
                lemma_pow2_unfold((i + 1) as nat);
            }
            if !over {
                let (prod, prod_over) = cand.overflowing_mul(other);
                if !prod_over && !self.lt(&prod) {
                    proof {
                        vstd::arithmetic::div_mod::lemma_small_mod(cand.value() * b, word_modulus());
                        assert((q.value() + pow2((i + 1) as nat)) * b == (cand.value() + pow2(i as nat)) * b)
                            by (nonlinear_arith)
                            requires
                                cand.value() == q.value() + pow2(i as nat),
                                pow2((i + 1) as nat) == 2 * pow2(i as nat),
                        ;
                    }
                    q = cand;
                } else {
                    proof {
                        if !prod_over {
                            vstd::arithmetic::div_mod::lemma_small_mod(cand.value() * b, word_modulus());
                        } else {
                            self.lemma_value_bound();
                        }
                    }
                }
            } else {
                proof {
                    self.lemma_value_bound();
                    assert(q.value() + pow2(i as nat) <= (q.value() + pow2(i as nat)) * b) by (nonlinear_arith)
                        requires
                            b >= 1,
                    ;
                }
            }
        }
        proof {
            lemma2_to64();
            assert(a < q.value() * b + b) by (nonlinear_arith)
                requires
                    a < (q.value() + 1) * b,
            ;
            vstd::arithmetic::div_mod::lemma_fundamental_div_mod_converse_div(
                a as int,
                b as int,
                q.value() as int,
                (a - q.value() * b) as int,
            );
        }
        q
    }

    /// The remainder of the division; zero for a zero divisor.
    pub fn rem(self, other: U256) -> (r: U256)
        ensures
            other.value() == 0 ==> r.value() == 0,
            other.value() != 0 ==> r.value() == self.value() % other.value(),
    {
        if other.is_zero() {
            return U256::zero();
        }
        let q = self.div(other);
        let (prod, _) = q.overflowing_mul(other);
        proof {
            let a = self.value() as int;
            let b = other.value() as int;
            vstd::arithmetic::div_mod::lemma_fundamental_div_mod(a, b);
            vstd::arithmetic::div_mod::lemma_remainder(a, b);
            let qq = a / b;
            let rr = a % b;
            let qv = q.value() as int;
            assert(qv * b <= a) by (nonlinear_arith)
                requires
                    a == b * qq + rr,
                    qv == qq,
                    rr >= 0,
            ;
            self.lemma_value_bound();
            vstd::arithmetic::div_mod::lemma_small_mod(q.value() * other.value(), word_modulus());
        }
        let (r, _) = self.underflowing_sub(prod);
        proof {
            let a = self.value() as int;
            let b = other.value() as int;
            let qq = a / b;
            let rr = a % b;
            let qv = q.value() as int;
            assert(rr == a - qv * b) by (nonlinear_arith)
                requires
                    a == b * qq + rr,
                    qv == qq,
            ;
        }
        r
    }

    /// The `i`-th 64-bit limb, least significant first.
    pub closed spec fn limb(self, i: int) -> u64 {
        if i == 0 {
            self.l0
        } else if i == 1 {
            self.l1
        } else if i == 2 {
            self.l2
        } else {
            self.l3
        }
    }

    /// Bitwise AND, limb by limb.
    pub fn bitand(self, other: U256) -> (r: U256)
        ensures
            forall|i: int| 0 <= i < 4 ==> #[trigger] r.limb(i) == self.limb(i) & other.limb(i),
    {
        U256 { l0: self.l0 & other.l0, l1: self.l1 & other.l1, l2: self.l2 & other.l2, l3: self.l3 & other.l3 }
    }

    /// Bitwise OR, limb by limb.
    pub fn bitor(self, other: U256) -> (r: U256)
        ensures
            forall|i: int| 0 <= i < 4 ==> #[trigger] r.limb(i) == self.limb(i) | other.limb(i),
    {
        U256 { l0: self.l0 | other.l0, l1: self.l1 | other.l1, l2: self.l2 | other.l2, l3: self.l3 | other.l3 }
    }

    /// Bitwise XOR, limb by limb.
    pub fn bitxor(self, other: U256) -> (r: U256)
        ensures
            forall|i: int| 0 <= i < 4 ==> #[trigger] r.limb(i) == self.limb(i) ^ other.limb(i),
    {
        U256 { l0: self.l0 ^ other.l0, l1: self.l1 ^ other.l1, l2: self.l2 ^ other.l2, l3: self.l3 ^ other.l3 }
    }

    /// Bitwise NOT: `2^256 - 1 - x`.
    pub fn not(self) -> (r: U256)
        ensures
            r.value() == word_modulus() - 1 - self.value(),
            forall|i: int| 0 <= i < 4 ==> #[trigger] r.limb(i) == !self.limb(i),
    {
        let r = U256 { l0: !self.l0, l1: !self.l1, l2: !self.l2, l3: !self.l3 };
        proof {
            lemma_not_limb(self.l0);
            lemma_not_limb(self.l1);
            lemma_not_limb(self.l2);
            lemma_not_limb(self.l3);
        }
        r
    }

    /// A word read as a two's-complement signed number.
    pub open spec fn signed(self) -> int {
        if self.value() < word_modulus() / 2 {
            self.value() as int
        } else {
            self.value() - word_modulus()
        }
    }

    /// Signed less-than, on two's-complement words.
    pub fn slt(&self, other: &U256) -> (r: bool)
        ensures
            r == (self.signed() < other.signed()),
    {
        let self_negative = self.l3 >= 0x8000_0000_0000_0000;
        let other_negative = other.l3 >= 0x8000_0000_0000_0000;
        proof {
            self.lemma_value_bound();
            other.lemma_value_bound();
        }
        if self_negative != other_negative {
            self_negative
        } else {
            self.lt(other)
        }
    }

    /// Whether the word is negative as a two's-complement number.
    pub open spec fn is_negative(self) -> bool {
        self.value() >= word_modulus() / 2
    }

    /// The magnitude of the word as a two's-complement number.
    pub open spec fn magnitude(self) -> nat {
        if self.is_negative() {
            (word_modulus() - self.value()) as nat
        } else {
            self.value()
        }
    }

    /// `2^256 - x` modulo 2^256: the two's-complement negation.
    pub fn negate(self) -> (r: U256)
        ensures
            r.value() == (word_modulus() - self.value()) % word_modulus() as int,
    {
        proof {
            self.lemma_value_bound();
        }
        U256::zero().underflowing_sub(self).0
    }

    fn magnitude_word(self) -> (r: U256)
        ensures
            r.value() == self.magnitude(),
    {
        proof {
            self.lemma_value_bound();
            if self.is_negative() {
                vstd::arithmetic::div_mod::lemma_small_mod((word_modulus() - self.value()) as nat, word_modulus());
            }
        }
        if self.l3 >= 0x8000_0000_0000_0000 {
            self.negate()
        } else {
            self
        }
    }

    /// Signed division, rounded toward zero; zero for a zero divisor.
    pub fn sdiv(self, other: U256) -> (r: U256)
        ensures
            other.value() == 0 ==> r.value() == 0,
            other.value() != 0 ==> r.value() == (if self.is_negative() != other.is_negative() {
                (word_modulus() - self.magnitude() / other.magnitude()) % word_modulus() as int
            } else {
                (self.magnitude() / other.magnitude()) as int
            }),
    {
        if other.is_zero() {
            return U256::zero();
        }
        proof {
            self.lemma_value_bound();
            other.lemma_value_bound();
        }
        let q = self.magnitude_word().div(other.magnitude_word());
        let negative = (self.l3 >= 0x8000_0000_0000_0000) != (other.l3 >= 0x8000_0000_0000_0000);
        if negative {
            q.negate()
        } else {
            q
        }
    }

    /// Signed remainder, with the sign of the dividend; zero for a zero divisor.
    pub fn smod(self, other: U256) -> (r: U256)
        ensures
            other.value() == 0 ==> r.value() == 0,
            other.value() != 0 ==> r.value() == (if self.is_negative() {
                (word_modulus() - self.magnitude() % other.magnitude()) % word_modulus() as int
            } else {
                (self.magnitude() % other.magnitude()) as int
            }),
    {
        if other.is_zero() {
            return U256::zero();
        }
        proof {
            self.lemma_value_bound();
            other.lemma_value_bound();
        }
        let m = self.magnitude_word().rem(other.magnitude_word());
        if self.l3 >= 0x8000_0000_0000_0000 {
            m.negate()
        } else {
            m
        }
    }

    /// `(self + other) % modulus` without losing the carry; zero for a zero modulus.
    pub fn addmod(self, other: U256, modulus: U256) -> (r: U256)
        ensures
            modulus.value() == 0 ==> r.value() == 0,
            modulus.value() != 0 ==> r.value() == (self.value() + other.value()) % modulus.value(),
    {
        if modulus.is_zero() {
            return U256::zero();
        }
        let x = self.rem(modulus);
        let y = other.rem(modulus);
        let (s, carry) = x.overflowing_add(y);
        proof {
            let n = modulus.value() as int;
            vstd::arithmetic::div_mod::lemma_add_mod_noop(self.value() as int, other.value() as int, n);
            vstd::arithmetic::div_mod::lemma_remainder(self.value() as int, n);
            vstd::arithmetic::div_mod::lemma_remainder(other.value() as int, n);
            modulus.lemma_value_bound();
        }
        if carry || !s.lt(&modulus) {
            let (d, _) = s.underflowing_sub(modulus);
            proof {
                let n = modulus.value() as int;
                let t = x.value() + y.value();
                vstd::arithmetic::div_mod::lemma_fundamental_div_mod_converse_mod(t as int, n, 1, t - n);
                if carry {
                    vstd::arithmetic::div_mod::lemma_small_mod((s.value() + word_modulus() - n) as nat, word_modulus());
                }
            }
            d
        } else {
            proof {
                vstd::arithmetic::div_mod::lemma_small_mod((x.value() + y.value()) as nat, modulus.value());
            }
            s
        }
    }

    /// Extends the sign of the low `index + 1` bytes of `self` over the whole
    /// word; a word whose index is 31 or more is left as it is.
    pub fn signextend(self, index: U256) -> (r: U256)
        ensures
            index.value() >= 31 ==> r.value() == self.value(),
            index.value() < 31 ==> ({
                let p = pow2((8 * index.value() + 8) as nat);
                let low = self.value() % p;
                r.value() == if low >= p / 2 {
                    (word_modulus() - p + low) as nat
                } else {
                    low
                }
            }),
    {
        if !index.lt(&U256::from_u64(31)) {
            return self;
        }
        proof {
            vstd::arithmetic::div_mod::lemma_small_mod(index.value(), limb_base());
        }
        let bits = index.low_u64() * 8 + 8;
        let p = U256::from_u64(2).exp(U256::from_u64(bits));
        let ghost pv = pow2(bits as nat);
        proof {
            vstd::arithmetic::power2::lemma_pow2(bits as nat);
            lemma_pow2_256();
            vstd::arithmetic::power2::lemma_pow2_strictly_increases(bits as nat, 256);
            vstd::arithmetic::div_mod::lemma_small_mod(pv, word_modulus());
            vstd::arithmetic::power2::lemma_pow2_pos(bits as nat);
        }
        let low = self.rem(p);
        let half = p.div(U256::from_u64(2));
        proof {
            vstd::arithmetic::div_mod::lemma_remainder(self.value() as int, pv as int);
        }
        if half.lt(&low) || half.eq_word(&low) {
            let (r, _) = low.overflowing_add(p.negate());
            proof {
                vstd::arithmetic::div_mod::lemma_small_mod((word_modulus() - pv) as nat, word_modulus());
                vstd::arithmetic::div_mod::lemma_small_mod((low.value() + word_modulus() - pv) as nat, word_modulus());
            }
            r
        } else {
            low
        }
    }

    /// `(self * other) % modulus` computed on the full product; zero for a zero modulus.
    pub fn mulmod(self, other: U256, modulus: U256) -> (r: U256)
        ensures
            modulus.value() == 0 ==> r.value() == 0,
            modulus.value() != 0 ==> r.value() == (self.value() * other.value()) % modulus.value(),
    {
        if modulus.is_zero() {
            return U256::zero();
        }
        let a = self.rem(modulus);
        let two = U256::from_u64(2);
        let pows = powers_of_two();
        let ghost n = modulus.value() as int;
        let ghost b = other.value() as int;
        let mut r = U256::zero();
        let mut i: usize = 256;
        proof {
            lemma_pow2_256();
            other.lemma_value_bound();
            vstd::arithmetic::div_mod::lemma_basic_div(b, pow2(256) as int);
            assert(a.value() * 0 == 0);
            vstd::arithmetic::div_mod::lemma_small_mod(0, n as nat);
        }
        while i > 0
            invariant
                i <= 256,
                pows@.len() == 256,
                forall|k: int| 0 <= k < 256 ==> (#[trigger] pows@[k]).value() == pow2(k as nat),
                two.value() == 2,
                n == modulus.value(),
                n > 0,
                b == other.value(),
                a.value() == self.value() % modulus.value(),
                r.value() == (a.value() * (b / pow2(i as nat) as int)) % n,
            decreases i,
        {
            i = i - 1;
            let prefix = other.div(pows[i]);
            let bit = prefix.rem(two);
            let ghost p_old = b / pow2((i + 1) as nat) as int;
            let ghost p_new = prefix.value() as int;
            let ghost r0 = r.value() as int;
            let ghost av = a.value() as int;
            proof {
                vstd::arithmetic::power2::lemma_pow2_unfold((i + 1) as nat);
                vstd::arithmetic::power2::lemma_pow2_pos(i as nat);
                vstd::arithmetic::div_mod::lemma_div_denominator(b, pow2(i as nat) as int, 2);
                vstd::arithmetic::div_mod::lemma_fundamental_div_mod(p_new, 2);
                assert(pow2(i as nat) * 2 == pow2((i + 1) as nat));
                assert(p_old == p_new / 2);
            }
            r = r.addmod(r, modulus);
            if !bit.is_zero() {
                r = r.addmod(a, modulus);
            }
            proof {
                lemma_mulmod_step(av, p_old, p_new, bit.value() as int, r0, n);
            }
        }
        proof {
            lemma2_to64();
            assert(b / pow2(0) as int == b);
            assert(r.value() == (a.value() * b) % n);
            vstd::arithmetic::div_mod::lemma_mul_mod_noop_left(self.value() as int, b, n);
        }
        r
    }

    /// Shifted left by `shift` bits, modulo 2^256.
    pub fn shl(self, shift: usize) -> (r: U256)
        ensures
            shift < 256 ==> r.value() == (self.value() * pow2(shift as nat)) % word_modulus(),
            shift >= 256 ==> r.value() == 0,
    {
        if shift >= 256 {
            return U256::zero();
        }
        let p = U256::from_u64(2).exp(U256::from_u64(shift as u64));
        proof {
            vstd::arithmetic::power2::lemma_pow2(shift as nat);
            lemma_pow2_256();
            vstd::arithmetic::power2::lemma_pow2_strictly_increases(shift as nat, 256);
            vstd::arithmetic::div_mod::lemma_small_mod(pow2(shift as nat), word_modulus());
        }
        self.overflowing_mul(p).0
    }

    /// Shifted right by `shift` bits.
    pub fn shr(self, shift: usize) -> (r: U256)
        ensures
            shift < 256 ==> r.value() == self.value() / pow2(shift as nat),
            shift >= 256 ==> r.value() == 0,
    {
        if shift >= 256 {
            return U256::zero();
        }
        let p = U256::from_u64(2).exp(U256::from_u64(shift as u64));
        proof {
            vstd::arithmetic::power2::lemma_pow2(shift as nat);
            lemma_pow2_256();
            vstd::arithmetic::power2::lemma_pow2_strictly_increases(shift as nat, 256);
            vstd::arithmetic::div_mod::lemma_small_mod(pow2(shift as nat), word_modulus());
            vstd::arithmetic::power2::lemma_pow2_pos(shift as nat);
        }
        self.div(p)
    }

    /// Sum of two words modulo 2^256, with whether it wrapped.
    pub fn overflowing_add(self, other: U256) -> (r: (U256, bool))
        ensures
            r.0.value() == wrap(self.value() + other.value()),
            r.1 == (self.value() + other.value() >= word_modulus()),
            r.0.value() + (if r.1 { word_modulus() } else { 0 }) == self.value() + other.value(),
    {
        let (s0, c0) = add_carry(self.l0, other.l0, 0);
        let (s1, c1) = add_carry(self.l1, other.l1, c0);
        let (s2, c2) = add_carry(self.l2, other.l2, c1);
        let (s3, c3) = add_carry(self.l3, other.l3, c2);
        let r = U256 { l0: s0, l1: s1, l2: s2, l3: s3 };
        proof {
            assert(r.value() + c3 as nat * word_modulus() == self.value() + other.value());
            lemma_fundamental_div_mod_converse_mod(
                (self.value() + other.value()) as int,
                word_modulus() as int,
                c3 as int,
                r.value() as int,
            );
        }
        (r, c3 == 1)
    }

    /// Product of two words modulo 2^256, with whether it wrapped.
    pub fn overflowing_mul(self, other: U256) -> (r: (U256, bool))
        ensures
            r.0.value() == wrap(self.value() * other.value()),
            r.1 == (self.value() * other.value() >= word_modulus()),
    {
        let ghost a = self.value();
        let ghost w = limb_base() as int;
        let ghost m = word_modulus() as int;
        // Horner's scheme over the limbs of `other`, most significant first.
        let (acc, hi) = mul_limb(self, other.l3);
        let mut over = hi != 0;
        let ghost e: int = a * other.l3;
        let ghost q: int = hi as int;
        let (acc, over, qg) = mul_step(self, acc, over, other.l2, Ghost(e), Ghost(q));
        let ghost q = qg@;
        let ghost e = e * w + a * other.l2;
        let (acc, over, qg) = mul_step(self, acc, over, other.l1, Ghost(e), Ghost(q));
        let ghost q = qg@;
        let ghost e = e * w + a * other.l1;
        let (acc, over, qg) = mul_step(self, acc, over, other.l0, Ghost(e), Ghost(q));
        let ghost q = qg@;
        let ghost e = e * w + a * other.l0;
        proof {
            let b = other.value() as int;
            let (b0, b1, b2, b3) = (other.l0 as int, other.l1 as int, other.l2 as int, other.l3 as int);
            assert(b == b0 + w * (b1 + w * (b2 + w * b3)));
            assert(e == a * b) by (nonlinear_arith)
                requires
                    e == ((a * b3 * w + a * b2) * w + a * b1) * w + a * b0,
                    b == b0 + w * (b1 + w * (b2 + w * b3)),
            ;
            acc.lemma_value_bound();
            lemma_fundamental_div_mod_converse_mod(e, m, q, acc.value() as int);
            assert((q > 0 ==> q * m >= m) && (q == 0 ==> q * m == 0)) by (nonlinear_arith)
                requires
                    m > 0,
            ;
        }
        (acc, over)
    }

    /// Difference of two words modulo 2^256, with whether it went below zero.
    pub fn underflowing_sub(self, other: U256) -> (r: (U256, bool))
        ensures
            r.0.value() == wrap((self.value() - other.value() + word_modulus()) as nat),
            r.1 == (self.value() < other.value()),
            !r.1 ==> r.0.value() == self.value() - other.value(),
    {
        let (s0, b0) = sub_borrow(self.l0, other.l0, 0);
        let (s1, b1) = sub_borrow(self.l1, other.l1, b0);
        let (s2, b2) = sub_borrow(self.l2, other.l2, b1);
        let (s3, b3) = sub_borrow(self.l3, other.l3, b2);
        let r = U256 { l0: s0, l1: s1, l2: s2, l3: s3 };
        proof {
            assert(r.value() == self.value() - other.value() + b3 as nat * word_modulus());
            lemma_fundamental_div_mod_converse_mod(
                (self.value() - other.value() + word_modulus()) as int,
                word_modulus() as int,
                1 - b3 as int,
                r.value() as int,
            );
        }
        (r, b3 == 1)
    }
}

/// 2^64, 2^128 and 2^192 as powers of the limb base.
proof fn lemma_powers_of_limb_base()
    ensures
        pow2(64) == limb_base(),
        pow2(128) == limb_base() * limb_base(),
        pow2(192) == limb_base() * (limb_base() * limb_base()),
{
    lemma2_to64();
    lemma_pow2_adds(64, 64);
    lemma_pow2_adds(64, 128);
}

/// A number in base `w` split below each of its upper digits.
proof fn lemma_value_split(l0: int, l1: int, l2: int, l3: int, w: int)
    ensures
        l0 + w * (l1 + w * (l2 + w * l3)) == (l0 + w * (l1 + w * l2)) + l3 * (w * (w * w)),
        l0 + w * (l1 + w * (l2 + w * l3)) == (l0 + w * l1) + (l2 + w * l3) * (w * w),
        l0 + w * (l1 + w * (l2 + w * l3)) == l0 + (l1 + w * (l2 + w * l3)) * w,
{
    assert(l0 + w * (l1 + w * (l2 + w * l3)) == (l0 + w * (l1 + w * l2)) + l3 * (w * (w * w)))
        by (nonlinear_arith);
    assert(l0 + w * (l1 + w * (l2 + w * l3)) == (l0 + w * l1) + (l2 + w * l3) * (w * w))
        by (nonlinear_arith);
    assert(l0 + w * (l1 + w * (l2 + w * l3)) == l0 + (l1 + w * (l2 + w * l3)) * w)
        by (nonlinear_arith);
}

/// What `leading_zeros` says of a limb: it has `64 - leading_zeros` significant bits.
proof fn lemma_limb_bit_length(i: u64)
    ensures
        0 <= u64_leading_zeros(i) <= 64,
        is_bit_length(i as nat, (64 - u64_leading_zeros(i)) as nat),
    decreases i,
{
    reveal(u64_leading_zeros);
    if i == 0 {
        lemma_pow2_pos(0);
    } else {
        lemma_limb_bit_length(i / 2);
        let k = (64 - u64_leading_zeros(i)) as nat;
        assert(u64_leading_zeros(i) == u64_leading_zeros(i / 2) - 1);
        lemma_pow2_unfold(k);
        if i / 2 > 0 {
            lemma_pow2_unfold((k - 1) as nat);
        } else {
            lemma2_to64();
        }
    }
}

/// A number whose top part `hi` has `k` significant bits, above `e` low bits,
/// has `e + k` significant bits.
proof fn lemma_top_limb(lo: int, hi: int, e: nat, k: nat)
    requires
        0 <= lo < pow2(e),
        0 < hi,
        is_bit_length(hi as nat, k),
    ensures
        is_bit_length((lo + hi * pow2(e)) as nat, e + k),
{
    let p = pow2(e) as int;
    lemma_pow2_adds(e, k);
    lemma_pow2_adds(e, (k - 1) as nat);
    lemma2_to64();
    assert(k > 0);
    assert((e + k - 1) as nat == e + (k - 1) as nat);
    let pk = pow2(k) as int;
    let pk1 = pow2((k - 1) as nat) as int;
    assert(pow2(e + k) == p * pk);
    assert(pow2(((e + k) - 1) as nat) == p * pk1);
    assert(lo + hi * p < p * pk) by (nonlinear_arith)
        requires
            0 <= lo < p,
            hi < pk,
    ;
    assert(p * pk1 <= lo + hi * p) by (nonlinear_arith)
        requires
            0 <= lo,
            pk1 <= hi,
            p > 0,
    ;
}

/// One step of square-and-multiply: taking out the low bit of the exponent
/// and squaring the base keeps `r * b^e` modulo `m`.
proof fn lemma_exp_step(r: int, b: int, half: nat, bit: nat, m: int)
    requires
        m > 0,
        bit <= 1,
    ensures
        (((r * pow(b, bit)) % m) * pow((b * b) % m, half)) % m == (r * pow(b, 2 * half + bit)) % m,
{
    let x = r * pow(b, bit);
    let y = pow((b * b) % m, half);
    lemma_mul_mod_noop(x % m, y, m);
    lemma_pow_mod_noop(b * b, half, m);
    vstd::arithmetic::div_mod::lemma_mod_twice(x, m);
    lemma_mul_mod_noop(x, pow(b * b, half), m);
    lemma_pow1(b);
    assert(pow(b, 2) == b * pow(b, 1)) by {
        reveal(pow);
    }
    lemma_pow_multiplies(b, 2, half);
    lemma_pow_adds(b, 2 * half, bit);
    assert(x * pow(b * b, half) == r * pow(b, 2 * half + bit)) by (nonlinear_arith)
        requires
            x == r * pow(b, bit),
            pow(b * b, half) == pow(b, 2 * half),
            pow(b, 2 * half + bit) == pow(b, 2 * half) * pow(b, bit),
    ;
}

/// One step of double-and-add: with `r == a * p_old (mod n)` and
/// `p_new == 2 * p_old + bit`, doubling `r` and adding `a` for the bit gives
/// `a * p_new (mod n)`.
proof fn lemma_mulmod_step(a: int, p_old: int, p_new: int, bit: int, r0: int, n: int)
    requires
        n > 0,
        0 <= bit <= 1,
        p_new == 2 * p_old + bit,
        r0 == (a * p_old) % n,
    ensures
        (if bit != 0 { (((r0 + r0) % n) + a) % n } else { (r0 + r0) % n }) == (a * p_new) % n,
{
    lemma_double_and_add(a, p_old, bit, n);
}

/// `a * (2p + bit)` modulo `n`, from `a * p` modulo `n`.
proof fn lemma_double_and_add(a: int, p: int, bit: int, n: int)
    requires
        n > 0,
        0 <= bit <= 1,
    ensures
        (if bit != 0 { ((((a * p) % n + (a * p) % n) % n) + a) % n } else { ((a * p) % n + (a * p) % n) % n })
            == (a * (2 * p + bit)) % n,
{
    let x = a * p;
    vstd::arithmetic::div_mod::lemma_add_mod_noop(x, x, n);
    assert(a * (2 * p + bit) == x + x + a * bit) by (nonlinear_arith)
        requires
            x == a * p,
    ;
    if bit != 0 {
        vstd::arithmetic::div_mod::lemma_add_mod_noop(x + x, a, n);
        vstd::arithmetic::div_mod::lemma_mod_twice(x + x, n);
        vstd::arithmetic::div_mod::lemma_add_mod_noop((x + x) % n, a, n);
        vstd::arithmetic::div_mod::lemma_mod_twice(a, n);
    }
}

/// The complement of a limb is its distance below 2^64 - 1.
proof fn lemma_not_limb(x: u64)
    ensures
        !x == 0xffff_ffff_ffff_ffffu64 - x,
{
    assert(!x == 0xffff_ffff_ffff_ffffu64 - x) by (bit_vector);
}

/// 2^256 is the word modulus.
proof fn lemma_pow2_256()
    ensures
        pow2(256) == word_modulus(),
{
    lemma_powers_of_limb_base();
    lemma_pow2_adds(64, 192);
}

/// The words 2^0 to 2^255.
fn powers_of_two() -> (r: Vec<U256>)
    ensures
        r@.len() == 256,
        forall|k: int| 0 <= k < 256 ==> (#[trigger] r@[k]).value() == pow2(k as nat),
{
    let mut r: Vec<U256> = Vec::new();
    let mut p = U256::one();
    proof {
        lemma2_to64();
    }
    let mut k: usize = 0;
    while k < 256
        invariant
            k <= 256,
            r@.len() == k,
            k < 256 ==> p.value() == pow2(k as nat),
            forall|j: int| 0 <= j < k ==> (#[trigger] r@[j]).value() == pow2(j as nat),
        decreases 256 - k,
    {
        r.push(p);
        proof {
            lemma_pow2_unfold((k + 1) as nat);
            if k + 1 < 256 {
                lemma_pow2_256();
                vstd::arithmetic::power2::lemma_pow2_strictly_increases((k + 1) as nat, 256);
                vstd::arithmetic::div_mod::lemma_small_mod(2 * p.value(), word_modulus());
            }
        }
        if k + 1 < 256 {
            let (next, _) = p.overflowing_add(p);
            p = next;
        }
        k = k + 1;
    }
    r
}

/// 256^8 is the limb base and 256^32 the word modulus.
proof fn lemma_pow256_limb_base()
    ensures
        pow256(8) == limb_base(),
        pow256(32) == word_modulus(),
{
    reveal_with_fuel(pow256, 33);
}

proof fn lemma_pow256_monotone(a: nat, b: nat)
    requires
        a <= b,
    ensures
        pow256(a) <= pow256(b),
    decreases b - a,
{
    if a < b {
        lemma_pow256_monotone(a, (b - 1) as nat);
    }
}

/// A big-endian string of `n` bytes stands for a number below 256^n.
pub proof fn lemma_be_bound(s: Seq<u8>)
    ensures
        be_value(s) < pow256(s.len()),
    decreases s.len(),
{
    if s.len() > 0 {
        lemma_be_bound(s.drop_last());
    }
}

/// The number of a concatenation: the first part scaled past the second.
pub proof fn lemma_be_concat(a: Seq<u8>, b: Seq<u8>)
    ensures
        be_value(a + b) == be_value(a) * pow256(b.len()) + be_value(b),
    decreases b.len(),
{
    if b.len() == 0 {
        assert(a + b == a);
        assert(pow256(0) == 1);
    } else {
        assert((a + b).drop_last() == a + b.drop_last());
        assert((a + b).last() == b.last());
        assert(pow256(b.len()) == 256 * pow256((b.len() - 1) as nat));
        lemma_be_concat(a, b.drop_last());
        let x = be_value(a) as int;
        let p = pow256((b.len() - 1) as nat) as int;
        assert((x * p + be_value(b.drop_last())) * 256 + b.last() == x * (256 * p) + (be_value(
            b.drop_last()) * 256 + b.last())) by (nonlinear_arith);
    }
}

/// Appends a byte to a big-endian string.
fn push_byte(out: &mut Vec<u8>, b: u8)
    ensures
        final(out)@ == old(out)@.push(b),
        be_value(final(out)@) == be_value(old(out)@) * 256 + b,
{
    out.push(b);
    proof {
        assert(final(out)@.drop_last() == old(out)@);
    }
}

/// The 8-byte big-endian encoding of a limb.
fn limb_to_be_bytes(l: u64) -> (r: Vec<u8>)
    ensures
        r@.len() == 8,
        be_value(r@) == l,
{
    let x0 = l;
    let x1 = x0 / 256;
    let x2 = x1 / 256;
    let x3 = x2 / 256;
    let x4 = x3 / 256;
    let x5 = x4 / 256;
    let x6 = x5 / 256;
    let x7 = x6 / 256;
    let mut out: Vec<u8> = Vec::new();
    proof {
        assert(be_value(out@) == 0);
    }
    push_byte(&mut out, x7 as u8);
    push_byte(&mut out, (x6 % 256) as u8);
    push_byte(&mut out, (x5 % 256) as u8);
    push_byte(&mut out, (x4 % 256) as u8);
    push_byte(&mut out, (x3 % 256) as u8);
    push_byte(&mut out, (x2 % 256) as u8);
    push_byte(&mut out, (x1 % 256) as u8);
    push_byte(&mut out, (x0 % 256) as u8);
    out
}

/// One limb of an addition: `a + b + carry` as a digit and a carry out.
fn add_carry(a: u64, b: u64, carry: u64) -> (r: (u64, u64))
    requires
        carry <= 1,
    ensures
        r.1 <= 1,
        r.0 as nat + r.1 as nat * limb_base() == a as nat + b as nat + carry as nat,
{
    let s: u128 = a as u128 + b as u128 + carry as u128;
    if s >= 0x1_0000_0000_0000_0000u128 {
        ((s - 0x1_0000_0000_0000_0000u128) as u64, 1)
    } else {
        (s as u64, 0)
    }
}

/// One limb of a product: `a * b + carry` as a digit and a carry out.
fn mul_add(a: u64, b: u64, carry: u64) -> (r: (u64, u64))
    ensures
        r.0 as nat + r.1 as nat * limb_base() == a as nat * b as nat + carry as nat,
{
    proof {
        assert(a as nat * b as nat <= 18446744073709551615 * 18446744073709551615) by (nonlinear_arith)
            requires
                a <= 18446744073709551615u64,
                b <= 18446744073709551615u64,
        ;
    }
    let t: u128 = a as u128 * b as u128 + carry as u128;
    ((t % 0x1_0000_0000_0000_0000u128) as u64, (t / 0x1_0000_0000_0000_0000u128) as u64)
}

/// A word times one limb, as a word and the limb that spills above it.
fn mul_limb(a: U256, b: u64) -> (r: (U256, u64))
    ensures
        r.0.value() + r.1 as nat * word_modulus() == a.value() * b as nat,
{
    let (d0, c0) = mul_add(a.l0, b, 0);
    let (d1, c1) = mul_add(a.l1, b, c0);
    let (d2, c2) = mul_add(a.l2, b, c1);
    let (d3, c3) = mul_add(a.l3, b, c2);
    let r = U256 { l0: d0, l1: d1, l2: d2, l3: d3 };
    proof {
        let w = limb_base() as int;
        let bb = b as int;
        let (a0, a1, a2, a3) = (a.l0 as int, a.l1 as int, a.l2 as int, a.l3 as int);
        lemma_horner_scale(a0, a1, a2, a3, bb, w);
        lemma_carry_chain(
            d0 as int, d1 as int, d2 as int, d3 as int,
            c0 as int, c1 as int, c2 as int, c3 as int,
            a0 * bb, a1 * bb, a2 * bb, a3 * bb, w,
        );
    }
    (r, c3)
}

/// A word moved up by one limb, as a word and the limb pushed out at the top.
fn shift_limb(a: U256) -> (r: (U256, u64))
    ensures
        r.0.value() + r.1 as nat * word_modulus() == a.value() * limb_base(),
{
    let r = U256 { l0: 0, l1: a.l0, l2: a.l1, l3: a.l2 };
    proof {
        let w = limb_base() as int;
        let (a0, a1, a2, a3) = (a.l0 as int, a.l1 as int, a.l2 as int, a.l3 as int);
        assert(w * (a0 + w * (a1 + w * a2)) + a3 * (w * (w * (w * w))) == (a0 + w * (a1 + w * (
            a2 + w * a3))) * w) by (nonlinear_arith);
    }
    (r, a.l3)
}

/// Distributing a factor over a number written in base `w`.
proof fn lemma_horner_scale(a0: int, a1: int, a2: int, a3: int, b: int, w: int)
    ensures
        (a0 + w * (a1 + w * (a2 + w * a3))) * b == a0 * b + w * (a1 * b + w * (a2 * b + w * (a3
            * b))),
{
    assert((a0 + w * (a1 + w * (a2 + w * a3))) * b == a0 * b + w * (a1 * b + w * (a2 * b + w * (a3
        * b)))) by (nonlinear_arith);
}

/// Digits and carries of a limb-by-limb sum of the terms `t0` to `t3` add up to it.
proof fn lemma_carry_chain(
    d0: int, d1: int, d2: int, d3: int,
    c0: int, c1: int, c2: int, c3: int,
    t0: int, t1: int, t2: int, t3: int, w: int,
)
    requires
        d0 + c0 * w == t0,
        d1 + c1 * w == t1 + c0,
        d2 + c2 * w == t2 + c1,
        d3 + c3 * w == t3 + c2,
    ensures
        d0 + w * (d1 + w * (d2 + w * d3)) + c3 * (w * (w * (w * w))) == t0 + w * (t1 + w * (t2 + w
            * t3)),
{
    assert(d0 + w * (d1 + w * (d2 + w * d3)) + c3 * (w * (w * (w * w))) == t0 + w * (t1 + w * (t2
        + w * t3))) by (nonlinear_arith)
        requires
            d0 + c0 * w == t0,
            d1 + c1 * w == t1 + c0,
            d2 + c2 * w == t2 + c1,
            d3 + c3 * w == t3 + c2,
    ;
}

/// One step of Horner's scheme for a product: with `e == q * 2^256 + acc`,
/// computes `e * 2^64 + a * b` in the same form.
fn mul_step(a: U256, acc: U256, over: bool, b: u64, Ghost(e): Ghost<int>, Ghost(q): Ghost<int>) -> (r: (
    U256,
    bool,
    Ghost<int>,
))
    requires
        q >= 0,
        e == q * word_modulus() + acc.value(),
        over == (q > 0),
    ensures
        r.2@ >= 0,
        e * limb_base() + a.value() * b == r.2@ * word_modulus() + r.0.value(),
        r.1 == (r.2@ > 0),
{
    let (s, t) = shift_limb(acc);
    let (lo, hi) = mul_limb(a, b);
    let (sum, carry) = s.overflowing_add(lo);
    let ghost c: int = if carry { 1 } else { 0 };
    proof {
        let w = limb_base() as int;
        let m = word_modulus() as int;
        let (ti, hii) = (t as int, hi as int);
        assert(sum.value() + c * m == s.value() + lo.value());
        assert(e * w + a.value() * b == (q * w + ti + hii + c) * m + sum.value()) by (nonlinear_arith)
            requires
                e == q * m + acc.value(),
                s.value() + ti * m == acc.value() * w,
                lo.value() + hii * m == a.value() * b,
                sum.value() + c * m == s.value() + lo.value(),
        ;
        assert(q * w >= 0 && (q > 0 ==> q * w > 0)) by (nonlinear_arith)
            requires
                q >= 0,
                w > 0,
        ;
    }
    let ghost q2: int = q * limb_base() + t + hi + c;
    (sum, over || t != 0 || hi != 0 || carry, Ghost(q2))
}

/// One limb of a subtraction: `a - b - borrow` as a digit and a borrow out.
fn sub_borrow(a: u64, b: u64, borrow: u64) -> (r: (u64, u64))
    requires
        borrow <= 1,
    ensures
        r.1 <= 1,
        r.0 as int == a as int - b as int - borrow as int + r.1 as int * limb_base(),
{
    if (a as u128) >= b as u128 + borrow as u128 {
        (a - b - borrow, 0)
    } else {
        ((a as u128 + 0x1_0000_0000_0000_0000u128 - b as u128 - borrow as u128) as u64, 1)
    }
}

} // verus!
