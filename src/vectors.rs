//! Test vectors as they are written down: every number and byte string a
//! `0x`-prefixed hexadecimal string, decoded here.
use vstd::prelude::*;
use crate::u256::{U256, word_modulus};
use vstd::utf8::encode_utf8;
use vstd::string::StringSliceAdditionalSpecFns;

verus! {

/// The value of a hexadecimal digit.
pub open spec fn nibble(c: u8) -> Option<nat> {
    if 0x30 <= c <= 0x39 {
        Some((c - 0x30) as nat)
    } else if 0x61 <= c <= 0x66 {
        Some((c - 0x61 + 10) as nat)
    } else if 0x41 <= c <= 0x46 {
        Some((c - 0x41 + 10) as nat)
    } else {
        None
    }
}

/// The digits after an optional `0x` or `0X`.
pub open spec fn digits_of(s: Seq<u8>) -> Seq<u8> {
    if s.len() >= 2 && s[0] == 0x30 && (s[1] == 0x78 || s[1] == 0x58) {
        s.subrange(2, s.len() as int)
    } else {
        s
    }
}

/// The bytes a string of hexadecimal digits spells, two digits to a byte.
pub open spec fn hex_bytes(d: Seq<u8>) -> Option<Seq<u8>>
    decreases d.len(),
{
    if d.len() == 0 {
        Some(Seq::empty())
    } else if d.len() == 1 {
        None
    } else {
        match (nibble(d[d.len() - 2]), nibble(d[d.len() - 1]), hex_bytes(d.subrange(0, d.len() - 2))) {
            (Some(hi), Some(lo), Some(rest)) => Some(rest.push((hi * 16 + lo) as u8)),
            _ => None,
        }
    }
}

/// The number a string of hexadecimal digits spells.
pub open spec fn hex_number(d: Seq<u8>) -> Option<nat>
    decreases d.len(),
{
    if d.len() == 0 {
        Some(0)
    } else {
        match (hex_number(d.drop_last()), nibble(d.last())) {
            (Some(v), Some(x)) => Some(v * 16 + x),
            _ => None,
        }
    }
}

fn digit(c: u8) -> (r: Option<u8>)
    ensures
        r matches Some(v) ==> nibble(c) == Some(v as nat) && v < 16,
        r is None ==> nibble(c) is None,
{
    if 0x30 <= c && c <= 0x39 {
        Some(c - 0x30)
    } else if 0x61 <= c && c <= 0x66 {
        Some(c - 0x61 + 10)
    } else if 0x41 <= c && c <= 0x46 {
        Some(c - 0x41 + 10)
    } else {
        None
    }
}

fn strip_prefix(s: &[u8]) -> (r: usize)
    ensures
        r <= s@.len(),
        s@.subrange(r as int, s@.len() as int) == digits_of(s@),
{
    if s.len() >= 2 && s[0] == 0x30 && (s[1] == 0x78 || s[1] == 0x58) {
        2
    } else {
        proof {
            assert(s@.subrange(0, s@.len() as int) == s@);
        }
        0
    }
}

/// Decodes a `0x`-prefixed hexadecimal byte string; None where it is not one.
pub fn decode_hex(s: &str) -> (r: Option<Vec<u8>>)
    ensures
        r matches Some(v) ==> hex_bytes(digits_of(encode_utf8(s@))) == Some(v@),
        r is None ==> hex_bytes(digits_of(encode_utf8(s@))) is None,
{
    let b = s.as_bytes();
    proof {
        assert(b@ == encode_utf8(s@));
    }
    let start = strip_prefix(b);
    let ghost d = digits_of(b@);
    if (b.len() - start) % 2 != 0 {
        proof {
            lemma_odd_has_no_bytes(d);
        }
        return None;
    }
    let mut out: Vec<u8> = Vec::new();
    let mut i: usize = start;
    while i < b.len()
        invariant
            start <= i <= b@.len(),
            (i - start) % 2 == 0,
            (b@.len() - start) % 2 == 0,
            d == b@.subrange(start as int, b@.len() as int),
            d == digits_of(encode_utf8(s@)),
            hex_bytes(d.subrange(0, i - start)) == Some(out@),
        decreases b@.len() - i,
    {
        let hi = digit(b[i]);
        let lo = digit(b[i + 1]);
        let ghost next = d.subrange(0, i + 2 - start);
        proof {
            assert(next.subrange(0, next.len() - 2) == d.subrange(0, i - start));
            assert(next[next.len() - 2] == b@[i as int]);
            assert(next[next.len() - 1] == b@[i + 1]);
        }
        match (hi, lo) {
            (Some(h), Some(l)) => {
                out.push(h * 16 + l);
            },
            _ => {
                proof {
                    assert(nibble(next[next.len() - 2]) is None || nibble(next[next.len() - 1]) is None);
                    assert(hex_bytes(next) is None);
                    lemma_bad_prefix(d, (i + 2 - start) as nat);
                }
                return None;
            },
        }
        i = i + 2;
    }
    proof {
        assert(d.subrange(0, d.len() as int) == d);
    }
    Some(out)
}

proof fn lemma_odd_has_no_bytes(d: Seq<u8>)
    requires
        d.len() % 2 == 1,
    ensures
        hex_bytes(d) is None,
    decreases d.len(),
{
    if d.len() > 1 {
        lemma_odd_has_no_bytes(d.subrange(0, d.len() - 2));
    }
}

/// A prefix of even length that spells nothing spoils the whole string.
proof fn lemma_bad_prefix(d: Seq<u8>, n: nat)
    requires
        n <= d.len(),
        n % 2 == 0,
        d.len() % 2 == 0,
        hex_bytes(d.subrange(0, n as int)) is None,
    ensures
        hex_bytes(d) is None,
    decreases d.len() - n,
{
    if n < d.len() {
        let m = n + 2;
        let p = d.subrange(0, m as int);
        assert(p.subrange(0, p.len() - 2) == d.subrange(0, n as int));
        lemma_bad_prefix(d, m);
    } else {
        assert(d.subrange(0, n as int) == d);
    }
}

/// Decodes a `0x`-prefixed hexadecimal number of at most 64 digits.
pub fn decode_hex_number(s: &str) -> (r: Option<U256>)
    ensures
        r matches Some(v) ==> hex_number(digits_of(encode_utf8(s@))) == Some(v.value()) && digits_of(
            encode_utf8(s@),
        ).len() <= 64,
        r is None ==> hex_number(digits_of(encode_utf8(s@))) is None || digits_of(encode_utf8(s@)).len() > 64,
{
    let b = s.as_bytes();
    proof {
        assert(b@ == encode_utf8(s@));
    }
    let start = strip_prefix(b);
    let ghost d = digits_of(b@);
    if b.len() - start > 64 {
        return None;
    }
    let sixteen = U256::from_u64(16);
    let mut acc = U256::zero();
    let mut i: usize = start;
    while i < b.len()
        invariant
            start <= i <= b@.len(),
            b@.len() - start <= 64,
            d == b@.subrange(start as int, b@.len() as int),
            d == digits_of(encode_utf8(s@)),
            sixteen.value() == 16,
            hex_number(d.subrange(0, i - start)) == Some(acc.value()),
            acc.value() < crate::vectors::pow16((i - start) as nat),
        decreases b@.len() - i,
    {
        let ghost next = d.subrange(0, i + 1 - start);
        proof {
            assert(next.drop_last() == d.subrange(0, i - start));
            assert(next.last() == b@[i as int]);
        }
        match digit(b[i]) {
            Some(x) => {
                proof {
                    lemma_pow16_bound((i + 1 - start) as nat);
                    assert(acc.value() * 16 + x < pow16((i + 1 - start) as nat));
                    vstd::arithmetic::div_mod::lemma_small_mod(acc.value() * 16, word_modulus());
                    vstd::arithmetic::div_mod::lemma_small_mod(acc.value() * 16 + x as nat, word_modulus());
                }
                let (shifted, _) = acc.overflowing_mul(sixteen);
                let (sum, _) = shifted.overflowing_add(U256::from_u64(x as u64));
                acc = sum;
            },
            None => {
                proof {
                    assert(nibble(next.last()) is None);
                    assert(hex_number(next) is None);
                    lemma_bad_number(d, (i + 1 - start) as nat);
                }
                return None;
            },
        }
        i = i + 1;
    }
    proof {
        assert(d.subrange(0, d.len() as int) == d);
    }
    Some(acc)
}

/// 16 to the power `n`.
pub open spec fn pow16(n: nat) -> nat
    decreases n,
{
    if n == 0 {
        1
    } else {
        16 * pow16((n - 1) as nat)
    }
}

proof fn lemma_pow16_bound(n: nat)
    requires
        n <= 64,
    ensures
        pow16(n) <= word_modulus(),
    decreases 64 - n,
{
    if n < 64 {
        lemma_pow16_bound(n + 1);
    } else {
        reveal_with_fuel(pow16, 65);
    }
}

proof fn lemma_bad_number(d: Seq<u8>, n: nat)
    requires
        n <= d.len(),
        hex_number(d.subrange(0, n as int)) is None,
    ensures
        hex_number(d) is None,
    decreases d.len() - n,
{
    if n < d.len() {
        let p = d.subrange(0, n + 1 as int);
        assert(p.drop_last() == d.subrange(0, n as int));
        lemma_bad_number(d, n + 1);
    } else {
        assert(d.subrange(0, n as int) == d);
    }
}

/// The block a test runs in.
pub struct Env {
    pub current_coinbase: String,
    pub current_difficulty: String,
    pub current_gas_limit: String,
    pub current_number: String,
    pub current_timestamp: String,
}

/// The call a test makes.
pub struct Exec {
    pub address: String,
    pub caller: String,
    pub code: String,
    pub data: String,
    pub gas: String,
    pub gas_price: String,
    pub origin: String,
    pub value: String,
}

/// An account of a test's world state; storage as (key, value) pairs.
pub struct Account {
    pub balance: String,
    pub code: String,
    pub nonce: String,
    pub storage: Vec<(String, String)>,
}

/// A test vector: the world before, the call, and what is expected after.
pub struct Test {
    pub env: Env,
    pub execution: Exec,
    pub pre: Vec<(String, Account)>,
    pub gas: Option<String>,
    pub out: Option<String>,
    pub post: Option<Vec<(String, Account)>>,
}

/// The bytes a test string stands for, if it is hexadecimal.
pub open spec fn bytes_of_text(t: Seq<char>) -> Option<Seq<u8>> {
    hex_bytes(digits_of(encode_utf8(t)))
}

/// The number a test string stands for, if it is hexadecimal of at most 64 digits.
pub open spec fn number_of_text(t: Seq<char>) -> Option<nat> {
    if digits_of(encode_utf8(t)).len() > 64 {
        None
    } else {
        hex_number(digits_of(encode_utf8(t)))
    }
}

fn text_bytes(t: &String) -> (r: Option<Vec<u8>>)
    ensures
        r matches Some(v) ==> bytes_of_text(t@) == Some(v@),
        r is None ==> bytes_of_text(t@) is None,
{
    decode_hex(t.as_str())
}

fn text_usize(t: &String) -> (r: Option<usize>)
    ensures
        r matches Some(v) ==> number_of_text(t@) == Some(v as nat),
        r is None ==> number_of_text(t@) is None || number_of_text(t@).unwrap() > usize::MAX,
{
    match decode_hex_number(t.as_str()) {
        Some(v) => {
            if v.fits_u64() {
                proof {
                    vstd::arithmetic::div_mod::lemma_small_mod(v.value(), crate::u256::limb_base());
                }
                let x = v.low_u64();
                if x <= usize::MAX as u64 {
                    return Some(x as usize);
                }
            }
            None
        },
        None => None,
    }
}

impl Test {
    /// The code the test runs.
    pub fn unwrap_to_code(&self) -> (r: Option<Vec<u8>>)
        ensures
            r matches Some(v) ==> bytes_of_text(self.execution.code@) == Some(v@),
            r is None ==> bytes_of_text(self.execution.code@) is None,
    {
        text_bytes(&self.execution.code)
    }

    /// The input of the test's call.
    pub fn unwrap_to_data(&self) -> (r: Option<Vec<u8>>)
        ensures
            r matches Some(v) ==> bytes_of_text(self.execution.data@) == Some(v@),
            r is None ==> bytes_of_text(self.execution.data@) is None,
    {
        text_bytes(&self.execution.data)
    }

    /// The output the test expects, where it states one.
    pub fn unwrap_to_return_value(&self) -> (r: Option<Vec<u8>>)
        ensures
            r matches Some(v) ==> (self.out matches Some(o) && bytes_of_text(o@) == Some(v@)),
            r is None ==> (self.out matches Some(o) ==> bytes_of_text(o@) is None),
    {
        match &self.out {
            Some(o) => text_bytes(o),
            None => None,
        }
    }

    /// The gas the test's call is given.
    pub fn unwrap_to_gas_limit(&self) -> (r: Option<usize>)
        ensures
            r matches Some(v) ==> number_of_text(self.execution.gas@) == Some(v as nat),
            r is None ==> number_of_text(self.execution.gas@) is None || number_of_text(self.execution.gas@).unwrap()
                > usize::MAX,
    {
        text_usize(&self.execution.gas)
    }

    /// The gas the test expects to be left, where it states it.
    pub fn unwrap_to_post_gas(&self) -> (r: Option<usize>)
        ensures
            r matches Some(v) ==> (self.gas matches Some(g) && number_of_text(g@) == Some(v as nat)),
    {
        match &self.gas {
            Some(g) => text_usize(g),
            None => None,
        }
    }
}

} // verus!
