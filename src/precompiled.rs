//! Built-in contracts at reserved low addresses, each with a fixed gas formula.
use vstd::prelude::*;
use crate::errors::ExitError;
use crate::gas::{div_ceil, gas_div_ceil};
use crate::hashing::{keccak256, keccak256_of, recover_key, recovered_key_of, ripemd160, ripemd160_of, sha256, sha256_of};

verus! {

/// The largest input a built-in contract is priced for.
pub const MAX_PRECOMPILE_INPUT: usize = 0xffff_ffff;

/// The identity contract: returns its input.
pub struct IDPrecompiled;

/// The RIPEMD-160 contract: the digest, left-padded to 32 bytes.
pub struct RIP160Precompiled;

/// The SHA-256 contract.
pub struct SHA256Precompiled;

/// The signature recovery contract: the address that signed a message hash.
pub struct ECRECPrecompiled;

/// `n` zero bytes.
pub open spec fn zeros(n: nat) -> Seq<u8> {
    Seq::new(n, |i: int| 0u8)
}

/// The 128 bytes the recovery contract reads: the input, cut or padded with zeros.
pub open spec fn ecrec_input(data: Seq<u8>) -> Seq<u8> {
    Seq::new(128, |i: int| if i < data.len() { data[i] } else { 0u8 })
}

/// Whether bytes 32 to 63 of the input hold a recovery id of 27 or 28 as a word.
pub open spec fn ecrec_v_ok(input: Seq<u8>) -> bool {
    (input[63] == 27 || input[63] == 28) && forall|i: int| 32 <= i < 63 ==> input[i] == 0
}

/// The output of the recovery contract: the signer's address as a word, or
/// nothing where the signature does not recover.
pub open spec fn ecrec_output(data: Seq<u8>) -> Seq<u8> {
    let input = ecrec_input(data);
    if !ecrec_v_ok(input) {
        Seq::empty()
    } else {
        match recovered_key_of(input.subrange(0, 32), input.subrange(64, 128), (input[63] - 27) as u8) {
            Some(key) => zeros(12) + keccak256_of(key).subrange(12, 32),
            None => Seq::empty(),
        }
    }
}

fn zero_bytes(n: usize) -> (r: Vec<u8>)
    ensures
        r@ == zeros(n as nat),
{
    let mut v: Vec<u8> = Vec::new();
    let mut i: usize = 0;
    while i < n
        invariant
            i <= n,
            v@ == zeros(i as nat),
        decreases n - i,
    {
        v.push(0);
        i = i + 1;
        proof {
            assert(v@ =~= zeros(i as nat));
        }
    }
    v
}

impl IDPrecompiled {
    /// 15 plus 3 per word of input.
    pub fn gas(&self, data: &[u8]) -> (r: u64)
        requires
            data@.len() <= MAX_PRECOMPILE_INPUT,
        ensures
            r == 15 + 3 * div_ceil(data@.len() as nat, 32),
    {
        15 + 3 * gas_div_ceil(data.len() as u64, 32)
    }

    pub fn step(&self, data: &[u8]) -> (r: Vec<u8>)
        ensures
            r@ == data@,
    {
        crate::memory::copy_bytes(data)
    }
}

impl RIP160Precompiled {
    /// 600 plus 120 per word of input.
    pub fn gas(&self, data: &[u8]) -> (r: u64)
        requires
            data@.len() <= MAX_PRECOMPILE_INPUT,
        ensures
            r == 600 + 120 * div_ceil(data@.len() as nat, 32),
    {
        600 + 120 * gas_div_ceil(data.len() as u64, 32)
    }

    pub fn step(&self, data: &[u8]) -> (r: Vec<u8>)
        ensures
            r@ == zeros(12) + ripemd160_of(data@),
    {
        let mut out = zero_bytes(12);
        let mut digest = ripemd160(data);
        out.append(&mut digest);
        out
    }
}

impl SHA256Precompiled {
    /// 60 plus 12 per word of input.
    pub fn gas(&self, data: &[u8]) -> (r: u64)
        requires
            data@.len() <= MAX_PRECOMPILE_INPUT,
        ensures
            r == 60 + 12 * div_ceil(data@.len() as nat, 32),
    {
        60 + 12 * gas_div_ceil(data.len() as u64, 32)
    }

    pub fn step(&self, data: &[u8]) -> (r: Vec<u8>)
        ensures
            r@ == sha256_of(data@),
    {
        sha256(data)
    }
}

impl ECRECPrecompiled {
    /// A flat 3000.
    pub fn gas(&self, data: &[u8]) -> (r: u64)
        ensures
            r == 3000,
    {
        3000
    }

    pub fn step(&self, data: &[u8]) -> (r: Vec<u8>)
        ensures
            r@ == ecrec_output(data@),
            r@.len() == 0 || r@.len() == 32,
    {
        let mut input = [0u8; 128];
        let mut i: usize = 0;
        while i < 128
            invariant
                i <= 128,
                input@.len() == 128,
                forall|j: int| 0 <= j < i ==> input@[j] == ecrec_input(data@)[j],
            decreases 128 - i,
        {
            if i < data.len() {
                input[i] = data[i];
            } else {
                input[i] = 0;
            }
            i = i + 1;
        }
        proof {
            assert(input@ =~= ecrec_input(data@));
        }
        kececrec(&input)
    }
}

/// Recovers the signer of the 128-byte input, hashed down to an address word;
/// empty where the recovery id is out of place or the signature does not recover.
fn kececrec(input: &[u8; 128]) -> (r: Vec<u8>)
    ensures
        r@.len() == 0 || r@.len() == 32,
        ({
            let inp = input@;
            r@ == if !ecrec_v_ok(inp) {
                Seq::<u8>::empty()
            } else {
                match recovered_key_of(inp.subrange(0, 32), inp.subrange(64, 128), (inp[63] - 27) as u8) {
                    Some(key) => zeros(12) + keccak256_of(key).subrange(12, 32),
                    None => Seq::<u8>::empty(),
                }
            }
        }),
{
    let v = input[63];
    if v != 27 && v != 28 {
        return Vec::new();
    }
    let mut i: usize = 32;
    while i < 63
        invariant
            32 <= i <= 63,
            forall|j: int| 32 <= j < i ==> input@[j] == 0,
        decreases 63 - i,
    {
        if input[i] != 0 {
            return Vec::new();
        }
        i = i + 1;
    }
    let mut message = [0u8; 32];
    let mut k: usize = 0;
    while k < 32
        invariant
            k <= 32,
            message@.len() == 32,
            forall|j: int| 0 <= j < k ==> message@[j] == input@[j],
        decreases 32 - k,
    {
        message[k] = input[k];
        k = k + 1;
    }
    let mut signature: Vec<u8> = Vec::new();
    let mut s: usize = 64;
    while s < 128
        invariant
            64 <= s <= 128,
            signature@ == input@.subrange(64, s as int),
        decreases 128 - s,
    {
        signature.push(input[s]);
        s = s + 1;
        proof {
            assert(signature@ =~= input@.subrange(64, s as int));
        }
    }
    proof {
        assert(message@ =~= input@.subrange(0, 32));
    }
    match recover_key(&message, signature.as_slice(), v - 27) {
        Some(key) => {
            let digest = keccak256(key.as_slice());
            let mut out = zero_bytes(12);
            let mut j: usize = 12;
            while j < 32
                invariant
                    12 <= j <= 32,
                    digest@.len() == 32,
                    out@ == zeros(12) + digest@.subrange(12, j as int),
                decreases 32 - j,
            {
                out.push(digest[j]);
                j = j + 1;
                proof {
                    assert(out@ =~= zeros(12) + digest@.subrange(12, j as int));
                }
            }
            out
        },
        None => Vec::new(),
    }
}

/// The built-in contracts, by address.
#[derive(Clone, Copy, PartialEq, Eq, Debug, Structural)]
pub enum Precompile {
    Ecrec,
    Sha256,
    Ripemd160,
    Identity,
}

/// The built-in contract at an address, if any: 1 to 4.
pub fn precompile_at(address: &crate::u256::U256) -> (r: Option<Precompile>)
    ensures
        address.value() == 1 <==> r == Some(Precompile::Ecrec),
        address.value() == 2 <==> r == Some(Precompile::Sha256),
        address.value() == 3 <==> r == Some(Precompile::Ripemd160),
        address.value() == 4 <==> r == Some(Precompile::Identity),
        (address.value() == 0 || address.value() > 4) <==> r is None,
{
    if !address.fits_u64() {
        return None;
    }
    proof {
        vstd::arithmetic::div_mod::lemma_small_mod(address.value(), crate::u256::limb_base());
    }
    match address.low_u64() {
        1 => Some(Precompile::Ecrec),
        2 => Some(Precompile::Sha256),
        3 => Some(Precompile::Ripemd160),
        4 => Some(Precompile::Identity),
        _ => None,
    }
}

/// The gas a built-in contract charges for an input.
pub open spec fn precompile_cost(p: Precompile, data: Seq<u8>) -> nat {
    match p {
        Precompile::Ecrec => 3000,
        Precompile::Sha256 => 60 + 12 * div_ceil(data.len(), 32),
        Precompile::Ripemd160 => 600 + 120 * div_ceil(data.len(), 32),
        Precompile::Identity => 15 + 3 * div_ceil(data.len(), 32),
    }
}

/// The output of a built-in contract.
pub open spec fn precompile_output(p: Precompile, data: Seq<u8>) -> Seq<u8> {
    match p {
        Precompile::Ecrec => ecrec_output(data),
        Precompile::Sha256 => sha256_of(data),
        Precompile::Ripemd160 => zeros(12) + ripemd160_of(data),
        Precompile::Identity => data,
    }
}

/// Runs a built-in contract within `gas_limit`: its gas and output, or
/// OutOfGas where its cost is above the limit.
pub fn gas_and_step(p: Precompile, data: &[u8], gas_limit: u64) -> (r: Result<(u64, Vec<u8>), ExitError>)
    requires
        data@.len() <= MAX_PRECOMPILE_INPUT,
    ensures
        precompile_cost(p, data@) > gas_limit ==> r == Err::<(u64, Vec<u8>), ExitError>(ExitError::OutOfGas),
        precompile_cost(p, data@) <= gas_limit ==> (r matches Ok((g, out)) && g == precompile_cost(
            p,
            data@,
        ) && out@ == precompile_output(p, data@)),
{
    let gas = match p {
        Precompile::Ecrec => ECRECPrecompiled.gas(data),
        Precompile::Sha256 => SHA256Precompiled.gas(data),
        Precompile::Ripemd160 => RIP160Precompiled.gas(data),
        Precompile::Identity => IDPrecompiled.gas(data),
    };
    if gas > gas_limit {
        return Err(ExitError::OutOfGas);
    }
    let out = match p {
        Precompile::Ecrec => ECRECPrecompiled.step(data),
        Precompile::Sha256 => SHA256Precompiled.step(data),
        Precompile::Ripemd160 => RIP160Precompiled.step(data),
        Precompile::Identity => IDPrecompiled.step(data),
    };
    Ok((gas, out))
}

} // verus!
