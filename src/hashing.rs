//! The digests and the signature recovery the machine relies on, computed by
//! outside crates. Each result is named by a spec function of its inputs.
use vstd::prelude::*;
use ripemd160::Ripemd160;
use secp256k1::ecdsa::{RecoverableSignature, RecoveryId};
use secp256k1::Message;
use sha2::Sha256;
use sha3::{Digest, Keccak256};

verus! {

/// The SHA-256 digest of a byte string.
pub uninterp spec fn sha256_of(data: Seq<u8>) -> Seq<u8>;

/// The RIPEMD-160 digest of a byte string.
pub uninterp spec fn ripemd160_of(data: Seq<u8>) -> Seq<u8>;

/// The Keccak-256 digest of a byte string.
pub uninterp spec fn keccak256_of(data: Seq<u8>) -> Seq<u8>;

/// The 64-byte uncompressed public key (without its prefix byte) that signed
/// the 32-byte `message` with the 64-byte compact `signature` and recovery id
/// `recid`, if there is one.
pub uninterp spec fn recovered_key_of(message: Seq<u8>, signature: Seq<u8>, recid: u8) -> Option<Seq<u8>>;

/// Relies on sha2's `Sha256::digest`: the 32-byte SHA-256 digest of the input.
#[verifier::external_body]
pub(crate) fn sha256(data: &[u8]) -> (r: Vec<u8>)
    ensures
        r@ == sha256_of(data@),
        r@.len() == 32,
{
    Sha256::digest(data).to_vec()
}

/// Relies on ripemd160's `Ripemd160::digest`: the 20-byte RIPEMD-160 digest of the input.
#[verifier::external_body]
pub(crate) fn ripemd160(data: &[u8]) -> (r: Vec<u8>)
    ensures
        r@ == ripemd160_of(data@),
        r@.len() == 20,
{
    <Ripemd160 as ripemd160::Digest>::digest(data).to_vec()
}

/// Relies on sha3's `Keccak256::digest`: the 32-byte Keccak-256 digest of the input.
#[verifier::external_body]
pub(crate) fn keccak256(data: &[u8]) -> (r: Vec<u8>)
    ensures
        r@ == keccak256_of(data@),
        r@.len() == 32,
{
    Keccak256::digest(data).to_vec()
}

/// Relies on secp256k1's `RecoveryId::try_from`, `RecoverableSignature::from_compact`
/// and `RecoverableSignature::recover_ecdsa`, and on `PublicKey::serialize_uncompressed`,
/// whose 65 bytes are a prefix byte and the 64 bytes of the key.
#[verifier::external_body]
pub(crate) fn recover_key(message: &[u8; 32], signature: &[u8], recid: u8) -> (r: Option<Vec<u8>>)
    ensures
        r matches Some(k) ==> recovered_key_of(message@, signature@, recid) == Some(k@) && k@.len()
            == 64,
        r is None ==> recovered_key_of(message@, signature@, recid) is None,
{
    let id = RecoveryId::try_from(recid as i32).ok()?;
    let sig = RecoverableSignature::from_compact(signature, id).ok()?;
    let key = sig.recover_ecdsa(Message::from_digest(*message)).ok()?;
    Some(key.serialize_uncompressed()[1..65].to_vec())
}

} // verus!
