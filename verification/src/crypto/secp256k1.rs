//! secp256k1 ECDSA: signature verification against a public key, public key
//! recovery, and address recovery, over 32-byte message hashes.
//!
//! The curve arithmetic of verification and recovery is k256's; this module
//! checks the inputs, maps the outcomes to its own errors, and derives addresses.

use vstd::prelude::*;
use k256::ecdsa::signature::hazmat::PrehashVerifier;
use crate::crypto::keccak::{keccak256, keccak256_spec};
use crate::crypto::secp256k1_math::{secp256k1_n, secp256k1_n_spec};
use crate::types::{Address, U256, be_val};

verus! {

/// Errors of signature verification and recovery.
#[derive(Debug, Clone, Copy, PartialEq, Eq, Structural)]
pub enum Secp256k1Error {
    /// The signature is not 64 bytes, or `r` or `s` is outside `1..n`.
    InvalidSignature,
    /// The recovery id is above 3.
    InvalidRecoveryId,
    /// The public key is not 64 bytes, or not a point of the curve.
    InvalidPublicKey,
    /// No public key could be recovered.
    VerificationFailed,
}

// =============================================================================
// What k256 computes
// =============================================================================

/// Whether 64 bytes form a signature `r ‖ s` with `r` and `s` both in `1..n`
/// (big-endian), which is what k256 accepts as a signature.
pub open spec fn signature_in_range(sig: Seq<u8>) -> bool {
    &&& sig.len() == 64
    &&& 0 < be_val(sig.subrange(0, 32)) < secp256k1_n_spec()
    &&& 0 < be_val(sig.subrange(32, 64)) < secp256k1_n_spec()
}

/// The uncompressed SEC1 encoding of the public key that k256 recovers from a
/// prehash, a signature and a recovery id, or `None` when it recovers none.
pub uninterp spec fn recovered_key(prehash: Seq<u8>, signature: Seq<u8>, recovery_id: u8) -> Option<
    Seq<u8>,
>;

/// Whether k256 accepts a SEC1 encoding as a public key.
pub uninterp spec fn sec1_key_valid(key: Seq<u8>) -> bool;

/// Whether k256 accepts a signature over a prehash for a SEC1 public key.
pub uninterp spec fn prehash_verifies(key: Seq<u8>, prehash: Seq<u8>, signature: Seq<u8>) -> bool;

/// `k256::ecdsa::VerifyingKey::recover_from_prehash`: the public key recovered
/// from a 32-byte prehash, an in-range signature and a recovery id at most 3,
/// as its uncompressed SEC1 encoding (`0x04`, then X and Y), or `None` when k256
/// recovers no key. The signature and id are handed to k256 in its own types,
/// and the key taken back with `to_encoded_point(false)`.
#[verifier::external_body]
fn recover_encoded_key(prehash: &[u8], signature: &[u8], recovery_id: u8) -> (r: Option<Vec<u8>>)
    requires
        prehash@.len() == 32,
        signature_in_range(signature@),
        recovery_id <= 3,
    ensures
        match r {
            Some(v) => recovered_key(prehash@, signature@, recovery_id) == Some(v@) && v@.len()
                == 65 && v@[0] == 4,
            None => recovered_key(prehash@, signature@, recovery_id) is None,
        },
{
    let sig = k256::ecdsa::Signature::try_from(signature).ok()?;
    let recid = k256::ecdsa::RecoveryId::from_byte(recovery_id)?;
    let key = k256::ecdsa::VerifyingKey::recover_from_prehash(prehash, &sig, recid).ok()?;
    Some(key.to_encoded_point(false).as_bytes().to_vec())
}

/// `k256::ecdsa::VerifyingKey::from_sec1_bytes`: whether the bytes decode to a
/// public key.
#[verifier::external_body]
fn sec1_key_is_valid(key: &[u8]) -> (r: bool)
    ensures
        r == sec1_key_valid(key@),
{
    k256::ecdsa::VerifyingKey::from_sec1_bytes(key).is_ok()
}

/// `verify_prehash` of k256's verifying key: whether the signature is valid over
/// the prehash for the key, both handed to k256 in its own types.
#[verifier::external_body]
fn prehash_signature_is_valid(key: &[u8], prehash: &[u8], signature: &[u8]) -> (r: bool)
    requires
        sec1_key_valid(key@),
        prehash@.len() == 32,
        signature_in_range(signature@),
    ensures
        r == prehash_verifies(key@, prehash@, signature@),
{
    let vk = match k256::ecdsa::VerifyingKey::from_sec1_bytes(key) {
        Ok(k) => k,
        Err(_) => return false,
    };
    let sig = match k256::ecdsa::Signature::try_from(signature) {
        Ok(s) => s,
        Err(_) => return false,
    };
    vk.verify_prehash(prehash, &sig).is_ok()
}

// =============================================================================
// Verification and recovery
// =============================================================================

/// Whether 64 bytes hold `r` and `s` both in `1..n`.
pub fn signature_is_in_range(signature: &[u8]) -> (r: bool)
    requires
        signature@.len() == 64,
    ensures
        r == signature_in_range(signature@),
{
    let n = secp256k1_n();
    let r_part = U256::from_be_slice(&signature[0..32]);
    let s_part = U256::from_be_slice(&signature[32..64]);
    proof {
        assert(signature@.subrange(0, 32) =~= signature@.subrange(0, 32));
    }
    !r_part.is_zero() && r_part.lt(&n) && !s_part.is_zero() && s_part.lt(&n)
}

/// `0x04` followed by the 64 bytes of a public key: its uncompressed SEC1 form.
pub open spec fn sec1_uncompressed(public_key: Seq<u8>) -> Seq<u8> {
    seq![4u8] + public_key
}

/// Verifies a 64-byte signature `r ‖ s` over a message hash against a 64-byte
/// public key `X ‖ Y`. A signature that is not 64 bytes, or whose `r` or `s` is
/// out of range, is invalid; a key that is not 64 bytes, or not a curve point, is
/// invalid; otherwise the answer is whether k256 accepts the signature.
pub fn verify_signature(
    message_hash: &crate::types::Hash,
    signature: &[u8],
    public_key: &[u8],
) -> (r: Result<bool, Secp256k1Error>)
    ensures
        signature@.len() != 64 ==> r == Err::<bool, Secp256k1Error>(
            Secp256k1Error::InvalidSignature,
        ),
        signature@.len() == 64 && public_key@.len() != 64 ==> r == Err::<bool, Secp256k1Error>(
            Secp256k1Error::InvalidPublicKey,
        ),
        signature@.len() == 64 && public_key@.len() == 64 && !signature_in_range(signature@)
            ==> r == Err::<bool, Secp256k1Error>(Secp256k1Error::InvalidSignature),
        signature_in_range(signature@) && public_key@.len() == 64 && !sec1_key_valid(
            sec1_uncompressed(public_key@),
        ) ==> r == Err::<bool, Secp256k1Error>(Secp256k1Error::InvalidPublicKey),
        signature_in_range(signature@) && public_key@.len() == 64 && sec1_key_valid(
            sec1_uncompressed(public_key@),
        ) ==> r == Ok::<bool, Secp256k1Error>(
            prehash_verifies(sec1_uncompressed(public_key@), message_hash@, signature@),
        ),
{
    if signature.len() != 64 {
        return Err(Secp256k1Error::InvalidSignature);
    }
    if public_key.len() != 64 {
        return Err(Secp256k1Error::InvalidPublicKey);
    }
    if !signature_is_in_range(signature) {
        return Err(Secp256k1Error::InvalidSignature);
    }
    let mut pk_bytes: Vec<u8> = Vec::new();
    pk_bytes.push(4);
    crate::types::extend_bytes(&mut pk_bytes, public_key);
    proof {
        assert(pk_bytes@ =~= sec1_uncompressed(public_key@));
    }
    if !sec1_key_is_valid(pk_bytes.as_slice()) {
        return Err(Secp256k1Error::InvalidPublicKey);
    }
    Ok(prehash_signature_is_valid(pk_bytes.as_slice(), message_hash.as_bytes(), signature))
}

/// Recovers the 64-byte public key `X ‖ Y` from a message hash, a 64-byte
/// signature and a recovery id (0 to 3). A signature that is not 64 bytes or out
/// of range is invalid; an id above 3 is invalid; when k256 recovers no key,
/// verification failed.
pub fn recover_public_key(
    message_hash: &crate::types::Hash,
    signature: &[u8],
    recovery_id: u8,
) -> (r: Result<[u8; 64], Secp256k1Error>)
    ensures
        signature@.len() != 64 ==> r == Err::<[u8; 64], Secp256k1Error>(
            Secp256k1Error::InvalidSignature,
        ),
        signature@.len() == 64 && recovery_id > 3 ==> r == Err::<[u8; 64], Secp256k1Error>(
            Secp256k1Error::InvalidRecoveryId,
        ),
        signature@.len() == 64 && recovery_id <= 3 && !signature_in_range(signature@) ==> r
            == Err::<[u8; 64], Secp256k1Error>(Secp256k1Error::InvalidSignature),
        signature_in_range(signature@) && recovery_id <= 3 ==> match recovered_key(
            message_hash@,
            signature@,
            recovery_id,
        ) {
            None => r == Err::<[u8; 64], Secp256k1Error>(Secp256k1Error::VerificationFailed),
            Some(k) => r matches Ok(pk) && pk@ == k.subrange(1, 65),
        },
{
    if signature.len() != 64 {
        return Err(Secp256k1Error::InvalidSignature);
    }
    if recovery_id > 3 {
        return Err(Secp256k1Error::InvalidRecoveryId);
    }
    if !signature_is_in_range(signature) {
        return Err(Secp256k1Error::InvalidSignature);
    }
    let encoded = match recover_encoded_key(message_hash.as_bytes(), signature, recovery_id) {
        Some(v) => v,
        None => {
            return Err(Secp256k1Error::VerificationFailed);
        },
    };
    let mut result = [0u8; 64];
    let mut i: usize = 0;
    while i < 64
        invariant
            i <= 64,
            encoded@.len() == 65,
            forall|j: int| 0 <= j < i ==> result@[j] == encoded@[j + 1],
        decreases 64 - i,
    {
        result[i] = encoded[i + 1];
        i = i + 1;
    }
    proof {
        assert(result@ =~= encoded@.subrange(1, 65));
    }
    Ok(result)
}

/// The address of a 64-byte public key: the last 20 bytes of its Keccak-256 hash.
pub open spec fn address_of_key(public_key: Seq<u8>) -> Seq<u8> {
    keccak256_spec(public_key).subrange(12, 32)
}

/// Recovers the signer's address: the address of the recovered public key, with
/// the errors of `recover_public_key`.
pub fn recover_address(
    message_hash: &crate::types::Hash,
    signature: &[u8],
    recovery_id: u8,
) -> (r: Result<Address, Secp256k1Error>)
    ensures
        signature@.len() != 64 ==> r == Err::<Address, Secp256k1Error>(
            Secp256k1Error::InvalidSignature,
        ),
        signature@.len() == 64 && recovery_id > 3 ==> r == Err::<Address, Secp256k1Error>(
            Secp256k1Error::InvalidRecoveryId,
        ),
        signature@.len() == 64 && recovery_id <= 3 && !signature_in_range(signature@) ==> r
            == Err::<Address, Secp256k1Error>(Secp256k1Error::InvalidSignature),
        signature_in_range(signature@) && recovery_id <= 3 ==> match recovered_key(
            message_hash@,
            signature@,
            recovery_id,
        ) {
            None => r == Err::<Address, Secp256k1Error>(Secp256k1Error::VerificationFailed),
            Some(k) => r matches Ok(a) && a@ == address_of_key(k.subrange(1, 65)),
        },
{
    let public_key = recover_public_key(message_hash, signature, recovery_id)?;
    let hash = keccak256(&public_key);
    let mut bytes = [0u8; 20];
    let mut i: usize = 0;
    while i < 20
        invariant
            i <= 20,
            hash@.len() == 32,
            forall|j: int| 0 <= j < i ==> bytes@[j] == hash@[j + 12],
        decreases 20 - i,
    {
        bytes[i] = hash.bytes[i + 12];
        i = i + 1;
    }
    proof {
        assert(bytes@ =~= hash@.subrange(12, 32));
    }
    Ok(Address::new(bytes))
}

} // verus!
