use vstd::prelude::*;
use vstd::slice::slice_subrange;
use aes_gcm::aead::Aead;
use aes_gcm::KeyInit;
use rand::Rng;
use sha3::Digest;

use crate::errors::RabeError;

verus! {

/// The SHA3-256 digest of a byte string.
pub uninterp spec fn digest_of(data: Seq<u8>) -> Seq<u8>;

/// The AES-256-GCM sealing of a plaintext under a 32-byte key and a
/// 12-byte nonce: the ciphertext with the authentication tag behind it.
pub uninterp spec fn sealed(key: Seq<u8>, nonce: Seq<u8>, pt: Seq<u8>) -> Seq<u8>;

/// The longest plaintext AES-256-GCM seals: longer inputs are refused by
/// the cipher itself.
pub open spec fn aead_pt_max() -> int {
    68719476704
}

/// `ct` is a well-formed envelope under `key` holding `pt`: a 12-byte nonce
/// in front, the sealing of `pt` under that nonce behind it.
pub open spec fn opens_to(key: Seq<u8>, ct: Seq<u8>, pt: Seq<u8>) -> bool {
    ct.len() >= 12 && ct.subrange(12, ct.len() as int) == sealed(key, ct.subrange(0, 12), pt)
}

/// Relies on `sha3::Sha3_256::digest`: a 32-byte hash, a pure function of
/// the input bytes.
#[verifier::external_body]
fn sha3_256(data: &[u8]) -> (r: Vec<u8>)
    ensures
        r@ == digest_of(data@),
        r@.len() == 32,
{
    sha3::Sha3_256::digest(data).to_vec()
}

/// Relies on `rand::thread_rng` and `Rng::fill`: twelve random bytes.
/// Nothing is promised of the values.
#[verifier::external_body]
fn random_nonce() -> (r: Vec<u8>)
    ensures
        r@.len() == 12,
{
    let mut nonce = [0u8; 12];
    rand::thread_rng().fill(&mut nonce);
    nonce.to_vec()
}

/// Relies on `aes_gcm::Aes256Gcm` (`KeyInit::new_from_slice`,
/// `Aead::encrypt` with empty associated data): sealing is a pure function
/// of key, nonce and plaintext, and fails exactly when the plaintext is
/// longer than the cipher's published bound.
#[verifier::external_body]
fn aead_seal(key: &[u8], nonce: &[u8], pt: &[u8]) -> (r: Option<Vec<u8>>)
    requires
        key@.len() == 32,
        nonce@.len() == 12,
    ensures
        r matches Some(c) ==> c@ == sealed(key@, nonce@, pt@),
        r is Some <==> pt@.len() <= aead_pt_max(),
{
    let cipher = match aes_gcm::Aes256Gcm::new_from_slice(key) {
        Ok(c) => c,
        Err(_) => {
            return None;
        },
    };
    let nonce_arr = match aes_gcm::Nonce::try_from(nonce) {
        Ok(v) => v,
        Err(_) => {
            return None;
        },
    };
    cipher.encrypt(&nonce_arr, pt).ok()
}

/// Relies on `aes_gcm::Aes256Gcm` (`KeyInit::new_from_slice`,
/// `Aead::decrypt` with empty associated data): decryption inverts
/// `Aead::encrypt` under the same key and nonce, returns the one plaintext
/// that seals to the ciphertext, and fails exactly when no plaintext does
/// (the tag does not authenticate).
#[verifier::external_body]
fn aead_open(key: &[u8], nonce: &[u8], ct: &[u8]) -> (r: Option<Vec<u8>>)
    requires
        key@.len() == 32,
        nonce@.len() == 12,
    ensures
        r matches Some(pt) ==> ct@ == sealed(key@, nonce@, pt@) && (forall|q: Seq<u8>|
            sealed(key@, nonce@, q) == ct@ ==> q == pt@),
        r is None ==> forall|q: Seq<u8>| sealed(key@, nonce@, q) != ct@,
{
    let cipher = match aes_gcm::Aes256Gcm::new_from_slice(key) {
        Ok(c) => c,
        Err(_) => {
            return None;
        },
    };
    let nonce_arr = match aes_gcm::Nonce::try_from(nonce) {
        Ok(v) => v,
        Err(_) => {
            return None;
        },
    };
    cipher.decrypt(&nonce_arr, ct).ok()
}

/// Seal `plaintext` under the symmetric key derived from `key_src` by
/// SHA3-256: a fresh 12-byte nonce in front, the AES-256-GCM sealing behind
/// it. On success the result is an envelope that opens, under the same key
/// source, to exactly `plaintext`; sealing succeeds for every plaintext the
/// cipher can carry.
pub fn encrypt_symmetric(key_src: &Vec<u8>, plaintext: &[u8]) -> (r: Result<Vec<u8>, RabeError>)
    ensures
        r matches Ok(c) ==> opens_to(digest_of(key_src@), c@, plaintext@),
        r matches Err(e) ==> e == RabeError::SymmetricFailure,
        r is Ok <==> plaintext@.len() <= aead_pt_max(),
{
    let key = sha3_256(key_src.as_slice());
    let mut out = random_nonce();
    let body = match aead_seal(key.as_slice(), out.as_slice(), plaintext) {
        Some(c) => c,
        None => {
            return Err(RabeError::SymmetricFailure);
        },
    };
    let ghost nonce_view = out@;
    let mut tail = body;
    out.append(&mut tail);
    proof {
        assert(out@.subrange(0, 12) =~= nonce_view);
        assert(out@.subrange(12, out@.len() as int) =~= sealed(
            digest_of(key_src@),
            nonce_view,
            plaintext@,
        ));
    }
    Ok(out)
}

/// Open an envelope made by [`encrypt_symmetric`] under the key derived
/// from `key_src`. Returns the one plaintext the envelope holds; fails
/// exactly when the envelope is too short for a nonce or no plaintext seals
/// to its body under this key.
pub fn decrypt_symmetric(key_src: &Vec<u8>, ct: &[u8]) -> (r: Result<Vec<u8>, RabeError>)
    ensures
        r matches Ok(pt) ==> opens_to(digest_of(key_src@), ct@, pt@),
        r matches Ok(pt) ==> forall|q: Seq<u8>| opens_to(digest_of(key_src@), ct@, q) ==> q
            == pt@,
        r matches Err(e) ==> e == RabeError::SymmetricFailure && (forall|q: Seq<u8>|
            !opens_to(digest_of(key_src@), ct@, q)),
{
    if ct.len() < 12 {
        return Err(RabeError::SymmetricFailure);
    }
    let key = sha3_256(key_src.as_slice());
    let nonce = slice_subrange(ct, 0, 12);
    let body = slice_subrange(ct, 12, ct.len());
    match aead_open(key.as_slice(), nonce, body) {
        Some(pt) => {
            proof {
                assert(opens_to(digest_of(key_src@), ct@, pt@));
            }
            Ok(pt)
        },
        None => Err(RabeError::SymmetricFailure),
    }
}

} // verus!
