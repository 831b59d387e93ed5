//! The cryptographic helpers: authenticated sealing and opening with
//! AES-GCM-SIV, post-quantum key generation and signing, and random key
//! material. Each outside call stands behind one trusted declaration;
//! what depends on chance promises only what holds of every outcome.

use vstd::prelude::*;
use aes_gcm_siv::{aead::Aead, aead::Payload, Aes256GcmSiv, KeyInit};
use pqcrypto_traits::sign::{PublicKey as FalconPublicKey, SecretKey as FalconSecretKey,
    SignedMessage as FalconSignedMessage};

verus! {

/// What sealing or opening can report.
#[derive(Debug, Clone, Copy, PartialEq, Eq, Structural)]
pub enum AesError {
    Encrypt,
    Decrypt,
}

/// The ciphertext-and-tag that sealing a plaintext under a key, a nonce
/// and associated data yields. Sealing is deterministic in these four
/// arguments; the caller draws a fresh nonce for every sealing.
pub uninterp spec fn aead_seal(
    key: Seq<u8>,
    nonce: Seq<u8>,
    plaintext: Seq<u8>,
    aad: Seq<u8>,
) -> Seq<u8>;

/// Relies on `Aes256GcmSiv::encrypt`: deterministic in key, nonce,
/// plaintext and associated data, and the output is the ciphertext with
/// the sixteen-byte tag appended.
#[verifier::external_body]
pub fn basic_encrypt(key: &[u8; 32], nonce: &[u8; 12], plaintext: &[u8], associated_data: &[u8])
    -> (r: Result<Vec<u8>, AesError>)
    ensures
        r matches Ok(c) ==> c@ == aead_seal(key@, nonce@, plaintext@, associated_data@) && c@.len()
            == plaintext@.len() + 16,
{
    let cipher = Aes256GcmSiv::new(key.into());
    let payload = Payload { msg: plaintext, aad: associated_data };
    cipher.encrypt(nonce.into(), payload).map_err(|_| AesError::Encrypt)
}

/// Relies on `Aes256GcmSiv::decrypt`: it accepts exactly the outputs of
/// sealing under the same key, nonce and associated data, and hands the
/// sealed plaintext back.
#[verifier::external_body]
pub fn basic_decrypt(key: &[u8; 32], nonce: &[u8; 12], ciphertext: &[u8], associated_data: &[u8])
    -> (r: Result<Vec<u8>, AesError>)
    ensures
        r matches Ok(p) ==> ciphertext@ == aead_seal(key@, nonce@, p@, associated_data@),
        (exists|p: Seq<u8>|
            ciphertext@ == aead_seal(key@, nonce@, p, associated_data@)) ==> r is Ok,
        r matches Ok(p) ==> forall|p2: Seq<u8>|
            ciphertext@ == aead_seal(key@, nonce@, p2, associated_data@) ==> p2 == p@,
{
    let cipher = Aes256GcmSiv::new(key.into());
    let payload = Payload { msg: ciphertext, aad: associated_data };
    cipher.decrypt(nonce.into(), payload).map_err(|_| AesError::Decrypt)
}

/// Relies on `getrandom::getrandom`: fills the buffer from the system's
/// random source, and hands a failing source back as nothing. Nothing
/// can be promised of the drawn bytes.
#[verifier::external_body]
pub fn generate_key() -> (r: Option<[u8; 32]>)
    ensures
        r matches Some(k) ==> k@.len() == 32,
{
    let mut key = [0u8; 32];
    match getrandom::getrandom(&mut key) {
        Ok(()) => Some(key),
        Err(_) => None,
    }
}

/// Relies on `getrandom::getrandom`: a fresh 96-bit nonce, and a
/// failing source handed back as nothing.
#[verifier::external_body]
pub fn generate_nonce() -> (r: Option<[u8; 12]>)
    ensures
        r matches Some(n) ==> n@.len() == 12,
{
    let mut nonce = [0u8; 12];
    match getrandom::getrandom(&mut nonce) {
        Ok(()) => Some(nonce),
        Err(_) => None,
    }
}

/// Relies on `pqc_kyber::keypair` at the kyber768 parameter set: a
/// fresh keypair with a 1184-byte public key and a 2400-byte secret
/// key, or nothing when the random source fails.
#[verifier::external_body]
pub fn kyber_keypair() -> (r: Option<(Vec<u8>, Vec<u8>)>)
    ensures
        r matches Some((pk, sk)) ==> pk@.len() == 1184 && sk@.len() == 2400,
{
    let mut rng = rand::thread_rng();
    match pqc_kyber::keypair(&mut rng) {
        Ok(kp) => Some((kp.public.to_vec(), kp.secret.to_vec())),
        Err(_) => None,
    }
}

/// Relies on `pqcrypto_falcon::falcon512::keypair`: a fresh signing
/// keypair with a 897-byte public key and a 1281-byte secret key. A
/// failing random source aborts inside the callee and cannot be handed
/// back.
#[verifier::external_body]
pub fn falcon_keypair() -> (r: (Vec<u8>, Vec<u8>))
    ensures
        r.0@.len() == 897,
        r.1@.len() == 1281,
{
    let (pk, sk) = pqcrypto_falcon::falcon512::keypair();
    (FalconPublicKey::as_bytes(&pk).to_vec(), FalconSecretKey::as_bytes(&sk).to_vec())
}

/// Relies on `pqcrypto_falcon::falcon512::sign`: a signed message of at
/// most the message's length plus the 752-byte signature bound, signed
/// exactly when the key has the scheme's 1281 bytes. Signing draws
/// randomness, so only the length bound holds of every outcome.
#[verifier::external_body]
pub fn falcon_sign(message: &[u8], secret_key: &[u8]) -> (r: Option<Vec<u8>>)
    ensures
        r matches Some(s) ==> s@.len() <= message@.len() + 752,
        r is Some <==> secret_key@.len() == 1281,
{
    match <pqcrypto_falcon::falcon512::SecretKey as FalconSecretKey>::from_bytes(secret_key) {
        Ok(sk) => Some(
            FalconSignedMessage::as_bytes(&pqcrypto_falcon::falcon512::sign(message, &sk)).to_vec(),
        ),
        Err(_) => None,
    }
}

} // verus!
