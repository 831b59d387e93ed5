//! The certificate pipeline: a post-quantum identity certificate over a
//! fresh key-encapsulation keypair, signed with a post-quantum signature
//! scheme, beside the sealed private key. Persisting the two artifacts
//! is the caller's part; the nonce of the sealing travels prepended to
//! the ciphertext, without which opening would be impossible.

use vstd::prelude::*;
use crate::crypto::{kyber_keypair, falcon_keypair, falcon_sign, basic_encrypt, generate_nonce,
    aead_seal};

verus! {

/// The logging section of the service's configuration.
#[derive(Debug, Clone, PartialEq, Eq)]
pub struct Logging {
    pub level: String,
}

/// The cipher section of the service's configuration: the sealing key
/// and where the artifacts are persisted.
#[derive(Debug, Clone, PartialEq, Eq)]
pub struct Cipher {
    pub key: Vec<u8>,
    pub certificates_path: String,
}

/// The whole configuration of the certificate service.
#[derive(Debug, Clone, PartialEq, Eq)]
pub struct Settings {
    pub logging: Logging,
    pub cipher: Cipher,
}

/// One issued identity certificate. Validity bounds are seconds of the
/// Unix epoch; the serial number is a generated identifier.
#[derive(Debug, Clone, PartialEq, Eq)]
pub struct Certificate {
    pub public_key: Vec<u8>,
    pub identity_info: String,
    pub issuer_info: String,
    pub signature: Vec<u8>,
    pub valid_from: i64,
    pub valid_to: i64,
    pub serial_number: String,
    pub cipher_suits: Vec<String>,
}

/// How many seconds an issued certificate stays valid: one year.
pub const VALIDITY_SECONDS: i64 = 31_536_000;

impl Certificate {
    /// Assembles a certificate over a public key: issuer and identity
    /// are fixed, validity runs one year from `now`, and the suites
    /// offered are kyber768 and falcon.
    pub fn new(public_key: Vec<u8>, signature: Vec<u8>, now: i64, serial_number: String) -> (r:
        Certificate)
        requires
            now <= i64::MAX - VALIDITY_SECONDS,
        ensures
            r.public_key@ == public_key@,
            r.signature@ == signature@,
            r.identity_info@ == "Server"@,
            r.issuer_info@ == "Stuga Cloud Certificate Authority"@,
            r.valid_from == now,
            r.valid_to == now + VALIDITY_SECONDS,
            r.serial_number@ == serial_number@,
            r.cipher_suits.deep_view() == seq!["kyber768"@, "falcon"@],
    {
        let mut suits: Vec<String> = Vec::new();
        suits.push(<String as vstd::string::StringExecFns>::from_str("kyber768"));
        suits.push(<String as vstd::string::StringExecFns>::from_str("falcon"));
        let r = Certificate {
            public_key,
            identity_info: <String as vstd::string::StringExecFns>::from_str("Server"),
            issuer_info: <String as vstd::string::StringExecFns>::from_str(
                "Stuga Cloud Certificate Authority",
            ),
            signature,
            valid_from: now,
            valid_to: now + VALIDITY_SECONDS,
            serial_number,
            cipher_suits: suits,
        };
        proof {
            assert(r.cipher_suits.deep_view() =~= seq!["kyber768"@, "falcon"@]);
        }
        r
    }
}

/// Issues one certificate: a fresh key-encapsulation keypair, its
/// private key sealed under the configured key with a fresh nonce, and
/// a signature over the public key. The nonce stands in front of the
/// ciphertext in the second component. Nothing is issued when a key
/// generation or the sealing fails.
pub fn create_certificate(aes_key: &[u8; 32], now: i64) -> (r: Option<(Certificate, Vec<u8>)>)
    requires
        now <= i64::MAX - VALIDITY_SECONDS,
    ensures
        match r {
            Some((cert, sealed)) => cert.public_key@.len() == 1184 && cert.valid_from == now
                && cert.valid_to == now + VALIDITY_SECONDS && cert.identity_info@ == "Server"@
                && cert.issuer_info@ == "Stuga Cloud Certificate Authority"@
                && cert.cipher_suits.deep_view() == seq!["kyber768"@, "falcon"@]
                && cert.serial_number@.len() == 36 && crate::keys::spec_valid_name(
                cert.serial_number@,
            ) && cert.signature@.len() <= 1184 + 752 && sealed@.len() == 12 + 2400 + 16 && (
            exists|sk: Seq<u8>|
                sk.len() == 2400 && sealed@ == sealed@.subrange(0, 12) + aead_seal(
                    aes_key@,
                    sealed@.subrange(0, 12),
                    sk,
                    Seq::<u8>::empty(),
                )),
            None => true,
        },
{
    let kp = kyber_keypair();
    match kp {
        Some((public_key, secret_key)) => {
            let nonce = match generate_nonce() {
                Some(n) => n,
                None => {
                    return None;
                }
            };
            let aad: Vec<u8> = Vec::new();
            match basic_encrypt(aes_key, &nonce, secret_key.as_slice(), aad.as_slice()) {
                Ok(ciphertext) => {
                    let mut sealed: Vec<u8> = Vec::new();
                    let mut i: usize = 0;
                    while i < 12
                        invariant
                            i <= 12,
                            nonce@.len() == 12,
                            sealed@ == nonce@.subrange(0, i as int),
                        decreases 12 - i,
                    {
                        sealed.push(nonce[i]);
                        proof {
                            assert(nonce@.subrange(0, i + 1) =~= nonce@.subrange(0, i as int).push(
                                nonce@[i as int],
                            ));
                        }
                        i = i + 1;
                    }
                    proof {
                        assert(nonce@.subrange(0, 12) =~= nonce@);
                    }
                    let mut c = ciphertext;
                    let ghost cv = c@;
                    sealed.append(&mut c);
                    let (_falcon_public_key, falcon_secret_key) = falcon_keypair();
                    match falcon_sign(public_key.as_slice(), falcon_secret_key.as_slice()) {
                        Some(signature) => {
                            let serial = crate::store::fresh_id();
                            proof {
                                assert(sealed@.subrange(0, 12) =~= nonce@);
                                assert(sealed@ =~= sealed@.subrange(0, 12) + cv);
                            }
                            let cert = Certificate::new(public_key, signature, now, serial);
                            Some((cert, sealed))
                        }
                        None => None,
                    }
                }
                Err(_) => None,
            }
        }
        None => None,
    }
}

} // verus!
