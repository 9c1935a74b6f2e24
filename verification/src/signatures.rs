use vstd::prelude::*;

use pqcrypto_traits::sign::PublicKey as _;
use pqcrypto_traits::sign::SecretKey as _;
use pqcrypto_traits::sign::SignedMessage as _;

use crate::error::PQFSRError;

verus! {

/// Dilithium-3 public key length in bytes.
pub const SIG_PUBLIC_LEN: usize = 1952;

/// Dilithium-3 secret key length in bytes.
pub const SIG_SECRET_LEN: usize = 4032;

/// Bytes a Dilithium-3 signed message adds on top of the message itself.
pub const SIG_OVERHEAD: usize = 3309;

/// The public key determined by a Dilithium-3 secret key; a secret key
/// fixes its public counterpart. It is pinned only at keypairs that
/// `generate_key_pair` returned.
pub uninterp spec fn sig_pub_of(sk: Seq<u8>) -> Seq<u8>;

/// Whether Dilithium-3 verification accepts `sig` as a signed-message
/// form of `msg` under `pk`; a function of the three arguments alone.
pub uninterp spec fn sig_ok_of(msg: Seq<u8>, sig: Seq<u8>, pk: Seq<u8>) -> bool;

/// Relies on pqcrypto_dilithium::dilithium3::keypair: it returns a fresh
/// keypair in byte-serialized form, 1952-byte public key and 4032-byte
/// secret key, the public key being the one the secret key determines.
#[verifier::external_body]
pub fn generate_key_pair() -> (r: (Vec<u8>, Vec<u8>))
    ensures
        r.0@.len() == SIG_PUBLIC_LEN,
        r.1@.len() == SIG_SECRET_LEN,
        r.0@ == sig_pub_of(r.1@),
{
    let (pk, sk) = pqcrypto_dilithium::dilithium3::keypair();
    (pk.as_bytes().to_vec(), sk.as_bytes().to_vec())
}

/// Relies on pqcrypto_dilithium::dilithium3::sign and open: signing
/// yields a signed message of msg.len() + 3309 bytes that verification
/// under the secret key's public counterpart accepts as signing `msg`.
#[verifier::external_body]
fn sign_raw(message: &[u8], secret_key: &[u8]) -> (r: Vec<u8>)
    requires
        secret_key@.len() == SIG_SECRET_LEN,
    ensures
        r@.len() == message@.len() + SIG_OVERHEAD,
        sig_ok_of(message@, r@, sig_pub_of(secret_key@)),
{
    let sk: pqcrypto_dilithium::dilithium3::SecretKey =
        pqcrypto_traits::sign::SecretKey::from_bytes(secret_key)
            .expect("secret key length checked");
    let signed = pqcrypto_dilithium::dilithium3::sign(message, &sk);
    signed.as_bytes().to_vec()
}

/// Relies on pqcrypto_dilithium::dilithium3::open: whether the signed
/// message opens under `pk` to exactly `message` is a function of
/// (message, signature, pk) alone.
#[verifier::external_body]
fn verify_raw(message: &[u8], signature: &[u8], public_key: &[u8]) -> (r: bool)
    requires
        public_key@.len() == SIG_PUBLIC_LEN,
    ensures
        r == sig_ok_of(message@, signature@, public_key@),
{
    let pk: pqcrypto_dilithium::dilithium3::PublicKey =
        pqcrypto_traits::sign::PublicKey::from_bytes(public_key)
            .expect("public key length checked");
    let sig: pqcrypto_dilithium::dilithium3::SignedMessage =
        pqcrypto_traits::sign::SignedMessage::from_bytes(signature)
            .expect("signed messages accept any length");
    match pqcrypto_dilithium::dilithium3::open(&sig, &pk) {
        Ok(decoded) => decoded == message,
        Err(_) => false,
    }
}

/// Sign a message with a byte-serialized Dilithium-3 secret key. Fails
/// with `InvalidKeyFormat` exactly when the key has the wrong length.
pub fn sign_message(message: &[u8], secret_key: &[u8]) -> (r: Result<Vec<u8>, PQFSRError>)
    ensures
        match r {
            Ok(s) => secret_key@.len() == SIG_SECRET_LEN && s@.len() == message@.len()
                + SIG_OVERHEAD && sig_ok_of(message@, s@, sig_pub_of(secret_key@)),
            Err(e) => secret_key@.len() != SIG_SECRET_LEN && e == PQFSRError::InvalidKeyFormat,
        },
{
    if secret_key.len() != SIG_SECRET_LEN {
        return Err(PQFSRError::InvalidKeyFormat);
    }
    Ok(sign_raw(message, secret_key))
}

/// Verify a Dilithium-3 signed message against a byte-serialized public
/// key. Returns whether verification accepts; fails with
/// `InvalidKeyFormat` exactly when the key has the wrong length.
pub fn verify_signature(message: &[u8], signature: &[u8], public_key: &[u8]) -> (r: Result<
    bool,
    PQFSRError,
>)
    ensures
        match r {
            Ok(ok) => public_key@.len() == SIG_PUBLIC_LEN && ok == sig_ok_of(
                message@,
                signature@,
                public_key@,
            ),
            Err(e) => public_key@.len() != SIG_PUBLIC_LEN && e == PQFSRError::InvalidKeyFormat,
        },
{
    if public_key.len() != SIG_PUBLIC_LEN {
        return Err(PQFSRError::InvalidKeyFormat);
    }
    Ok(verify_raw(message, signature, public_key))
}

} // verus!
