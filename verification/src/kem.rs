use vstd::prelude::*;

use pqcrypto_traits::kem::Ciphertext as _;
use pqcrypto_traits::kem::PublicKey as _;
use pqcrypto_traits::kem::SecretKey as _;
use pqcrypto_traits::kem::SharedSecret as _;

verus! {

/// Kyber-768 public key length in bytes.
pub const KEM_PUBLIC_LEN: usize = 1184;

/// Kyber-768 secret key length in bytes.
pub const KEM_SECRET_LEN: usize = 2400;

/// Kyber-768 ciphertext length in bytes.
pub const KEM_CIPHERTEXT_LEN: usize = 1088;

/// Kyber-768 shared secret length in bytes.
pub const KEM_SHARED_LEN: usize = 32;

/// The public key determined by a Kyber-768 secret key. A secret key
/// embeds its public key, so this is a function of the secret key alone;
/// it is pinned only at keypairs that `kem_keypair` returned.
pub uninterp spec fn kem_pub_of(sk: Seq<u8>) -> Seq<u8>;

/// The shared secret that Kyber-768 decapsulation computes from a
/// ciphertext and a secret key; a function of the two arguments alone.
pub uninterp spec fn kem_decap_of(ct: Seq<u8>, sk: Seq<u8>) -> Seq<u8>;

/// Relies on pqcrypto_kyber::kyber768::keypair: it returns a fresh
/// keypair in byte-serialized form, 1184-byte public key and 2400-byte
/// secret key, the public key being the one embedded in the secret key.
#[verifier::external_body]
pub fn kem_keypair() -> (r: (Vec<u8>, Vec<u8>))
    ensures
        r.0@.len() == KEM_PUBLIC_LEN,
        r.1@.len() == KEM_SECRET_LEN,
        r.0@ == kem_pub_of(r.1@),
{
    let (pk, sk) = pqcrypto_kyber::kyber768::keypair();
    (pk.as_bytes().to_vec(), sk.as_bytes().to_vec())
}

/// Relies on pqcrypto_kyber::kyber768::encapsulate: against a 1184-byte
/// public key it returns a 1088-byte ciphertext and a 32-byte shared
/// secret, and by Kyber-768 correctness, decapsulating that ciphertext
/// with any secret key whose embedded public key is the target recovers
/// the same shared secret.
#[verifier::external_body]
pub fn kem_encapsulate(pk: &[u8]) -> (r: (Vec<u8>, Vec<u8>))
    requires
        pk@.len() == KEM_PUBLIC_LEN,
    ensures
        r.0@.len() == KEM_CIPHERTEXT_LEN,
        r.1@.len() == KEM_SHARED_LEN,
        forall|sk: Seq<u8>|
            kem_pub_of(sk) == pk@ ==> #[trigger] kem_decap_of(r.0@, sk) == r.1@,
{
    let pk: pqcrypto_kyber::kyber768::PublicKey =
        pqcrypto_traits::kem::PublicKey::from_bytes(pk).expect("public key length checked");
    let (ss, ct): (
        pqcrypto_kyber::kyber768::SharedSecret,
        pqcrypto_kyber::kyber768::Ciphertext,
    ) = pqcrypto_kyber::kyber768::encapsulate(&pk);
    (ct.as_bytes().to_vec(), ss.as_bytes().to_vec())
}

/// Relies on pqcrypto_kyber::kyber768::decapsulate: the 32-byte result is
/// a function of the ciphertext and the secret key alone.
#[verifier::external_body]
pub fn kem_decapsulate(ct: &[u8], sk: &[u8]) -> (r: Vec<u8>)
    requires
        ct@.len() == KEM_CIPHERTEXT_LEN,
        sk@.len() == KEM_SECRET_LEN,
    ensures
        r@ == kem_decap_of(ct@, sk@),
        r@.len() == KEM_SHARED_LEN,
{
    let ct: pqcrypto_kyber::kyber768::Ciphertext =
        pqcrypto_traits::kem::Ciphertext::from_bytes(ct).expect("ciphertext length checked");
    let sk: pqcrypto_kyber::kyber768::SecretKey =
        pqcrypto_traits::kem::SecretKey::from_bytes(sk).expect("secret key length checked");
    let ss: pqcrypto_kyber::kyber768::SharedSecret =
        pqcrypto_kyber::kyber768::decapsulate(&ct, &sk);
    ss.as_bytes().to_vec()
}

} // verus!
