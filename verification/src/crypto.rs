use vstd::prelude::*;

use chacha20poly1305::aead::Aead;
use chacha20poly1305::KeyInit;
use sha2::Digest;
use subtle::ConstantTimeEq;

use crate::error::PQFSRError;

verus! {

/// The digest that SHA-256 computes for a byte string. The digest is a
/// function of the input alone; its 32-byte length is stated at the
/// trusted boundary below.
pub uninterp spec fn sha256_of(data: Seq<u8>) -> Seq<u8>;

/// The output that HKDF-SHA256 expands from (salt, ikm, info) at a given
/// length. The output is a function of the arguments alone.
pub uninterp spec fn hkdf_of(salt: Seq<u8>, ikm: Seq<u8>, info: Seq<u8>, len: nat) -> Seq<u8>;

/// The ciphertext-with-tag that ChaCha20-Poly1305 produces for
/// (key, nonce, plaintext, ad). Encryption is deterministic in these
/// arguments.
pub uninterp spec fn aead_enc_of(key: Seq<u8>, nonce: Seq<u8>, pt: Seq<u8>, ad: Seq<u8>) -> Seq<u8>;

/// What ChaCha20-Poly1305 decryption returns for (key, nonce, ct, ad):
/// the recovered plaintext, or `None` when authentication fails.
pub uninterp spec fn aead_dec_of(key: Seq<u8>, nonce: Seq<u8>, ct: Seq<u8>, ad: Seq<u8>) -> Option<
    Seq<u8>,
>;

/// Relies on sha2::Sha256 (new/update/finalize): the digest depends on the
/// input bytes alone and is exactly 32 bytes.
#[verifier::external_body]
pub fn sha256(data: &[u8]) -> (r: Vec<u8>)
    ensures
        r@ == sha256_of(data@),
        r@.len() == 32,
{
    let mut hasher = sha2::Sha256::new();
    hasher.update(data);
    hasher.finalize().to_vec()
}

/// Relies on hkdf::Hkdf::<Sha256>::new and expand: the output depends on
/// (salt, ikm, info, length) alone, has the requested length, and expand
/// only fails for lengths above 255 hash blocks, which the precondition
/// rules out.
#[verifier::external_body]
fn hkdf_expand(salt: &[u8], ikm: &[u8], info: &[u8], length: usize) -> (r: Vec<u8>)
    requires
        1 <= length <= 8160,
    ensures
        r@ == hkdf_of(salt@, ikm@, info@, length as nat),
        r@.len() == length,
{
    let hk = hkdf::Hkdf::<sha2::Sha256>::new(Some(salt), ikm);
    let mut okm = vec![0u8; length];
    hk.expand(info, &mut okm).expect("HKDF expansion failed");
    okm
}

/// The salt that HKDF is keyed with: an empty salt is replaced by 32 zero
/// bytes.
pub open spec fn hkdf_salt_spec(salt: Seq<u8>) -> Seq<u8> {
    if salt.len() == 0 {
        Seq::new(32, |i: int| 0u8)
    } else {
        salt
    }
}

/// HKDF-SHA256 after empty-salt substitution.
pub open spec fn hkdf_spec(salt: Seq<u8>, ikm: Seq<u8>, info: Seq<u8>, len: nat) -> Seq<u8> {
    hkdf_of(hkdf_salt_spec(salt), ikm, info, len)
}

/// HKDF-SHA256 key derivation. An empty salt is replaced by 32 zero
/// bytes. The requested length must be positive and at most 255 SHA-256
/// blocks (8160 bytes).
pub fn hkdf(salt: &[u8], ikm: &[u8], info: &[u8], length: usize) -> (r: Vec<u8>)
    requires
        1 <= length <= 8160,
    ensures
        r@ == hkdf_spec(salt@, ikm@, info@, length as nat),
        r@.len() == length,
{
    if salt.len() == 0 {
        let zeros: [u8; 32] = [0u8; 32];
        let r = hkdf_expand(zeros.as_slice(), ikm, info, length);
        proof {
            assert(zeros@ =~= hkdf_salt_spec(salt@));
        }
        r
    } else {
        hkdf_expand(salt, ikm, info, length)
    }
}

/// Relies on subtle's ConstantTimeEq for byte slices: the result is true
/// exactly when the two slices hold the same bytes (differing lengths
/// compare unequal), and the comparison runs in constant time.
#[verifier::external_body]
pub fn constant_time_eq(a: &[u8], b: &[u8]) -> (r: bool)
    ensures
        r <==> a@ == b@,
{
    a.ct_eq(b).into()
}

/// Relies on chacha20poly1305's Aead::encrypt with a postfix tag: the
/// result is ciphertext followed by the 16-byte tag, a function of
/// (key, nonce, plaintext, ad) alone, and decrypting it with the same
/// arguments returns the plaintext. Encryption cannot fail for inputs
/// within the stated length bound.
#[verifier::external_body]
fn aead_encrypt_raw(key: &[u8], nonce: &[u8], plaintext: &[u8], ad: &[u8]) -> (r: Vec<u8>)
    requires
        key@.len() == 32,
        nonce@.len() == 12,
        plaintext@.len() <= 0xFFFF_FFFF,
        ad@.len() <= 0xFFFF_FFFF,
    ensures
        r@ == aead_enc_of(key@, nonce@, plaintext@, ad@),
        r@.len() == plaintext@.len() + 16,
        aead_dec_of(key@, nonce@, r@, ad@) == Some(plaintext@),
{
    let cipher = chacha20poly1305::ChaCha20Poly1305::new_from_slice(key)
        .expect("key length checked");
    let nonce_array: [u8; 12] = nonce.try_into().expect("nonce length checked");
    let nonce = chacha20poly1305::Nonce::from(nonce_array);
    cipher
        .encrypt(&nonce, chacha20poly1305::aead::Payload { msg: plaintext, aad: ad })
        .expect("ChaCha20-Poly1305 encryption cannot fail for bounded inputs")
}

/// Relies on chacha20poly1305's Aead::decrypt with a postfix tag: the
/// outcome depends on (key, nonce, ct, ad) alone; `None` means the tag did
/// not authenticate; on success the plaintext is 16 bytes shorter than the
/// input.
#[verifier::external_body]
fn aead_decrypt_raw(key: &[u8], nonce: &[u8], ciphertext: &[u8], ad: &[u8]) -> (r: Option<
    Vec<u8>,
>)
    requires
        key@.len() == 32,
        nonce@.len() == 12,
    ensures
        match r {
            Some(p) => aead_dec_of(key@, nonce@, ciphertext@, ad@) == Some(p@) && ciphertext@.len()
                >= 16 && p@.len() == ciphertext@.len() - 16,
            None => aead_dec_of(key@, nonce@, ciphertext@, ad@) is None,
        },
{
    let cipher = chacha20poly1305::ChaCha20Poly1305::new_from_slice(key)
        .expect("key length checked");
    let nonce_array: [u8; 12] = nonce.try_into().expect("nonce length checked");
    let nonce = chacha20poly1305::Nonce::from(nonce_array);
    cipher
        .decrypt(&nonce, chacha20poly1305::aead::Payload { msg: ciphertext, aad: ad })
        .ok()
}

/// Authenticated encryption interface. An implementation fixes, through
/// its two spec methods, what its encryption and decryption compute;
/// the executable methods are bound to those spec-level functions.
pub trait Cipher {
    /// The ciphertext (tag included) this cipher produces.
    spec fn enc_spec(&self, key: Seq<u8>, nonce: Seq<u8>, pt: Seq<u8>, ad: Seq<u8>) -> Seq<u8>;

    /// What this cipher's decryption recovers, `None` on authentication
    /// failure.
    spec fn dec_spec(&self, key: Seq<u8>, nonce: Seq<u8>, ct: Seq<u8>, ad: Seq<u8>) -> Option<
        Seq<u8>,
    >;

    /// Encrypt `plaintext` under (key, nonce), binding `ad`.
    fn encrypt(&self, key: &[u8], nonce: &[u8], plaintext: &[u8], ad: &[u8]) -> (r: Vec<u8>)
        requires
            key@.len() == 32,
            nonce@.len() == 12,
            plaintext@.len() <= 0xFFFF_FFFF,
            ad@.len() <= 0xFFFF_FFFF,
        ensures
            r@ == self.enc_spec(key@, nonce@, plaintext@, ad@),
            r@.len() == plaintext@.len() + 16,
            self.dec_spec(key@, nonce@, r@, ad@) == Some(plaintext@),
    ;

    /// Decrypt `ciphertext` under (key, nonce) and `ad`; fails with
    /// `DecryptionFailed` exactly when this cipher's decryption rejects.
    fn decrypt(&self, key: &[u8], nonce: &[u8], ciphertext: &[u8], ad: &[u8]) -> (r: Result<
        Vec<u8>,
        PQFSRError,
    >)
        requires
            key@.len() == 32,
            nonce@.len() == 12,
        ensures
            match r {
                Ok(p) => self.dec_spec(key@, nonce@, ciphertext@, ad@) == Some(p@),
                Err(e) => self.dec_spec(key@, nonce@, ciphertext@, ad@) is None && e
                    == PQFSRError::DecryptionFailed,
            },
    ;
}

/// The production AEAD: ChaCha20-Poly1305 with a 32-byte key, 12-byte
/// nonce and 16-byte postfix tag.
pub struct ChaCha20Poly1305Cipher;

impl Cipher for ChaCha20Poly1305Cipher {
    open spec fn enc_spec(&self, key: Seq<u8>, nonce: Seq<u8>, pt: Seq<u8>, ad: Seq<u8>) -> Seq<
        u8,
    > {
        aead_enc_of(key, nonce, pt, ad)
    }

    open spec fn dec_spec(&self, key: Seq<u8>, nonce: Seq<u8>, ct: Seq<u8>, ad: Seq<u8>) -> Option<
        Seq<u8>,
    > {
        aead_dec_of(key, nonce, ct, ad)
    }

    fn encrypt(&self, key: &[u8], nonce: &[u8], plaintext: &[u8], ad: &[u8]) -> (r: Vec<u8>) {
        aead_encrypt_raw(key, nonce, plaintext, ad)
    }

    fn decrypt(&self, key: &[u8], nonce: &[u8], ciphertext: &[u8], ad: &[u8]) -> (r: Result<
        Vec<u8>,
        PQFSRError,
    >) {
        match aead_decrypt_raw(key, nonce, ciphertext, ad) {
            Some(p) => Ok(p),
            None => Err(PQFSRError::DecryptionFailed),
        }
    }
}

/// Encrypt with the production AEAD.
pub fn aead_encrypt(key: &[u8], nonce: &[u8], plaintext: &[u8], ad: &[u8]) -> (r: Vec<u8>)
    requires
        key@.len() == 32,
        nonce@.len() == 12,
        plaintext@.len() <= 0xFFFF_FFFF,
        ad@.len() <= 0xFFFF_FFFF,
    ensures
        r@ == aead_enc_of(key@, nonce@, plaintext@, ad@),
        r@.len() == plaintext@.len() + 16,
        aead_dec_of(key@, nonce@, r@, ad@) == Some(plaintext@),
{
    aead_encrypt_raw(key, nonce, plaintext, ad)
}

/// Decrypt with the production AEAD; fails with `DecryptionFailed`
/// exactly when authentication rejects.
pub fn aead_decrypt(key: &[u8], nonce: &[u8], ciphertext: &[u8], ad: &[u8]) -> (r: Result<
    Vec<u8>,
    PQFSRError,
>)
    requires
        key@.len() == 32,
        nonce@.len() == 12,
    ensures
        match r {
            Ok(p) => aead_dec_of(key@, nonce@, ciphertext@, ad@) == Some(p@) && p@.len()
                == ciphertext@.len() - 16,
            Err(e) => aead_dec_of(key@, nonce@, ciphertext@, ad@) is None && e
                == PQFSRError::DecryptionFailed,
        },
{
    match aead_decrypt_raw(key, nonce, ciphertext, ad) {
        Some(p) => Ok(p),
        None => Err(PQFSRError::DecryptionFailed),
    }
}

} // verus!
