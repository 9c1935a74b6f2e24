use vstd::prelude::*;

pub use crypto::{aead_decrypt, aead_encrypt, constant_time_eq, hkdf, sha256, ChaCha20Poly1305Cipher,
    Cipher};
pub use error::{PQFSRError, PQFSRResult};
pub use ratchet::{ForwardRatchet, Packet};
pub use serialization::{decrypt_state, deserialize_state, deserialize_state_cbor, encrypt_state,
    pack_packet, serialize_state, serialize_state_cbor, unpack_packet, SerializedState, StateData};
pub use session::{HandshakeReplayCache, HandshakeRequest, HandshakeResponse, RatchetSession};
pub use signatures::{generate_key_pair, sign_message, verify_signature};
pub use state::{PrekeyBundle, RatchetState, SkippedKey, MAX_SKIP_DEFAULT};
pub use strategy::{Metrics, OrganicStrategy, RatchetMode};

pub mod crypto;
pub mod error;
pub mod kem;
pub mod laws;
pub mod signatures;
pub mod ratchet;
pub mod serialization;
pub mod session;
pub mod state;
pub mod strategy;
pub mod zeroutil;

verus! {

/// Length in bytes of every symmetric key in the protocol.
pub const KEY_LEN: usize = 32;

/// Length in bytes of an AEAD nonce.
pub const NONCE_LEN: usize = 12;

/// Big-endian encoding of a 64-bit counter.
pub open spec fn be64_spec(n: u64) -> Seq<u8> {
    seq![
        (n >> 56) as u8,
        (n >> 48) as u8,
        (n >> 40) as u8,
        (n >> 32) as u8,
        (n >> 24) as u8,
        (n >> 16) as u8,
        (n >> 8) as u8,
        n as u8,
    ]
}

/// Encode a 64-bit counter in big-endian byte order.
pub fn be64(n: u64) -> (r: Vec<u8>)
    ensures
        r@ == be64_spec(n),
{
    let mut v: Vec<u8> = Vec::new();
    v.push((n >> 56) as u8);
    v.push((n >> 48) as u8);
    v.push((n >> 40) as u8);
    v.push((n >> 32) as u8);
    v.push((n >> 24) as u8);
    v.push((n >> 16) as u8);
    v.push((n >> 8) as u8);
    v.push(n as u8);
    proof {
        assert(v@ =~= be64_spec(n));
    }
    v
}

} // verus!
