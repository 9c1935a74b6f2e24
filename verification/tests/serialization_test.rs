use pqfsr_core::ratchet::Packet;
use pqfsr_core::serialization::hex_decode;
use pqfsr_core::{
    decrypt_state, deserialize_state, deserialize_state_cbor, encrypt_state, pack_packet,
    serialize_state, serialize_state_cbor, unpack_packet, RatchetSession,
};

#[test]
fn test_serialize_deserialize_state() {
    // Create a session and perform handshake
    let mut alice = RatchetSession::create_initiator(b"alice_hint".to_vec(), 50);
    let mut bob = RatchetSession::create_responder(b"bob_hint".to_vec(), 50);

    let request = alice.create_handshake_request().unwrap();
    let response = bob.accept_handshake(&request).unwrap();
    alice.finalize_handshake(&response).unwrap();

    // Export state
    let state = alice.get_state().unwrap();
    let semantic_hint = alice.semantic_hint();
    let is_initiator = alice.is_initiator();

    let serialized = serialize_state(state, semantic_hint, is_initiator);
    assert_eq!(serialized.schema_version, 1);
    assert_eq!(serialized.protocol_version, 1);

    // Deserialize
    let (deserialized_state, deserialized_hint, deserialized_initiator) =
        deserialize_state(&serialized).unwrap();

    assert_eq!(deserialized_state.root_key, state.root_key);
    assert_eq!(deserialized_state.send_count, state.send_count);
    assert_eq!(&deserialized_hint, semantic_hint);
    assert_eq!(deserialized_initiator, is_initiator);
}

#[test]
fn test_cbor_serialization() {
    // Create a session and perform handshake
    let mut alice = RatchetSession::create_initiator(b"alice_hint".to_vec(), 50);
    let mut bob = RatchetSession::create_responder(b"bob_hint".to_vec(), 50);

    let request = alice.create_handshake_request().unwrap();
    let response = bob.accept_handshake(&request).unwrap();
    alice.finalize_handshake(&response).unwrap();

    // Export state
    let state = alice.get_state().unwrap();
    let semantic_hint = alice.semantic_hint();
    let is_initiator = alice.is_initiator();

    // Serialize to CBOR
    let cbor_bytes = serialize_state_cbor(state, semantic_hint, is_initiator);
    assert!(!cbor_bytes.is_empty());

    // Deserialize from CBOR
    let (deserialized_state, deserialized_hint, deserialized_initiator) =
        deserialize_state_cbor(&cbor_bytes).unwrap();

    assert_eq!(deserialized_state.root_key, state.root_key);
    assert_eq!(deserialized_state.send_count, state.send_count);
    assert_eq!(&deserialized_hint, semantic_hint);
    assert_eq!(deserialized_initiator, is_initiator);
}

#[test]
fn test_cbor_rejects_truncation() {
    let mut alice = RatchetSession::create_initiator(b"alice_hint".to_vec(), 50);
    let mut bob = RatchetSession::create_responder(b"bob_hint".to_vec(), 50);

    let request = alice.create_handshake_request().unwrap();
    let response = bob.accept_handshake(&request).unwrap();
    alice.finalize_handshake(&response).unwrap();

    let state = alice.get_state().unwrap();
    let blob = serialize_state_cbor(state, alice.semantic_hint(), alice.is_initiator());

    // Truncated or padded blobs are rejected.
    assert!(deserialize_state_cbor(&blob[..blob.len() - 1]).is_err());
    let mut padded = blob.clone();
    padded.push(0);
    assert!(deserialize_state_cbor(&padded).is_err());
    assert!(deserialize_state_cbor(&[]).is_err());
}

#[test]
fn test_encrypt_decrypt_state() {
    let state_json = b"test_state_data";
    let password = b"test_password";

    let encrypted = encrypt_state(state_json, password, None);
    assert!(!encrypted.is_empty());
    assert!(encrypted.starts_with(b"PQFSR_ENC_V1____"));

    let decrypted = decrypt_state(&encrypted, password, None).unwrap();
    assert_eq!(decrypted, state_json);
}

#[test]
fn test_encrypt_decrypt_state_wrong_password() {
    let state_json = b"test_state_data";
    let password = b"test_password";
    let wrong_password = b"wrong_password";

    let encrypted = encrypt_state(state_json, password, None);
    let result = decrypt_state(&encrypted, wrong_password, None);
    assert!(result.is_err());
}

#[test]
fn test_decrypt_state_error_codes() {
    let encrypted = encrypt_state(b"state", b"pw", None);

    // Wrong password authenticates nothing: InvalidPassword.
    let wrong = decrypt_state(&encrypted, b"other", None);
    assert_eq!(wrong.unwrap_err().code(), 4003);

    // A blob without the container header is refused earlier.
    let short = decrypt_state(b"short", b"pw", None);
    assert_eq!(short.unwrap_err().code(), 4007);

    let mut bad_header = encrypted.clone();
    bad_header[0] ^= 0xFF;
    let bad = decrypt_state(&bad_header, b"pw", None);
    assert_eq!(bad.unwrap_err().code(), 4007);
}

#[test]
fn test_pack_unpack_packet() {
    // Create a test packet
    let original_packet = Packet {
        version: 1,
        count: 42,
        pn: 10,
        ratchet_pub: vec![0xAA; 1184], // Kyber768 public key size
        kem_ciphertext: vec![0xBB; 1088], // Kyber768 ciphertext size
        semantic_tag: vec![0xCC; 16],
        ciphertext: vec![0xDD; 100],
        nonce: Some(vec![0xEE; 12]),
    };

    // Pack packet
    let packed = pack_packet(&original_packet);
    assert!(!packed.is_empty());

    // Unpack packet
    let unpacked = unpack_packet(&packed).unwrap();

    // Verify roundtrip
    assert_eq!(unpacked.version, original_packet.version);
    assert_eq!(unpacked.count, original_packet.count);
    assert_eq!(unpacked.pn, original_packet.pn);
    assert_eq!(unpacked.ratchet_pub, original_packet.ratchet_pub);
    assert_eq!(unpacked.kem_ciphertext, original_packet.kem_ciphertext);
    assert_eq!(unpacked.semantic_tag, original_packet.semantic_tag);
    assert_eq!(unpacked.ciphertext, original_packet.ciphertext);
    // Note: nonce is not included in wire format
}

#[test]
fn test_pack_unpack_packet_no_kem() {
    // Create a packet without KEM (symmetric flow)
    let original_packet = Packet {
        version: 1,
        count: 0,
        pn: 0,
        ratchet_pub: vec![0xAA; 1184],
        kem_ciphertext: vec![], // Empty KEM (symmetric flow)
        semantic_tag: vec![0xCC; 16],
        ciphertext: vec![0xDD; 50],
        nonce: None,
    };

    // Pack and unpack
    let packed = pack_packet(&original_packet);
    let unpacked = unpack_packet(&packed).unwrap();

    // Verify
    assert_eq!(unpacked.version, original_packet.version);
    assert_eq!(unpacked.count, original_packet.count);
    assert_eq!(unpacked.kem_ciphertext, original_packet.kem_ciphertext);
    assert_eq!(unpacked.ciphertext, original_packet.ciphertext);
}

#[test]
fn test_pack_packet_exact_bytes() {
    // Pin the wire layout byte for byte on a tiny packet.
    let packet = Packet {
        version: 1,
        count: 2,
        pn: 3,
        ratchet_pub: vec![0x11, 0x22],
        kem_ciphertext: vec![0xAB],
        semantic_tag: vec![0xCC; 16],
        ciphertext: vec![0xDE, 0xAD, 0xBE],
        nonce: None,
    };
    let packed = pack_packet(&packet);
    let mut expected: Vec<u8> = Vec::new();
    expected.push(1); // version
    expected.extend_from_slice(&2u64.to_be_bytes()); // count
    expected.extend_from_slice(&3u64.to_be_bytes()); // pn
    expected.extend_from_slice(&1u16.to_be_bytes()); // kem_len
    expected.push(0xAB);
    expected.extend_from_slice(&2u16.to_be_bytes()); // pub_len
    expected.extend_from_slice(&[0x11, 0x22]);
    expected.extend_from_slice(&[0xCC; 16]);
    expected.extend_from_slice(&3u32.to_be_bytes()); // ct_len
    expected.extend_from_slice(&[0xDE, 0xAD, 0xBE]);
    assert_eq!(packed, expected);
}

#[test]
fn test_pack_unpack_packet_roundtrip_with_session() {
    let mut alice = RatchetSession::create_initiator(b"alice".to_vec(), 50);
    let mut bob = RatchetSession::create_responder(b"bob".to_vec(), 50);

    // Handshake
    let request = alice.create_handshake_request().unwrap();
    let response = bob.accept_handshake(&request).unwrap();
    alice.finalize_handshake(&response).unwrap();

    // Encrypt a message
    let plaintext = b"Test message for wire format";
    let packet = alice.encrypt(plaintext, b"").unwrap();

    // Pack packet
    let packed = pack_packet(&packet);
    assert!(!packed.is_empty());

    // Unpack packet
    let unpacked = unpack_packet(&packed).unwrap();

    // Decrypt using unpacked packet
    let decrypted = bob.decrypt(&unpacked, b"").unwrap();
    assert_eq!(decrypted, plaintext);
}

#[test]
fn test_unpack_packet_invalid_data() {
    // Test with too short data (less than the fixed header)
    let short_data = vec![0u8; 10];
    let result = unpack_packet(&short_data);
    assert!(result.is_err());

    // Test with data that claims large lengths but doesn't have enough bytes
    let mut invalid_data = vec![0u8; 20];
    invalid_data[0] = 1; // version
    // count = 0 (bytes 1-8)
    // pn = 0 (bytes 9-16)
    invalid_data[17] = 0xFF; // kem_len high byte
    invalid_data[18] = 0xFF; // kem_len low byte (claims 65535 bytes)
    // But we only have 2 more bytes, so unpack should fail
    let result = unpack_packet(&invalid_data);
    assert!(result.is_err());
}

#[test]
fn test_unpack_packet_too_short_code() {
    let result = unpack_packet(&[0u8; 3]);
    assert_eq!(result.unwrap_err().code(), 4002);
}

#[test]
fn test_pack_unpack_packet_format_validation() {
    // Test packet with various sizes
    let packet = Packet {
        version: 1,
        count: 12345,
        pn: 67890,
        ratchet_pub: vec![0x11; 500],
        kem_ciphertext: vec![0x22; 300],
        semantic_tag: vec![0x33; 16],
        ciphertext: vec![0x44; 2000], // Large ciphertext
        nonce: None,
    };

    let packed = pack_packet(&packet);
    let unpacked = unpack_packet(&packed).unwrap();

    // Verify all fields
    assert_eq!(unpacked.version, 1);
    assert_eq!(unpacked.count, 12345);
    assert_eq!(unpacked.pn, 67890);
    assert_eq!(unpacked.ratchet_pub.len(), 500);
    assert_eq!(unpacked.kem_ciphertext.len(), 300);
    assert_eq!(unpacked.semantic_tag.len(), 16);
    assert_eq!(unpacked.ciphertext.len(), 2000);
}

#[test]
fn test_hex_decoding() {
    assert_eq!(hex_decode("00ff1a").unwrap(), vec![0x00, 0xff, 0x1a]);
    // Uppercase digits decode too.
    assert_eq!(hex_decode("00FF1A").unwrap(), vec![0x00, 0xff, 0x1a]);
    // Odd length and non-digits are refused.
    assert!(hex_decode("abc").is_err());
    assert!(hex_decode("zz").is_err());
}

#[test]
fn test_state_record_fields_are_hex() {
    // The state record hex-encodes every byte field; decoding one
    // field gives back the state's bytes.
    let mut alice = RatchetSession::create_initiator(b"alice".to_vec(), 50);
    let mut bob = RatchetSession::create_responder(b"bob".to_vec(), 50);
    let request = alice.create_handshake_request().unwrap();
    let response = bob.accept_handshake(&request).unwrap();
    alice.finalize_handshake(&response).unwrap();

    let state = alice.get_state().unwrap();
    let record = serialize_state(state, alice.semantic_hint(), true);
    assert_eq!(record.data.root_key.len(), 64);
    assert_eq!(hex_decode(&record.data.root_key).unwrap(), state.root_key);
    assert_eq!(
        hex_decode(&record.data.semantic_hint).unwrap(),
        alice.semantic_hint().clone()
    );
}
