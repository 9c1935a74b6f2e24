use pqfsr_core::RatchetSession;

#[test]
fn test_handshake_flow() {
    let mut alice = RatchetSession::create_initiator(b"alice_hint".to_vec(), 50);
    let mut bob = RatchetSession::create_responder(b"bob_hint".to_vec(), 50);

    // Alice creates handshake request
    let request = alice.create_handshake_request().unwrap();
    assert!(!request.kem_public.is_empty());
    assert!(!request.ratchet_public.is_empty());
    assert!(request.signature.is_some());
    assert!(request.signature_public_key.is_some());

    // Bob accepts handshake
    let response = bob.accept_handshake(&request).unwrap();
    assert!(!response.kem_ciphertext.is_empty());
    assert!(!response.ratchet_public.is_empty());
    assert!(response.signature.is_some());
    assert!(response.signature_public_key.is_some());

    // Alice finalizes handshake
    alice.finalize_handshake(&response).unwrap();

    assert!(alice.is_ready());
    assert!(bob.is_ready());
}

#[test]
fn test_encrypt_decrypt() {
    let mut alice = RatchetSession::create_initiator(b"alice_hint".to_vec(), 50);
    let mut bob = RatchetSession::create_responder(b"bob_hint".to_vec(), 50);

    // Handshake
    let request = alice.create_handshake_request().unwrap();
    let response = bob.accept_handshake(&request).unwrap();
    alice.finalize_handshake(&response).unwrap();

    // Encrypt/Decrypt
    let plaintext = b"Hello from Alice!";
    let packet = alice.encrypt(plaintext, b"").unwrap();
    let decrypted = bob.decrypt(&packet, b"").unwrap();
    assert_eq!(decrypted, plaintext);

    // Reply
    let reply = b"Hello from Bob!";
    let reply_packet = bob.encrypt(reply, b"").unwrap();
    let decrypted_reply = alice.decrypt(&reply_packet, b"").unwrap();
    assert_eq!(decrypted_reply, reply);
}

#[test]
fn test_handshake_signature_verification() {
    let mut alice = RatchetSession::create_initiator(b"alice_hint".to_vec(), 50);
    let mut bob = RatchetSession::create_responder(b"bob_hint".to_vec(), 50);

    let request = alice.create_handshake_request().unwrap();

    // Request should have signature
    assert!(request.signature.is_some());
    assert!(request.signature_public_key.is_some());

    // Bob should verify signature during accept
    let response = bob.accept_handshake(&request).unwrap();
    assert!(response.signature.is_some());
    assert!(response.signature_public_key.is_some());

    // Alice should verify signature during finalize
    alice.finalize_handshake(&response).unwrap();
}

#[test]
fn test_version_negotiation_success() {
    let mut alice = RatchetSession::create_initiator(b"alice".to_vec(), 50);
    let mut bob = RatchetSession::create_responder(b"bob".to_vec(), 50);

    // Create handshake request (should have version info)
    let request = alice.create_handshake_request().unwrap();

    // Verify version fields are present
    assert_eq!(request.min_version, 1);
    assert_eq!(request.max_version, 1);

    // Accept handshake (should negotiate version)
    let response = bob.accept_handshake(&request).unwrap();

    // Verify response has version
    assert!(!response.version.is_empty());

    // Finalize should succeed (version compatible)
    alice.finalize_handshake(&response).unwrap();

    assert!(alice.is_ready());
    assert!(bob.is_ready());
}

#[test]
fn test_version_negotiation_incompatible() {
    // Note: Currently only version 1 is supported
    // This test verifies that the negotiation logic exists
    // When multiple versions are supported, this test should verify rejection
    let mut alice = RatchetSession::create_initiator(b"alice".to_vec(), 50);
    let mut bob = RatchetSession::create_responder(b"bob".to_vec(), 50);

    let request = alice.create_handshake_request().unwrap();

    // Currently, all requests use version 1, so negotiation should succeed
    // When version 2+ is added, we can test incompatible versions here
    let response = bob.accept_handshake(&request).unwrap();
    alice.finalize_handshake(&response).unwrap();

    assert!(alice.is_ready());
}

#[test]
fn test_version_negotiation_rejects_above_range() {
    // An offered interval that lies entirely above the supported
    // version 1 is rejected with the negotiation error code.
    let mut alice = RatchetSession::create_initiator(b"alice".to_vec(), 50);
    let mut bob = RatchetSession::create_responder(b"bob".to_vec(), 50);

    let mut request = alice.create_handshake_request().unwrap();
    request.min_version = 2;
    request.max_version = 3;

    let result = bob.accept_handshake(&request);
    assert_eq!(result.unwrap_err().code(), 2002);
}

#[test]
fn test_multiple_messages() {
    let mut alice = RatchetSession::create_initiator(b"alice".to_vec(), 50);
    let mut bob = RatchetSession::create_responder(b"bob".to_vec(), 50);

    // Handshake
    let request = alice.create_handshake_request().unwrap();
    let response = bob.accept_handshake(&request).unwrap();
    alice.finalize_handshake(&response).unwrap();

    // Send multiple messages
    let messages = [
        b"Message 1",
        b"Message 2",
        b"Message 3",
        b"Message 4",
        b"Message 5",
    ];

    for msg in messages.iter() {
        let packet = alice.encrypt(*msg, b"").unwrap();
        let decrypted = bob.decrypt(&packet, b"").unwrap();
        assert_eq!(decrypted, *msg);
    }
}

#[test]
fn test_handshake_replay_protection_rust() {
    let mut alice1 = RatchetSession::create_initiator(b"alice1".to_vec(), 50);
    let mut bob1 = RatchetSession::create_responder(b"bob1".to_vec(), 50);

    // First handshake
    let request1 = alice1.create_handshake_request().unwrap();
    let handshake_id1 = request1.handshake_id.clone();

    let response1 = bob1.accept_handshake(&request1).unwrap();
    alice1.finalize_handshake(&response1).unwrap();

    // Different handshakes use different identifiers
    let mut alice2 = RatchetSession::create_initiator(b"alice2".to_vec(), 50);
    let mut bob2 = RatchetSession::create_responder(b"bob2".to_vec(), 50);

    let request2 = alice2.create_handshake_request().unwrap();
    let handshake_id2 = request2.handshake_id.clone();

    // Handshake IDs should be different
    assert_ne!(handshake_id1, handshake_id2);

    let response2 = bob2.accept_handshake(&request2).unwrap();
    alice2.finalize_handshake(&response2).unwrap();

    assert!(alice2.is_ready());
    assert!(bob2.is_ready());
}

#[test]
fn test_handshake_replay_rejected_with_code() {
    // A responder that already accepted an identifier rejects a second
    // request carrying the same one with the replay error code.
    let mut alice = RatchetSession::create_initiator(b"alice".to_vec(), 50);
    let mut bob = RatchetSession::create_responder(b"bob".to_vec(), 50);

    let request = alice.create_handshake_request().unwrap();
    bob.accept_handshake(&request).unwrap();

    // The same request again: the session is Ready, so reset a fresh
    // responder sharing the same replay cache by checking the cache
    // directly as well.
    let mut bob2 = RatchetSession::create_responder(b"bob".to_vec(), 50);
    bob2.replay_cache = bob.replay_cache;
    let result = bob2.accept_handshake(&request);
    assert_eq!(result.unwrap_err().code(), 2001);
}

#[test]
fn test_replay_cache_check_and_record() {
    let mut cache = pqfsr_core::HandshakeReplayCache::new();
    let now = std::time::SystemTime::now()
        .duration_since(std::time::UNIX_EPOCH)
        .unwrap()
        .as_secs();
    let mut id = vec![7u8; 12];
    id.extend_from_slice(&(now as u32).to_be_bytes());

    assert!(cache.check_and_record(&id).is_ok());
    let second = cache.check_and_record(&id);
    assert_eq!(second.unwrap_err().code(), 2001);

    // A malformed identifier is rejected outright.
    let result = cache.check_and_record(&[1u8; 3]);
    assert_eq!(result.unwrap_err().code(), 2007);
}

#[test]
fn test_replay_cache_stale_timestamp() {
    let mut cache = pqfsr_core::HandshakeReplayCache::new();
    let now = std::time::SystemTime::now()
        .duration_since(std::time::UNIX_EPOCH)
        .unwrap()
        .as_secs();
    // An identifier stamped far in the past falls outside the window.
    let stale = (now - 100_000) as u32;
    let mut id = vec![8u8; 12];
    id.extend_from_slice(&stale.to_be_bytes());
    let result = cache.check_and_record(&id);
    assert_eq!(result.unwrap_err().code(), 2007);
}

#[test]
fn test_session_not_ready_errors() {
    let mut alice = RatchetSession::create_initiator(b"alice".to_vec(), 50);
    let result = alice.encrypt(b"too early", b"");
    assert_eq!(result.unwrap_err().code(), 1001);

    let mut bob = RatchetSession::create_responder(b"bob".to_vec(), 50);
    let result = bob.create_handshake_request();
    assert_eq!(result.unwrap_err().code(), 1002);

    let request = alice.create_handshake_request().unwrap();
    let result = alice.accept_handshake(&request);
    assert_eq!(result.unwrap_err().code(), 1003);
}
