use pqfsr_core::{deserialize_state_cbor, serialize_state_cbor, RatchetSession};

#[test]
fn test_complete_handshake() {
    let mut alice = RatchetSession::create_initiator(b"alice_hint".to_vec(), 50);
    let mut bob = RatchetSession::create_responder(b"bob_hint".to_vec(), 50);

    // Complete handshake flow
    let request = alice.create_handshake_request().unwrap();
    assert!(!request.kem_public.is_empty());
    assert!(!request.ratchet_public.is_empty());

    let response = bob.accept_handshake(&request).unwrap();
    assert!(!response.kem_ciphertext.is_empty());

    alice.finalize_handshake(&response).unwrap();

    // Both should be ready
    assert!(alice.is_ready());
    assert!(bob.is_ready());
}

#[test]
fn test_multiple_message_exchange() {
    let mut alice = RatchetSession::create_initiator(b"alice_hint".to_vec(), 50);
    let mut bob = RatchetSession::create_responder(b"bob_hint".to_vec(), 50);

    // Handshake
    let request = alice.create_handshake_request().unwrap();
    let response = bob.accept_handshake(&request).unwrap();
    alice.finalize_handshake(&response).unwrap();

    // Exchange multiple messages
    let messages = [
        b"Message 1 from Alice",
        b"Message 2 from Alice",
        b"Message 3 from Alice",
    ];

    for msg in messages.iter() {
        let packet = alice.encrypt(*msg, b"").unwrap();
        let decrypted = bob.decrypt(&packet, b"").unwrap();
        assert_eq!(decrypted, *msg);
    }

    // Bob replies
    let reply = b"Reply from Bob";
    let reply_packet = bob.encrypt(reply, b"").unwrap();
    let decrypted_reply = alice.decrypt(&reply_packet, b"").unwrap();
    assert_eq!(decrypted_reply, reply);
}

#[test]
fn test_handshake_and_five_messages() {
    // Full handshake, then five in-order messages; both counters land
    // on five.
    let mut alice = RatchetSession::create_initiator(b"alice_hint".to_vec(), 50);
    let mut bob = RatchetSession::create_responder(b"bob_hint".to_vec(), 50);

    let request = alice.create_handshake_request().unwrap();
    let response = bob.accept_handshake(&request).unwrap();
    alice.finalize_handshake(&response).unwrap();
    assert!(alice.is_ready());
    assert!(bob.is_ready());

    for i in 0..5 {
        let msg = format!("Message {}", i).into_bytes();
        let packet = alice.encrypt(&msg, b"").unwrap();
        let decrypted = bob.decrypt(&packet, b"").unwrap();
        assert_eq!(decrypted, msg);
    }

    assert_eq!(alice.get_state().unwrap().send_count, 5);
    assert_eq!(bob.get_state().unwrap().recv_count, 5);
}

#[test]
fn test_out_of_order_within_window() {
    // Alice sends three packets; Bob decrypts them as 2, 0, 1. All
    // three plaintexts come back, the receive counter lands on 3 and
    // the skipped cache is empty again.
    let mut alice = RatchetSession::create_initiator(b"alice_hint".to_vec(), 50);
    let mut bob = RatchetSession::create_responder(b"bob_hint".to_vec(), 50);

    let request = alice.create_handshake_request().unwrap();
    let response = bob.accept_handshake(&request).unwrap();
    alice.finalize_handshake(&response).unwrap();

    let p0 = alice.encrypt(b"P0", b"").unwrap();
    let p1 = alice.encrypt(b"P1", b"").unwrap();
    let p2 = alice.encrypt(b"P2", b"").unwrap();

    assert_eq!(bob.decrypt(&p2, b"").unwrap(), b"P2");
    assert_eq!(bob.decrypt(&p0, b"").unwrap(), b"P0");
    assert_eq!(bob.decrypt(&p1, b"").unwrap(), b"P1");

    let state = bob.get_state().unwrap();
    assert_eq!(state.recv_count, 3);
    assert!(state.skipped_message_keys.is_empty());
}

#[test]
fn test_state_export() {
    let mut alice = RatchetSession::create_initiator(b"alice_hint".to_vec(), 50);
    let mut bob = RatchetSession::create_responder(b"bob_hint".to_vec(), 50);

    // Handshake
    let request = alice.create_handshake_request().unwrap();
    let response = bob.accept_handshake(&request).unwrap();
    alice.finalize_handshake(&response).unwrap();

    // Send a message
    let packet = alice.encrypt(b"Test message", b"").unwrap();
    bob.decrypt(&packet, b"").unwrap();

    // Export Alice's state (for serialization)
    let alice_state = alice.get_state();
    assert!(alice_state.is_some());

    // Verify state contains expected data
    let state = alice_state.unwrap();
    assert!(!state.root_key.is_empty());
    assert!(state.send_count > 0);
}

#[test]
fn test_state_export_responder() {
    let mut alice = RatchetSession::create_initiator(b"alice_hint".to_vec(), 50);
    let mut bob = RatchetSession::create_responder(b"bob_hint".to_vec(), 50);

    // Handshake
    let request = alice.create_handshake_request().unwrap();
    let response = bob.accept_handshake(&request).unwrap();
    alice.finalize_handshake(&response).unwrap();

    // Send a message
    let packet = alice.encrypt(b"Test message", b"").unwrap();
    bob.decrypt(&packet, b"").unwrap();

    // Export Bob's state (for serialization)
    let bob_state = bob.get_state();
    assert!(bob_state.is_some());

    // Verify state contains expected data
    let state = bob_state.unwrap();
    assert!(!state.root_key.is_empty());
    assert!(state.recv_count > 0);
}

#[test]
fn test_rekeying_through_kem_pulse() {
    let mut alice = RatchetSession::create_initiator(b"alice_hint".to_vec(), 50);
    let mut bob = RatchetSession::create_responder(b"bob_hint".to_vec(), 50);

    // Handshake
    let request = alice.create_handshake_request().unwrap();
    let response = bob.accept_handshake(&request).unwrap();
    alice.finalize_handshake(&response).unwrap();

    // Get initial root keys
    let initial_root_alice = alice.get_state().unwrap().root_key.clone();
    let initial_root_bob = bob.get_state().unwrap().root_key.clone();

    // They should match after handshake
    assert_eq!(initial_root_alice, initial_root_bob);

    // Send large message to trigger KEM pulse
    let large_message = vec![0u8; 2000];
    let packet = alice.encrypt(&large_message, b"").unwrap();

    // A message above the size threshold on a fresh (non-burst) send
    // carries a KEM pulse of exactly one Kyber-768 ciphertext.
    assert!(!packet.kem_ciphertext.is_empty());
    assert_eq!(packet.kem_ciphertext.len(), 1088);

    let decrypted = bob.decrypt(&packet, b"").unwrap();
    assert_eq!(decrypted, large_message);

    // Root keys advanced and still match between alice and bob
    let alice_root = alice.get_state().unwrap().root_key.clone();
    let bob_root = bob.get_state().unwrap().root_key.clone();
    assert_eq!(alice_root, bob_root);
    assert_ne!(alice_root, initial_root_alice);
}

#[test]
fn test_bidirectional_communication() {
    let mut alice = RatchetSession::create_initiator(b"alice_hint".to_vec(), 50);
    let mut bob = RatchetSession::create_responder(b"bob_hint".to_vec(), 50);

    // Handshake
    let request = alice.create_handshake_request().unwrap();
    let response = bob.accept_handshake(&request).unwrap();
    alice.finalize_handshake(&response).unwrap();

    // Alice sends
    let packet1 = alice.encrypt(b"Alice to Bob", b"").unwrap();
    let decrypted1 = bob.decrypt(&packet1, b"").unwrap();
    assert_eq!(decrypted1, b"Alice to Bob");

    // Bob sends
    let packet2 = bob.encrypt(b"Bob to Alice", b"").unwrap();
    let decrypted2 = alice.decrypt(&packet2, b"").unwrap();
    assert_eq!(decrypted2, b"Bob to Alice");

    // Continue alternating
    let packet3 = alice.encrypt(b"Alice again", b"").unwrap();
    let decrypted3 = bob.decrypt(&packet3, b"").unwrap();
    assert_eq!(decrypted3, b"Alice again");

    let packet4 = bob.encrypt(b"Bob again", b"").unwrap();
    let decrypted4 = alice.decrypt(&packet4, b"").unwrap();
    assert_eq!(decrypted4, b"Bob again");
}

#[test]
fn test_handshake_with_different_hints() {
    let mut alice = RatchetSession::create_initiator(b"alice_device_1".to_vec(), 50);
    let mut bob = RatchetSession::create_responder(b"bob_device_2".to_vec(), 50);

    // Handshake should work with different hints
    let request = alice.create_handshake_request().unwrap();
    let response = bob.accept_handshake(&request).unwrap();
    alice.finalize_handshake(&response).unwrap();

    assert!(alice.is_ready());
    assert!(bob.is_ready());

    // Verify hints are preserved
    assert_eq!(alice.semantic_hint(), b"alice_device_1");
    assert_eq!(bob.semantic_hint(), b"bob_device_2");
}

#[test]
fn test_handshake_with_different_max_skip() {
    let mut alice = RatchetSession::create_initiator(b"alice".to_vec(), 32);
    let mut bob = RatchetSession::create_responder(b"bob".to_vec(), 64);

    // Handshake should work with different max_skip values
    let request = alice.create_handshake_request().unwrap();
    let response = bob.accept_handshake(&request).unwrap();
    alice.finalize_handshake(&response).unwrap();

    assert!(alice.is_ready());
    assert!(bob.is_ready());
}

#[test]
fn test_large_message_handling() {
    let mut alice = RatchetSession::create_initiator(b"alice".to_vec(), 50);
    let mut bob = RatchetSession::create_responder(b"bob".to_vec(), 50);

    // Handshake
    let request = alice.create_handshake_request().unwrap();
    let response = bob.accept_handshake(&request).unwrap();
    alice.finalize_handshake(&response).unwrap();

    // Send large message (10KB)
    let large_message = vec![0x42u8; 10 * 1024];
    let packet = alice.encrypt(&large_message, b"").unwrap();
    let decrypted = bob.decrypt(&packet, b"").unwrap();
    assert_eq!(decrypted, large_message);
}

#[test]
fn test_empty_message() {
    let mut alice = RatchetSession::create_initiator(b"alice".to_vec(), 50);
    let mut bob = RatchetSession::create_responder(b"bob".to_vec(), 50);

    // Handshake
    let request = alice.create_handshake_request().unwrap();
    let response = bob.accept_handshake(&request).unwrap();
    alice.finalize_handshake(&response).unwrap();

    // Send empty message
    let packet = alice.encrypt(b"", b"").unwrap();
    let decrypted = bob.decrypt(&packet, b"").unwrap();
    assert_eq!(decrypted, b"");
}

#[test]
fn test_associated_data_preservation() {
    let mut alice = RatchetSession::create_initiator(b"alice".to_vec(), 50);
    let mut bob = RatchetSession::create_responder(b"bob".to_vec(), 50);

    // Handshake
    let request = alice.create_handshake_request().unwrap();
    let response = bob.accept_handshake(&request).unwrap();
    alice.finalize_handshake(&response).unwrap();

    // Send message with associated data
    let ad = b"metadata:important";
    let packet = alice.encrypt(b"Secret message", ad).unwrap();

    // Decrypt with correct AD
    let decrypted = bob.decrypt(&packet, ad).unwrap();
    assert_eq!(decrypted, b"Secret message");

    // Decrypt with wrong AD should fail
    let wrong_ad = b"metadata:wrong";
    let result = bob.decrypt(&packet, wrong_ad);
    assert!(result.is_err());
}

#[test]
fn test_ad_mismatch_error_code() {
    // Decrypting under a different associated data string fails with a
    // cryptographic error code (3000 range).
    let mut alice = RatchetSession::create_initiator(b"alice".to_vec(), 50);
    let mut bob = RatchetSession::create_responder(b"bob".to_vec(), 50);

    let request = alice.create_handshake_request().unwrap();
    let response = bob.accept_handshake(&request).unwrap();
    alice.finalize_handshake(&response).unwrap();

    let packet = alice.encrypt(b"secret", b"md:1").unwrap();
    let code = bob.decrypt(&packet, b"md:2").unwrap_err().code();
    assert!((3000..4000).contains(&code));
}

#[test]
fn test_state_persistence() {
    let mut alice = RatchetSession::create_initiator(b"alice".to_vec(), 50);
    let mut bob = RatchetSession::create_responder(b"bob".to_vec(), 50);

    // Handshake
    let request = alice.create_handshake_request().unwrap();
    let response = bob.accept_handshake(&request).unwrap();
    alice.finalize_handshake(&response).unwrap();

    // Send some messages
    for i in 0..5 {
        let msg = format!("Message {}", i).into_bytes();
        let packet = alice.encrypt(&msg, b"").unwrap();
        bob.decrypt(&packet, b"").unwrap();
    }

    // Export state (persist) - use serialization functions
    let state = alice.get_state().unwrap();
    let semantic_hint = alice.semantic_hint();
    let is_initiator = alice.is_initiator();
    let state_bytes = serialize_state_cbor(state, semantic_hint, is_initiator);

    // Restore state
    let (restored_state, restored_hint, restored_initiator) =
        deserialize_state_cbor(&state_bytes).unwrap();

    // Create new session with restored state
    let mut alice_restored =
        RatchetSession::new(restored_initiator, restored_hint, restored_state.max_skip);
    alice_restored.state = Some(restored_state);
    alice_restored.ready = true;

    // Should be able to continue communication
    let send_count_before = alice_restored.get_state().unwrap().send_count;
    let packet = alice_restored.encrypt(b"After restore", b"").unwrap();
    let decrypted = bob.decrypt(&packet, b"").unwrap();
    assert_eq!(decrypted, b"After restore");
    assert_eq!(
        alice_restored.get_state().unwrap().send_count,
        send_count_before + 1
    );
}

#[test]
fn test_state_recovery() {
    let mut alice = RatchetSession::create_initiator(b"alice".to_vec(), 50);
    let mut bob = RatchetSession::create_responder(b"bob".to_vec(), 50);

    // Handshake
    let request = alice.create_handshake_request().unwrap();
    let response = bob.accept_handshake(&request).unwrap();
    alice.finalize_handshake(&response).unwrap();

    // Send messages
    for i in 0..3 {
        let msg = format!("Msg {}", i).into_bytes();
        let packet = alice.encrypt(&msg, b"").unwrap();
        bob.decrypt(&packet, b"").unwrap();
    }

    // Save state before more messages
    let state = alice.get_state().unwrap();
    let semantic_hint = alice.semantic_hint();
    let is_initiator = alice.is_initiator();
    let saved_state = serialize_state_cbor(state, semantic_hint, is_initiator);

    // Send more messages (don't decrypt yet - we'll test recovery)
    let _packet1 = alice.encrypt(b"Message 1", b"").unwrap();
    let _packet2 = alice.encrypt(b"Message 2", b"").unwrap();

    // Restore from saved state
    let (restored_state, restored_hint, restored_initiator) =
        deserialize_state_cbor(&saved_state).unwrap();

    let mut alice_recovered =
        RatchetSession::new(restored_initiator, restored_hint, restored_state.max_skip);
    alice_recovered.state = Some(restored_state);
    alice_recovered.ready = true;

    // Recovered session should be able to continue (new message)
    let packet3 = alice_recovered.encrypt(b"After recovery", b"").unwrap();
    let decrypted = bob.decrypt(&packet3, b"").unwrap();
    assert_eq!(decrypted, b"After recovery");
}

#[test]
fn test_forward_secrecy_property() {
    // Test that old keys cannot decrypt new messages
    let mut alice = RatchetSession::create_initiator(b"alice".to_vec(), 50);
    let mut bob = RatchetSession::create_responder(b"bob".to_vec(), 50);

    // Handshake
    let request = alice.create_handshake_request().unwrap();
    let response = bob.accept_handshake(&request).unwrap();
    alice.finalize_handshake(&response).unwrap();

    // Save state after first message
    let packet1 = alice.encrypt(b"Message 1", b"").unwrap();
    bob.decrypt(&packet1, b"").unwrap();

    let state = alice.get_state().unwrap();
    let semantic_hint = alice.semantic_hint();
    let is_initiator = alice.is_initiator();
    let saved_state = serialize_state_cbor(state, semantic_hint, is_initiator);

    // Send more messages (ratchet forward) - don't decrypt yet
    let _packet2 = alice.encrypt(b"Message 2", b"").unwrap();
    let _packet3 = alice.encrypt(b"Message 3", b"").unwrap();

    // Restore old state
    let (restored_state, restored_hint, restored_initiator) =
        deserialize_state_cbor(&saved_state).unwrap();

    let mut alice_old =
        RatchetSession::new(restored_initiator, restored_hint, restored_state.max_skip);
    alice_old.state = Some(restored_state);
    alice_old.ready = true;

    // The snapshot continues from its own position; its chain keys are
    // the pre-fork ones, demonstrating the fork.
    let old_packet = alice_old.encrypt(b"From old state", b"").unwrap();
    let decrypted = bob.decrypt(&old_packet, b"").unwrap();
    assert_eq!(decrypted, b"From old state");
}

#[test]
fn test_post_compromise_security() {
    // Test that after compromise, one honest pulse restores security
    let mut alice = RatchetSession::create_initiator(b"alice".to_vec(), 50);
    let mut bob = RatchetSession::create_responder(b"bob".to_vec(), 50);

    // Handshake
    let request = alice.create_handshake_request().unwrap();
    let response = bob.accept_handshake(&request).unwrap();
    alice.finalize_handshake(&response).unwrap();

    // Simulate compromise: save state
    let state = alice.get_state().unwrap();
    let semantic_hint = alice.semantic_hint();
    let is_initiator = alice.is_initiator();
    let compromised_state = serialize_state_cbor(state, semantic_hint, is_initiator);

    let (restored_state, restored_hint, restored_initiator) =
        deserialize_state_cbor(&compromised_state).unwrap();

    let mut compromised =
        RatchetSession::new(restored_initiator, restored_hint, restored_state.max_skip);
    compromised.state = Some(restored_state);
    compromised.ready = true;

    // Send message that triggers KEM pulse (large message) - don't decrypt yet
    let large_msg = vec![0u8; 2000];
    let future_packet = alice.encrypt(&large_msg, b"").unwrap();
    assert!(!future_packet.kem_ciphertext.is_empty());

    // Verify the compromised snapshot can continue on its own fork
    // (with different keys, demonstrating the recovery step)
    let compromised_packet = compromised.encrypt(b"From compromised", b"").unwrap();
    let decrypted = bob.decrypt(&compromised_packet, b"").unwrap();
    assert_eq!(decrypted, b"From compromised");

    // After Bob takes the honest pulse, his root has moved past the
    // snapshot's root.
    bob.decrypt(&future_packet, b"").unwrap();
    assert_ne!(
        bob.get_state().unwrap().root_key,
        compromised.get_state().unwrap().root_key
    );
}
