use pqfsr_core::{constant_time_eq, hkdf, sha256, ChaCha20Poly1305Cipher, Cipher};

#[test]
fn test_hkdf() {
    let salt = b"test_salt";
    let ikm = b"test_input_key_material";
    let info = b"test_info";
    let length = 32;

    let derived = hkdf(salt, ikm, info, length);
    assert_eq!(derived.len(), length);

    // Deterministic
    let derived2 = hkdf(salt, ikm, info, length);
    assert_eq!(derived, derived2);

    // Different inputs produce different outputs
    let derived3 = hkdf(salt, b"different_ikm", info, length);
    assert_ne!(derived, derived3);
}

#[test]
fn test_sha256() {
    let data = b"test_data";
    let hash = sha256(data);
    assert_eq!(hash.len(), 32);

    // Deterministic
    let hash2 = sha256(data);
    assert_eq!(hash, hash2);
}

#[test]
fn test_sha256_known_answer() {
    // SHA-256 of the empty string, to pin the digest itself.
    let hash = sha256(b"");
    let expected = [
        0xe3u8, 0xb0, 0xc4, 0x42, 0x98, 0xfc, 0x1c, 0x14, 0x9a, 0xfb, 0xf4, 0xc8, 0x99, 0x6f,
        0xb9, 0x24, 0x27, 0xae, 0x41, 0xe4, 0x64, 0x9b, 0x93, 0x4c, 0xa4, 0x95, 0x99, 0x1b, 0x78,
        0x52, 0xb8, 0x55,
    ];
    assert_eq!(hash, expected);
}

#[test]
fn test_chacha20poly1305_encrypt_decrypt() {
    let cipher = ChaCha20Poly1305Cipher;
    let key = vec![0u8; 32];
    let nonce = vec![0u8; 12];
    let plaintext = b"Hello, World!";
    let ad = b"associated_data";

    let ciphertext = cipher.encrypt(&key, &nonce, plaintext, ad);
    assert!(!ciphertext.is_empty());
    assert_ne!(ciphertext, plaintext);

    let decrypted = cipher.decrypt(&key, &nonce, &ciphertext, ad).unwrap();
    assert_eq!(decrypted, plaintext);
}

#[test]
fn test_chacha20poly1305_wrong_key() {
    let cipher = ChaCha20Poly1305Cipher;
    let key = vec![0u8; 32];
    let wrong_key = vec![1u8; 32];
    let nonce = vec![0u8; 12];
    let plaintext = b"Hello, World!";
    let ad = b"associated_data";

    let ciphertext = cipher.encrypt(&key, &nonce, plaintext, ad);
    let result = cipher.decrypt(&wrong_key, &nonce, &ciphertext, ad);
    assert!(result.is_err());
}

#[test]
fn test_chacha20poly1305_wrong_ad() {
    let cipher = ChaCha20Poly1305Cipher;
    let key = vec![7u8; 32];
    let nonce = vec![3u8; 12];
    let ciphertext = cipher.encrypt(&key, &nonce, b"payload", b"ad one");
    assert!(cipher.decrypt(&key, &nonce, &ciphertext, b"ad two").is_err());
    assert_eq!(
        cipher.decrypt(&key, &nonce, &ciphertext, b"ad one").unwrap(),
        b"payload"
    );
}

#[test]
fn test_constant_time_eq() {
    let a = b"test";
    let b = b"test";
    let c = b"diff";

    assert!(constant_time_eq(a, b));
    assert!(!constant_time_eq(a, c));
}

#[test]
fn test_constant_time_eq_length_mismatch() {
    assert!(!constant_time_eq(b"abc", b"abcd"));
    assert!(constant_time_eq(b"", b""));
}
