use sync_engine::crypto::CryptoCompressor;

#[test]
fn test_encrypt_decrypt_data() {
    let crypto = CryptoCompressor::new();
    let data = b"Hello, World! This is a test message.";
    let password = b"test_password_123";

    let encrypted = crypto.encrypt_data(data, password).unwrap();
    let decrypted = crypto.decrypt_data(&encrypted, password).unwrap();

    assert_eq!(data.to_vec(), decrypted);
}

#[test]
fn test_encrypt_decrypt_with_wrong_password() {
    let crypto = CryptoCompressor::new();
    let data = b"Secret message";
    let password = b"correct_password";
    let wrong_password = b"wrong_password";

    let encrypted = crypto.encrypt_data(data, password).unwrap();
    let result = crypto.decrypt_data(&encrypted, wrong_password);

    assert!(result.is_err());
}

#[test]
fn test_verify_password() {
    let crypto = CryptoCompressor::new();
    let data = b"Test data for password verification";
    let correct_password = b"correct123";
    let wrong_password = b"wrong123";

    let encrypted = crypto.encrypt_data(data, correct_password).unwrap();

    assert!(crypto.verify_password(&encrypted, correct_password));
    assert!(!crypto.verify_password(&encrypted, wrong_password));
}

#[test]
fn test_generate_random_password() {
    let crypto = CryptoCompressor::new();

    let password1 = crypto.generate_random_password(16);
    let password2 = crypto.generate_random_password(16);

    assert_eq!(password1.len(), 16);
    assert_eq!(password2.len(), 16);
    assert_ne!(password1, password2);
}

#[test]
fn test_calculate_hash() {
    let crypto = CryptoCompressor::new();
    let data1 = b"test data";
    let data2 = b"test data";
    let data3 = b"different data";

    let hash1 = crypto.calculate_hash(data1);
    let hash2 = crypto.calculate_hash(data2);
    let hash3 = crypto.calculate_hash(data3);

    assert_eq!(hash1, hash2);
    assert_ne!(hash1, hash3);
    assert_eq!(hash1.len(), 64);
}

#[test]
fn test_encrypt_with_hash() {
    let crypto = CryptoCompressor::new();
    let data = b"Test data with hash";
    let password = b"test_password";

    let (encrypted_data, hash) = crypto.encrypt_with_hash(data, password).unwrap();
    let decrypted_data = crypto
        .decrypt_with_hash_verification(&encrypted_data, password, &hash)
        .unwrap();

    assert_eq!(data.to_vec(), decrypted_data);
}

#[test]
fn test_decrypt_with_hash_verification_failure() {
    let crypto = CryptoCompressor::new();
    let data = b"Test data";
    let password = b"test_password";

    let (encrypted_data, _) = crypto.encrypt_with_hash(data, password).unwrap();
    let wrong_hash = "wrong_hash_value";

    let result = crypto.decrypt_with_hash_verification(&encrypted_data, password, wrong_hash);

    assert!(result.is_err());
    assert!(result.unwrap_err().contains("完整性验证失败"));
}

#[test]
fn test_calculate_hash_known_value() {
    // SHA-256 of "test data", hex-encoded: a fixed reference value.
    let crypto = CryptoCompressor::new();
    assert_eq!(
        crypto.calculate_hash(b"test data"),
        "916f0027a575074ce72a331777c3478d6513f786a591bd892da1a577bf2335f9"
    );
}

#[test]
fn test_encrypted_payload_layout() {
    // Nonce (12 bytes) plus ciphertext and tag (16 bytes): 28 bytes of
    // overhead, and the payload is not the plaintext.
    let crypto = CryptoCompressor::new();
    let data = b"payload bytes";
    let encrypted = crypto.encrypt_data(data, b"pw").unwrap();
    assert_eq!(encrypted.len(), data.len() + 28);
    assert_ne!(&encrypted[12..], data.as_slice());
}

#[test]
fn test_decrypt_data_too_short() {
    let crypto = CryptoCompressor::new();
    let result = crypto.decrypt_data(b"short", b"pw");
    assert!(result.is_err());
    assert!(result.unwrap_err().contains("加密数据太短"));
}
