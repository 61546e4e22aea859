use dropshare::crypto;
use dropshare::discovery;
use dropshare::server;
use dropshare::utils;

#[test]
fn test_utils_format_size() {
    // Test standard bytes
    assert_eq!(utils::format_size(500), "500 bytes");

    // Test Kilobytes (1000 bytes)
    assert_eq!(utils::format_size(1_500), "1.50 Kilobytes");

    // Test Megabytes (1,000,000 bytes)
    assert_eq!(utils::format_size(2_750_000), "2.75 Megabytes");

    // Test Gigabytes (1,000,000,000 bytes)
    assert_eq!(utils::format_size(4_120_000_000), "4.12 Gigabytes");
}

#[test]
fn test_utils_with_optional_token() {
    assert_eq!(
        utils::with_optional_token("http://127.0.0.1:1844/download", Some("secret")),
        "http://127.0.0.1:1844/download?token=secret"
    );
    assert_eq!(
        utils::with_optional_token("http://127.0.0.1:1844/download", None),
        "http://127.0.0.1:1844/download"
    );
}

#[test]
fn test_crypto_roundtrip_single_chunk() {
    let key = crypto::generate_key();
    let data = b"Hello, world! This is a test of streaming encryption.";

    let enc = crypto::StreamEncryptor::new(&key);
    let nonce = *enc.nonce_bytes();
    let ciphertext = enc.encrypt_last(data).unwrap();

    let dec = crypto::StreamDecryptor::new(&key, &nonce);
    let plaintext = dec.decrypt_last(&ciphertext).unwrap();

    assert_eq!(data.as_slice(), plaintext.as_slice());
}

#[test]
fn test_crypto_roundtrip_multi_chunk() {
    let key = crypto::generate_key();
    let chunk_size = crypto::StreamEncryptor::chunk_size();
    // Create data larger than chunk_size
    let data: Vec<u8> = (0..chunk_size * 3 + 1234).map(|i| (i % 256) as u8).collect();

    let mut enc = crypto::StreamEncryptor::new(&key);
    let nonce = *enc.nonce_bytes();
    let mut ciphertext_chunks = Vec::new();

    let chunks: Vec<&[u8]> = data.chunks(chunk_size).collect();
    let last_idx = chunks.len() - 1;

    // Encrypt intermediate chunks
    for chunk in &chunks[..last_idx] {
        ciphertext_chunks.push(enc.encrypt_next(chunk).unwrap());
    }
    // Encrypt the final chunk (consumes enc)
    ciphertext_chunks.push(enc.encrypt_last(chunks[last_idx]).unwrap());

    let mut dec = crypto::StreamDecryptor::new(&key, &nonce);
    let mut decrypted = Vec::new();
    let last_ct_idx = ciphertext_chunks.len() - 1;

    // Decrypt intermediate chunks
    for chunk in &ciphertext_chunks[..last_ct_idx] {
        decrypted.extend_from_slice(&dec.decrypt_next(chunk).unwrap());
    }
    // Decrypt the final chunk (consumes dec)
    decrypted.extend_from_slice(&dec.decrypt_last(&ciphertext_chunks[last_ct_idx]).unwrap());

    assert_eq!(data, decrypted);
}

#[test]
fn test_crypto_wrong_key_fails() {
    let key1 = crypto::generate_key();
    let key2 = crypto::generate_key();
    let data = b"secret data";

    let enc = crypto::StreamEncryptor::new(&key1);
    let nonce = *enc.nonce_bytes();
    let ciphertext = enc.encrypt_last(data).unwrap();

    let dec = crypto::StreamDecryptor::new(&key2, &nonce);
    assert!(dec.decrypt_last(&ciphertext).is_err());
}

#[test]
fn test_crypto_tampered_data_fails() {
    let key = crypto::generate_key();
    let data = b"important data";

    let enc = crypto::StreamEncryptor::new(&key);
    let nonce = *enc.nonce_bytes();
    let mut ciphertext = enc.encrypt_last(data).unwrap();

    // Tamper with a byte
    if let Some(byte) = ciphertext.get_mut(5) {
        *byte ^= 0xFF;
    }

    let dec = crypto::StreamDecryptor::new(&key, &nonce);
    assert!(dec.decrypt_last(&ciphertext).is_err());
}

#[test]
fn test_crypto_key_encode_decode_roundtrip() {
    let key = crypto::generate_key();
    let encoded = crypto::encode_key(&key);
    let decoded = crypto::decode_key(&encoded).unwrap();
    assert_eq!(key, decoded);
}

#[test]
fn test_discovery_name_logic() {
    let (instance, host) = discovery::get_mdns_names("receive");

    // The instance name should contain the mode
    assert!(instance.contains("receive"));

    // Hostname should end with .local. and have no spaces
    assert!(host.ends_with(".local."));
    assert!(!host.contains(' '));
}

#[test]
fn test_server_filename_sanitization() {
    assert_eq!(server::sanitize_filename("normal.txt"), "normal.txt");
    assert_eq!(server::sanitize_filename("../../etc/passwd"), "passwd");
    assert_eq!(server::sanitize_filename("path/to/file.png"), "file.png");
    assert_eq!(server::sanitize_filename(".."), "file");
    assert_eq!(server::sanitize_filename("."), "file");
    assert_eq!(server::sanitize_filename(""), "file");
}
