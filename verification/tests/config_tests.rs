use aes_gcm::aead::{Aead, KeyInit};
use base64::Engine;
use ren_desktop::config::{
    decrypt_api_key, decrypt_with_key, derive_key, encrypt_api_key, encrypt_with_key, get_key,
    key_for_host, open_stored, ConfigError, ProxyConfig,
};

#[test]
fn test_encrypt_decrypt() {
    let api_key = "sk-test123";
    let encrypted = encrypt_api_key(api_key).unwrap();
    let decrypted = decrypt_api_key(&encrypted).unwrap();
    assert_eq!(decrypted, api_key);
}

#[test]
fn default_config_values() {
    let c = ProxyConfig::default();
    assert_eq!(c.provider, "openai");
    assert_eq!(c.api_key, "");
    assert_eq!(c.port, 8080);
    assert_eq!(c.upstream_url, "https://api.openai.com");
}

#[test]
fn key_is_prefix_and_host_zero_padded() {
    let key = derive_key("box");
    let mut expected = b"ren-desktop-box".to_vec();
    expected.resize(32, 0);
    assert_eq!(key, expected);
}

#[test]
fn key_is_cut_to_32_bytes() {
    let key = derive_key("a-very-long-host-name-that-goes-on");
    assert_eq!(key, b"ren-desktop-a-very-long-host-nam".to_vec());
    assert_eq!(key.len(), 32);
}

#[test]
fn key_uses_utf8_bytes_of_host() {
    let key = derive_key("é");
    let mut expected = b"ren-desktop-".to_vec();
    expected.extend_from_slice("é".as_bytes());
    expected.resize(32, 0);
    assert_eq!(key, expected);
}

#[test]
fn machine_key_has_32_bytes() {
    assert_eq!(get_key().len(), 32);
}

#[test]
fn fixed_nonce_layout_and_round_trip() {
    let key = derive_key("box");
    let nonce = [7u8; 12];
    let enc = encrypt_with_key(&key, &nonce, "sk-abc").unwrap();
    let raw = base64::engine::general_purpose::STANDARD.decode(&enc).unwrap();
    assert_eq!(&raw[..12], &nonce);
    assert_eq!(raw.len(), 12 + "sk-abc".len() + 16);
    assert_eq!(decrypt_with_key(&key, &enc).unwrap(), "sk-abc");
}

#[test]
fn encryption_is_deterministic_for_a_fixed_nonce() {
    let key = derive_key("box");
    let nonce = [1u8; 12];
    let a = encrypt_with_key(&key, &nonce, "secret").unwrap();
    let b = encrypt_with_key(&key, &nonce, "secret").unwrap();
    assert_eq!(a, b);
}

#[test]
fn empty_key_round_trips() {
    let key = derive_key("box");
    let enc = encrypt_with_key(&key, &[0u8; 12], "").unwrap();
    assert_eq!(decrypt_with_key(&key, &enc).unwrap(), "");
}

#[test]
fn non_ascii_key_round_trips() {
    let encrypted = encrypt_api_key("ключ-🔑").unwrap();
    assert_eq!(decrypt_api_key(&encrypted).unwrap(), "ключ-🔑");
}

fn encryption_message(r: Result<String, ConfigError>) -> String {
    match r {
        Err(ConfigError::Encryption(m)) => m,
        other => panic!("expected an encryption error, got {:?}", other),
    }
}

#[test]
fn short_data_is_rejected() {
    let key = derive_key("box");
    // "AAAAAAAA" decodes to six bytes, fewer than a nonce.
    let m = encryption_message(decrypt_with_key(&key, "AAAAAAAA"));
    assert_eq!(m, "Invalid encrypted data");
}

#[test]
fn bad_base64_is_rejected() {
    let key = derive_key("box");
    let m = encryption_message(decrypt_with_key(&key, "!!!!"));
    assert_eq!(m, "Invalid symbol 33, offset 0.");
}

#[test]
fn wrong_key_fails_authentication() {
    let enc = encrypt_with_key(&derive_key("box"), &[3u8; 12], "sk-abc").unwrap();
    let m = encryption_message(decrypt_with_key(&derive_key("other"), &enc));
    assert_eq!(m, "aead::Error");
}

#[test]
fn tampered_data_fails_authentication() {
    let key = derive_key("box");
    let enc = encrypt_with_key(&key, &[3u8; 12], "sk-abc").unwrap();
    let mut raw = base64::engine::general_purpose::STANDARD.decode(&enc).unwrap();
    let last = raw.len() - 1;
    raw[last] ^= 1;
    let bad = base64::engine::general_purpose::STANDARD.encode(&raw);
    assert_eq!(encryption_message(decrypt_with_key(&key, &bad)), "aead::Error");
}

#[test]
fn non_utf8_plaintext_is_rejected() {
    let key = derive_key("box");
    let nonce = [9u8; 12];
    let cipher = aes_gcm::Aes256Gcm::new_from_slice(&key).unwrap();
    let ct = cipher.encrypt(aes_gcm::Nonce::from_slice(&nonce), &[0xffu8, 0xfe][..]).unwrap();
    let mut raw = nonce.to_vec();
    raw.extend(ct);
    let enc = base64::engine::general_purpose::STANDARD.encode(&raw);
    let m = encryption_message(decrypt_with_key(&key, &enc));
    assert_eq!(m, String::from_utf8(vec![0xff, 0xfe]).unwrap_err().to_string());
}

#[test]
fn stored_config_holds_the_key_encrypted() {
    let c = ren_desktop::config::encrypted_config("anthropic".to_string(), "sk-x", 9000, "https://a".to_string())
        .unwrap();
    assert_eq!(c.provider, "anthropic");
    assert_eq!(c.port, 9000);
    assert_eq!(c.upstream_url, "https://a");
    assert_ne!(c.api_key, "sk-x");
    assert_eq!(decrypt_api_key(&c.api_key).unwrap(), "sk-x");
}

#[test]
fn missing_host_name_falls_back_to_default() {
    assert_eq!(key_for_host(None), derive_key("default"));
    assert_eq!(key_for_host(Some("box")), derive_key("box"));
    assert_ne!(key_for_host(None), derive_key("box"));
}

#[test]
fn stored_text_layout() {
    let encrypted = encrypt_api_key("sk-test123").unwrap();
    assert_eq!(encrypted.len(), 52);
    let raw = base64::engine::general_purpose::STANDARD.decode(&encrypted).unwrap();
    assert_eq!(raw.len(), 12 + 10 + 16);
}

#[test]
fn open_stored_bytes() {
    let key = derive_key("box");
    let enc = encrypt_with_key(&key, &[5u8; 12], "sk-q").unwrap();
    let raw = base64::engine::general_purpose::STANDARD.decode(&enc).unwrap();
    assert_eq!(open_stored(&key, &raw).unwrap(), "sk-q");
    assert_eq!(encryption_message(open_stored(&key, &raw[..11])), "Invalid encrypted data");
    assert_eq!(encryption_message(open_stored(&key, &raw[..12])), "aead::Error");
}

#[test]
fn nonce_without_tag_fails_authentication() {
    let key = derive_key("box");
    let m = encryption_message(decrypt_with_key(&key, "AAAAAAAAAAAAAAAA"));
    assert_eq!(m, "aead::Error");
    assert_eq!(encryption_message(decrypt_api_key("AAAAAAAAAAAAAAAA")), "aead::Error");
    assert_eq!(encryption_message(open_stored(&key, &[0u8; 27])), "aead::Error");
}

#[test]
fn stored_text_is_ascii_base64() {
    let encrypted = encrypt_api_key("sk-test123").unwrap();
    assert!(encrypted.is_ascii());
    assert_eq!(encrypted.as_bytes().len(), 52);
    let same = base64::engine::general_purpose::STANDARD
        .encode(base64::engine::general_purpose::STANDARD.decode(&encrypted).unwrap());
    assert_eq!(same, encrypted);
}
