use polirag::config::{base64_decode, base64_encode, decrypt, encrypt, Config, LlmProvider};

#[test]
fn base64_encodes_known_vectors() {
    assert_eq!(base64_encode(b""), "");
    assert_eq!(base64_encode(b"f"), "Zg==");
    assert_eq!(base64_encode(b"fo"), "Zm8=");
    assert_eq!(base64_encode(b"foo"), "Zm9v");
    assert_eq!(base64_encode(b"foob"), "Zm9vYg==");
    assert_eq!(base64_encode(b"fooba"), "Zm9vYmE=");
    assert_eq!(base64_encode(b"foobar"), "Zm9vYmFy");
    assert_eq!(base64_encode(&[0xfb, 0xff, 0xfe]), "+//+");
}

#[test]
fn base64_decodes_known_vectors() {
    assert_eq!(base64_decode("Zm9vYmFy"), Some(b"foobar".to_vec()));
    assert_eq!(base64_decode("Zm9vYg=="), Some(b"foob".to_vec()));
    assert_eq!(base64_decode("Zm9vYg"), Some(b"foob".to_vec()));
    assert_eq!(base64_decode("+//+"), Some(vec![0xfb, 0xff, 0xfe]));
    assert_eq!(base64_decode(""), Some(vec![]));
    assert_eq!(base64_decode("Z"), Some(vec![]));
    assert_eq!(base64_decode("Zm9v*mFy"), None);
    assert_eq!(base64_decode("Zm=9"), None);
}

#[test]
fn encrypt_matches_the_xor_over_base64_scheme() {
    // 'a' ^ 'P' = 0x31, 'l' ^ 'o' = 0x03, 'i' ^ 'l' = 0x05, 'c' ^ 'i' = 0x0a, 'e' ^ 'R' = 0x37
    assert_eq!(encrypt("alice"), base64_encode(&[0x31, 0x03, 0x05, 0x0a, 0x37]));
    assert_eq!(encrypt(""), "");
    assert_ne!(encrypt("alice"), "alice");
}

#[test]
fn config_round_trip() {
    let mut config = Config::default();
    config.save_credentials("alice", "1234");
    let enc = config.cached_credentials.clone().unwrap();
    assert_eq!(decrypt(&enc.username_encrypted), Some("alice".to_string()));
    assert_eq!(decrypt(&enc.pin_encrypted), Some("1234".to_string()));
    let creds = config.get_credentials().unwrap();
    assert_eq!(creds.username, "alice");
    assert_eq!(creds.pin, "1234");
    config.clear_credentials();
    assert!(config.cached_credentials.is_none());
    assert!(config.get_credentials().is_none());
}

#[test]
fn provider_base_urls() {
    assert_eq!(LlmProvider::LmStudio.base_url(), "http://localhost:1234/v1");
    assert_eq!(LlmProvider::OpenRouter.base_url(), "https://openrouter.ai/api/v1");
    assert!(LlmProvider::default() == LlmProvider::LmStudio);
}

#[test]
fn decrypt_rejects_what_is_no_secret() {
    assert_eq!(decrypt("not base64!"), None);
    // 0xFF ^ 'P' is not the start of any UTF-8 text after it is combined with the key again.
    let bytes = [0xFFu8 ^ 0x50];
    assert_eq!(decrypt(&base64_encode(&bytes)), None);
    assert_eq!(decrypt(""), Some(String::new()));
    for secret in ["", "a", "contraseña", "1234", "a much longer secret than the key of the cache is"] {
        assert_eq!(decrypt(&encrypt(secret)), Some(secret.to_string()));
    }
}

#[test]
fn base64_round_trips_every_length() {
    let mut bytes = Vec::new();
    for i in 0..70u32 {
        assert_eq!(base64_decode(&base64_encode(&bytes)), Some(bytes.clone()));
        bytes.push((i * 37 % 256) as u8);
    }
}
