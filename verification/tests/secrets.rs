use rostr::secrets::{open_sealed, Database};
use base64::Engine;
use std::path::PathBuf;

fn db() -> Database {
    Database { path: PathBuf::from("unused.db") }
}

#[test]
fn api_key_round_trip() {
    let d = db();
    for key in ["gsk_abc123", "", "ключ ✓"] {
        let sealed = d.encrypt(key).unwrap();
        assert_ne!(sealed, key);
        assert_eq!(d.decrypt(&sealed), Ok(key.to_string()));
    }
}

#[test]
fn sealing_twice_differs() {
    let d = db();
    assert_ne!(d.encrypt("same").unwrap(), d.encrypt("same").unwrap());
}

#[test]
fn decrypt_errors() {
    let d = db();
    assert!(d.decrypt("%%%").unwrap_err().starts_with("Base64 decode failed: "));
    assert_eq!(d.decrypt("AAAA"), Err("Invalid encrypted data".to_string()));
    let sealed = d.encrypt("key").unwrap();
    let mut chars: Vec<char> = sealed.chars().collect();
    chars[20] = if chars[20] == 'A' { 'B' } else { 'A' };
    let tampered: String = chars.into_iter().collect();
    assert_eq!(d.decrypt(&tampered), Err("Decryption failed: aead::Error".to_string()));
}

#[test]
fn open_decoded_bytes() {
    assert_eq!(open_sealed(&[1, 2, 3]), Err("Invalid encrypted data".to_string()));
    assert_eq!(open_sealed(&[0; 40]), Err("Decryption failed: aead::Error".to_string()));
    let sealed = db().encrypt("k-42").unwrap();
    let bytes = base64::engine::general_purpose::STANDARD.decode(sealed).unwrap();
    assert_eq!(bytes.len(), 12 + 4 + 16);
    assert_eq!(open_sealed(&bytes), Ok("k-42".to_string()));
}
