use vstd::prelude::*;
use vstd::utf8::{encode_utf8, decode_utf8, valid_utf8, encode_utf8_valid_utf8, encode_utf8_decode_utf8};
use std::path::PathBuf;
use aes_gcm::aead::{Aead, KeyInit};
use aes_gcm::{Aes256Gcm, Key, Nonce};
use base64::Engine;
use crate::text::concat_str;

verus! {

/// `std::path::PathBuf`, carried as it is.
#[verifier::external_type_specification]
#[verifier::external_body]
pub struct ExPathBuf(PathBuf);

/// The largest plaintext, in bytes, that AES-GCM seals (`aes_gcm::P_MAX`).
pub const SEAL_LIMIT: u64 = 0x10_0000_0000;

/// The key with which the stored API key is sealed.
pub const ENCRYPTION_KEY: [u8; 32] = [
    114u8, 111u8, 115u8, 116u8, 114u8, 95u8, 115u8, 101u8, 99u8, 117u8, 114u8, 101u8, 95u8, 107u8,
    101u8, 121u8, 95u8, 51u8, 50u8, 95u8, 98u8, 121u8, 116u8, 101u8, 115u8, 95u8, 108u8, 111u8,
    110u8, 103u8, 95u8, 33u8,
];

/// What AES-256-GCM sealing (`Aead::encrypt`) gives for a key, a nonce and a plaintext, with
/// no associated data: the ciphertext followed by its tag.
pub uninterp spec fn aes_gcm_sealed(key: Seq<u8>, nonce: Seq<u8>, plaintext: Seq<u8>) -> Seq<u8>;

/// What AES-256-GCM opening (`Aead::decrypt`) gives for a key, a nonce and a sealed message:
/// the plaintext, or nothing when the tag does not match.
pub uninterp spec fn aes_gcm_opened(key: Seq<u8>, nonce: Seq<u8>, sealed: Seq<u8>) -> Option<Seq<u8>>;

/// The standard, padded base64 text of a byte string.
pub uninterp spec fn base64_encoded(bytes: Seq<u8>) -> Seq<char>;

/// What the standard base64 engine decodes from a text: the bytes, or the message of its
/// `DecodeError`.
pub uninterp spec fn base64_decoded(text: Seq<char>) -> Result<Seq<u8>, Seq<char>>;

/// The message of the `FromUtf8Error` for bytes that are not UTF-8.
pub uninterp spec fn utf8_error_text(bytes: Seq<u8>) -> Seq<char>;

/// Twelve random bytes from `rand::random` (the thread-local generator); nothing is promised
/// of their values.
#[verifier::external_body]
fn random_nonce() -> (r: Vec<u8>)
    ensures
        r@.len() == 12,
{
    rand::random::<[u8; 12]>().to_vec()
}

/// Seals `plaintext` with AES-256-GCM (`Aes256Gcm::new`, then `Aead::encrypt`). The crate
/// refuses plaintexts longer than `P_MAX` bytes and otherwise gives the ciphertext followed
/// by its 16-byte tag.
#[verifier::external_body]
fn aes_gcm_seal(key: &[u8; 32], nonce: &[u8], plaintext: &[u8]) -> (r: Option<Vec<u8>>)
    requires
        nonce@.len() == 12,
    ensures
        plaintext@.len() <= SEAL_LIMIT ==> r is Some && r->0@ == aes_gcm_sealed(key@, nonce@, plaintext@),
        plaintext@.len() > SEAL_LIMIT ==> r is None,
        r is Some ==> r->0@.len() == plaintext@.len() + 16,
{
    let cipher = Aes256Gcm::new(Key::<Aes256Gcm>::from_slice(key));
    cipher.encrypt(Nonce::from_slice(nonce), plaintext).ok()
}

/// Opens a sealed message with AES-256-GCM (`Aes256Gcm::new`, then `Aead::decrypt`). What
/// was sealed with the same key and nonce opens to its plaintext.
#[verifier::external_body]
fn aes_gcm_open(key: &[u8; 32], nonce: &[u8], sealed: &[u8]) -> (r: Option<Vec<u8>>)
    requires
        nonce@.len() == 12,
    ensures
        match r {
            Some(p) => aes_gcm_opened(key@, nonce@, sealed@) == Some(p@),
            None => aes_gcm_opened(key@, nonce@, sealed@) is None,
        },
        forall|p: Seq<u8>| p.len() <= SEAL_LIMIT && sealed@ == #[trigger] aes_gcm_sealed(key@, nonce@, p) ==> r is Some && r->0@ == p,
{
    let cipher = Aes256Gcm::new(Key::<Aes256Gcm>::from_slice(key));
    cipher.decrypt(Nonce::from_slice(nonce), sealed).ok()
}

/// Encodes bytes with the standard, padded base64 engine (`general_purpose::STANDARD`).
#[verifier::external_body]
fn base64_encode(bytes: &[u8]) -> (r: String)
    ensures
        r@ == base64_encoded(bytes@),
{
    base64::engine::general_purpose::STANDARD.encode(bytes)
}

/// Decodes a text with the standard, padded base64 engine (`general_purpose::STANDARD`);
/// the text of an encoding decodes to the bytes encoded.
#[verifier::external_body]
fn base64_decode(text: &str) -> (r: Result<Vec<u8>, String>)
    ensures
        match r {
            Ok(b) => base64_decoded(text@) == Ok::<Seq<u8>, Seq<char>>(b@),
            Err(e) => base64_decoded(text@) == Err::<Seq<u8>, Seq<char>>(e@),
        },
        forall|b: Seq<u8>| text@ == #[trigger] base64_encoded(b) ==> r is Ok && r->Ok_0@ == b,
{
    match base64::engine::general_purpose::STANDARD.decode(text) {
        Ok(b) => Ok(b),
        Err(e) => Err(e.to_string()),
    }
}

/// `String::from_utf8`: the text that UTF-8 bytes encode, or the message of the error.
#[verifier::external_body]
fn utf8_string(bytes: Vec<u8>) -> (r: Result<String, String>)
    ensures
        match r {
            Ok(s) => valid_utf8(bytes@) && s@ == decode_utf8(bytes@),
            Err(e) => !valid_utf8(bytes@) && e@ == utf8_error_text(bytes@),
        },
{
    match String::from_utf8(bytes) {
        Ok(s) => Ok(s),
        Err(e) => Err(e.to_string()),
    }
}

/// The stored form of an API key sealed under `nonce`: the base64 text of the nonce followed
/// by the sealed UTF-8 bytes of the key.
pub open spec fn sealed_text(key: Seq<char>, nonce: Seq<u8>) -> Seq<char> {
    base64_encoded(nonce + aes_gcm_sealed(ENCRYPTION_KEY@, nonce, encode_utf8(key)))
}

/// What reading a stored API key gives: the key, or the message of the first step that fails.
pub open spec fn opened_text(text: Seq<char>) -> Result<Seq<char>, Seq<char>> {
    match base64_decoded(text) {
        Err(e) => Err("Base64 decode failed: "@ + e),
        Ok(c) => opened_bytes(c),
    }
}

/// What opening the decoded bytes of a stored API key gives: the first 12 bytes are the
/// nonce and the rest the sealed UTF-8 bytes of the key; or the message of the step that
/// fails.
pub open spec fn opened_bytes(c: Seq<u8>) -> Result<Seq<char>, Seq<char>> {
    if c.len() < 12 {
        Err("Invalid encrypted data"@)
    } else {
        match aes_gcm_opened(ENCRYPTION_KEY@, c.take(12), c.skip(12)) {
            None => Err("Decryption failed: aead::Error"@),
            Some(p) => if valid_utf8(p) {
                Ok(decode_utf8(p))
            } else {
                Err("UTF-8 decode failed: "@ + utf8_error_text(p))
            },
        }
    }
}

/// The local store: an SQLite file at `path`.
pub struct Database {
    pub path: PathBuf,
}

impl Database {
    /// Seals an API key for storage under a fresh random nonce (see [`sealed_text`]); the
    /// sealed part is 16 bytes longer than the key's UTF-8 bytes. It fails exactly for a key
    /// longer than AES-GCM takes.
    pub fn encrypt(&self, plaintext: &str) -> (r: Result<String, String>)
        ensures
            match r {
                Ok(t) => exists|n: Seq<u8>|
                    n.len() == 12 && t@ == #[trigger] sealed_text(plaintext@, n)
                        && aes_gcm_sealed(ENCRYPTION_KEY@, n, encode_utf8(plaintext@)).len()
                        == encode_utf8(plaintext@).len() + 16,
                Err(m) => encode_utf8(plaintext@).len() > SEAL_LIMIT && m@
                    == "Encryption failed: aead::Error"@,
            },
            encode_utf8(plaintext@).len() <= SEAL_LIMIT <==> r is Ok,
    {
        let nonce = random_nonce();
        let bytes = plaintext.as_bytes();
        let sealed = match aes_gcm_seal(&ENCRYPTION_KEY, nonce.as_slice(), bytes) {
            Some(c) => c,
            None => return Err(String::from_str("Encryption failed: aead::Error")),
        };
        let mut combined: Vec<u8> = Vec::new();
        let mut i: usize = 0;
        while i < nonce.len()
            invariant
                i <= nonce.len(),
                combined@ == nonce@.take(i as int),
            decreases nonce.len() - i,
        {
            combined.push(nonce[i]);
            proof {
                assert(nonce@.take(i as int + 1) =~= nonce@.take(i as int).push(nonce@[i as int]));
            }
            i = i + 1;
        }
        let mut j: usize = 0;
        while j < sealed.len()
            invariant
                j <= sealed.len(),
                combined@ == nonce@ + sealed@.take(j as int),
            decreases sealed.len() - j,
        {
            combined.push(sealed[j]);
            proof {
                assert(sealed@.take(j as int + 1) =~= sealed@.take(j as int).push(sealed@[j as int]));
                assert(nonce@ + sealed@.take(j as int + 1) =~= (nonce@ + sealed@.take(j as int)).push(sealed@[j as int]));
            }
            j = j + 1;
        }
        proof {
            assert(nonce@.take(12) =~= nonce@);
            assert(sealed@.take(sealed@.len() as int) =~= sealed@);
        }
        let text = base64_encode(combined.as_slice());
        assert(text@ == sealed_text(plaintext@, nonce@));
        Ok(text)
    }

    /// Reads a stored API key back (see [`opened_text`]). Whatever [`Database::encrypt`]
    /// stored opens to the key it sealed.
    pub fn decrypt(&self, encrypted: &str) -> (r: Result<String, String>)
        ensures
            match r {
                Ok(s) => opened_text(encrypted@) == Ok::<Seq<char>, Seq<char>>(s@),
                Err(m) => opened_text(encrypted@) == Err::<Seq<char>, Seq<char>>(m@),
            },
            forall|k: Seq<char>, n: Seq<u8>|
                n.len() == 12 && encode_utf8(k).len() <= SEAL_LIMIT && encrypted@
                    == #[trigger] sealed_text(k, n) ==> r is Ok && r->Ok_0@ == k,
    {
        let combined = match base64_decode(encrypted) {
            Ok(v) => v,
            Err(e) => return Err(concat_str("Base64 decode failed: ", e.as_str())),
        };
        let out = open_sealed(combined.as_slice());
        proof {
            assert forall|k: Seq<char>, n: Seq<u8>|
                n.len() == 12 && encode_utf8(k).len() <= SEAL_LIMIT && encrypted@
                    == #[trigger] sealed_text(k, n) implies out is Ok && out->Ok_0@ == k by {
                let all = n + aes_gcm_sealed(ENCRYPTION_KEY@, n, encode_utf8(k));
                assert(combined@ == all);
            }
        }
        out
    }
}

/// Opens the decoded bytes of a stored API key (see [`opened_bytes`]). The nonce followed by
/// what sealing a key under it gave opens to that key.
pub fn open_sealed(combined: &[u8]) -> (r: Result<String, String>)
    ensures
        match r {
            Ok(s) => opened_bytes(combined@) == Ok::<Seq<char>, Seq<char>>(s@),
            Err(m) => opened_bytes(combined@) == Err::<Seq<char>, Seq<char>>(m@),
        },
        forall|k: Seq<char>, n: Seq<u8>|
            n.len() == 12 && encode_utf8(k).len() <= SEAL_LIMIT && combined@
                == #[trigger] (n + aes_gcm_sealed(ENCRYPTION_KEY@, n, encode_utf8(k))) ==> r is Ok
                && r->Ok_0@ == k,
{
    if combined.len() < 12 {
        return Err(String::from_str("Invalid encrypted data"));
    }
    let mut nonce: Vec<u8> = Vec::new();
    let mut rest: Vec<u8> = Vec::new();
    let mut i: usize = 0;
    while i < combined.len()
        invariant
            12 <= combined.len(),
            i <= combined.len(),
            i <= 12 ==> nonce@ == combined@.take(i as int) && rest@.len() == 0,
            i > 12 ==> nonce@ == combined@.take(12) && rest@ == combined@.subrange(12, i as int),
        decreases combined.len() - i,
    {
        if i < 12 {
            nonce.push(combined[i]);
            proof {
                assert(combined@.take(i as int + 1) =~= combined@.take(i as int).push(combined@[i as int]));
            }
        } else {
            rest.push(combined[i]);
            proof {
                assert(combined@.subrange(12, i as int + 1) =~= combined@.subrange(12, i as int).push(combined@[i as int]));
            }
        }
        i = i + 1;
    }
    proof {
        if combined.len() == 12 {
            assert(combined@.skip(12) =~= rest@);
        } else {
            assert(combined@.skip(12) =~= rest@);
        }
    }
    let opened = aes_gcm_open(&ENCRYPTION_KEY, nonce.as_slice(), rest.as_slice());
    proof {
        assert forall|k: Seq<char>, n: Seq<u8>|
            n.len() == 12 && encode_utf8(k).len() <= SEAL_LIMIT && combined@
                == #[trigger] (n + aes_gcm_sealed(ENCRYPTION_KEY@, n, encode_utf8(k))) implies opened is Some && opened->0@
                == encode_utf8(k) by {
            let sealed = aes_gcm_sealed(ENCRYPTION_KEY@, n, encode_utf8(k));
            let all = n + sealed;
            assert(all.take(12) =~= n);
            assert(all.skip(12) =~= sealed);
            assert(nonce@ == n);
            assert(rest@ == aes_gcm_sealed(ENCRYPTION_KEY@, nonce@, encode_utf8(k)));
        }
    }
    let plain = match opened {
        Some(p) => p,
        None => return Err(String::from_str("Decryption failed: aead::Error")),
    };
    let ghost pb = plain@;
    let out = match utf8_string(plain) {
        Ok(s) => Ok(s),
        Err(e) => Err(concat_str("UTF-8 decode failed: ", e.as_str())),
    };
    proof {
        assert forall|k: Seq<char>, n: Seq<u8>|
            n.len() == 12 && encode_utf8(k).len() <= SEAL_LIMIT && combined@
                == #[trigger] (n + aes_gcm_sealed(ENCRYPTION_KEY@, n, encode_utf8(k))) implies out is Ok && out->Ok_0@ == k by {
            assert(pb == encode_utf8(k));
            encode_utf8_valid_utf8(k);
            encode_utf8_decode_utf8(k);
        }
    }
    out
}

} // verus!
