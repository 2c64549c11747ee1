use aes_gcm::aead::{Aead, KeyInit};
use base64::Engine;
use rand::RngCore;
use vstd::prelude::*;
use zeroize::Zeroize;

verus! {

/// Largest plaintext that AES-GCM accepts (`aes_gcm::P_MAX`, 2^36 bytes).
pub open spec fn aes_gcm_max_plaintext() -> nat {
    0x10_0000_0000nat
}

/// AES-256-GCM sealing (no associated data): ciphertext followed by the tag.
pub uninterp spec fn aes256gcm_seal(key: Seq<u8>, nonce: Seq<u8>, plaintext: Seq<u8>) -> Seq<u8>;

/// AES-256-GCM opening (no associated data): the plaintext when the tag
/// checks, `None` otherwise.
pub uninterp spec fn aes256gcm_open(key: Seq<u8>, nonce: Seq<u8>, sealed: Seq<u8>) -> Option<Seq<u8>>;

/// The 32-byte Argon2id key that `Argon2::default().hash_password_into`
/// derives from a password and a salt.
pub uninterp spec fn argon2id_key(password: Seq<u8>, salt: Seq<u8>) -> Seq<u8>;

/// The standard, padded base64 text of a byte string.
pub uninterp spec fn base64_encode(bytes: Seq<u8>) -> Seq<char>;

/// Decoding of standard, padded base64 text: the bytes, or the decoder's
/// error message.
pub uninterp spec fn base64_decode(text: Seq<char>) -> Result<Seq<u8>, Seq<char>>;

/// Calls `Aes256Gcm::new_from_slice` and `Aead::encrypt` (crate `aes-gcm`).
/// The key length makes the cipher construction succeed; encryption fails
/// exactly when the plaintext is longer than `P_MAX` (2^36 bytes), and
/// `aead::Error` displays as "aead::Error". The result is named by `aes256gcm_seal`, is 16 bytes (the
/// tag) longer than the plaintext, and opens to the plaintext under the same
/// key and nonce.
#[verifier::external_body]
pub(crate) fn aes256gcm_encrypt(key: &[u8], nonce: &[u8], plaintext: &[u8]) -> (r: Result<Vec<u8>, String>)
    requires
        key@.len() == 32,
        nonce@.len() == 12,
    ensures
        match r {
            Ok(ct) => {
                &&& plaintext@.len() <= aes_gcm_max_plaintext()
                &&& ct@ == aes256gcm_seal(key@, nonce@, plaintext@)
                &&& ct@.len() == plaintext@.len() + 16
                &&& aes256gcm_open(key@, nonce@, ct@) == Some(plaintext@)
            },
            Err(m) => plaintext@.len() > aes_gcm_max_plaintext() && m@ == "aead::Error"@,
        },
        plaintext@.len() <= aes_gcm_max_plaintext() ==> r is Ok,
{
    let cipher = aes_gcm::Aes256Gcm::new_from_slice(key).map_err(|e| e.to_string())?;
    cipher.encrypt(aes_gcm::Nonce::from_slice(nonce), plaintext).map_err(|e| e.to_string())
}

/// Calls `Aes256Gcm::new_from_slice` and `Aead::decrypt` (crate `aes-gcm`).
/// The key length makes the cipher construction succeed; the result is
/// named by `aes256gcm_open`: the plaintext, or an error when the tag does
/// not check (or the input is shorter than a tag).
#[verifier::external_body]
pub(crate) fn aes256gcm_decrypt(key: &[u8], nonce: &[u8], sealed: &[u8]) -> (r: Result<Vec<u8>, ()>)
    requires
        key@.len() == 32,
        nonce@.len() == 12,
    ensures
        match r {
            Ok(p) => aes256gcm_open(key@, nonce@, sealed@) == Some(p@),
            Err(_) => aes256gcm_open(key@, nonce@, sealed@) is None,
        },
{
    let cipher = aes_gcm::Aes256Gcm::new_from_slice(key).map_err(|_| ())?;
    cipher.decrypt(aes_gcm::Nonce::from_slice(nonce), sealed).map_err(|_| ())
}

/// Calls `Argon2::default().hash_password_into` (crate `argon2`) with a
/// 32-byte output. With a salt of 8 to 2^32-1 bytes it fails only for a
/// password longer than 2^32-1 bytes (`Error::PwdTooLong`, displayed as
/// "password is too long"); the key is named by `argon2id_key`.
#[verifier::external_body]
pub(crate) fn argon2id_derive(password: &[u8], salt: &[u8]) -> (r: Result<Vec<u8>, String>)
    requires
        8 <= salt@.len() <= 0xFFFF_FFFF,
    ensures
        match r {
            Ok(k) => k@ == argon2id_key(password@, salt@) && k@.len() == 32 && password@.len() <= 0xFFFF_FFFF,
            Err(m) => password@.len() > 0xFFFF_FFFF && m@ == "password is too long"@,
        },
        password@.len() <= 0xFFFF_FFFF ==> r is Ok,
{
    let mut key = vec![0u8; 32];
    argon2::Argon2::default().hash_password_into(password, salt, &mut key).map_err(|e| e.to_string())?;
    Ok(key)
}

/// Calls `base64::engine::general_purpose::STANDARD.encode`; the text is
/// named by `base64_encode` and decodes back to the bytes.
#[verifier::external_body]
pub(crate) fn base64_encode_bytes(bytes: &[u8]) -> (r: String)
    ensures
        r@ == base64_encode(bytes@),
        base64_decode(r@) is Ok && base64_decode(r@)->Ok_0 == bytes@,
{
    base64::engine::general_purpose::STANDARD.encode(bytes)
}

/// Calls `base64::engine::general_purpose::STANDARD.decode`; the result is
/// named by `base64_decode` (the error as its text).
#[verifier::external_body]
pub(crate) fn base64_decode_text(text: &str) -> (r: Result<Vec<u8>, String>)
    ensures
        match r {
            Ok(b) => base64_decode(text@) is Ok && base64_decode(text@)->Ok_0 == b@,
            Err(m) => base64_decode(text@) is Err && base64_decode(text@)->Err_0 == m@,
        },
{
    base64::engine::general_purpose::STANDARD.decode(text).map_err(|e| e.to_string())
}

/// Calls `rand::RngCore::fill_bytes` on the operating-system generator
/// (`aes_gcm::aead::OsRng`). The bytes are random: only their number is
/// stated.
#[verifier::external_body]
pub(crate) fn random_bytes(n: usize) -> (r: Vec<u8>)
    ensures
        r@.len() == n,
{
    let mut b = vec![0u8; n];
    aes_gcm::aead::OsRng.fill_bytes(&mut b);
    b
}

/// Calls `zeroize::Zeroize::zeroize` on a byte vector: its bytes are
/// overwritten with zeros and it is left empty.
#[verifier::external_body]
pub(crate) fn wipe(bytes: &mut Vec<u8>)
    ensures
        final(bytes)@.len() == 0,
{
    bytes.zeroize();
}

/// The message of the `FromUtf8Error` that `String::from_utf8` reports for
/// bytes that are not valid UTF-8.
pub uninterp spec fn utf8_error_message(bytes: Seq<u8>) -> Seq<char>;

/// Calls `String::from_utf8`: the text when the bytes are valid UTF-8, the
/// error's text (named by `utf8_error_message`) otherwise.
#[verifier::external_body]
pub(crate) fn utf8_to_string(bytes: Vec<u8>) -> (r: Result<String, String>)
    ensures
        match r {
            Ok(s) => vstd::utf8::valid_utf8(bytes@) && s@ == vstd::utf8::decode_utf8(bytes@),
            Err(m) => !vstd::utf8::valid_utf8(bytes@) && m@ == utf8_error_message(bytes@),
        },
{
    String::from_utf8(bytes).map_err(|e| e.to_string())
}

} // verus!
