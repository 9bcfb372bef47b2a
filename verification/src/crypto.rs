use aes_gcm::aead::{Aead, KeyInit};
use aes_gcm::{Aes256Gcm, Nonce};
use base64::Engine;
use rand::RngCore;
use vstd::prelude::*;
use vstd::utf8::*;

verus! {

// ── AES-256-GCM ─────────────────────────────────────────────────

/// The largest plaintext, in bytes, that AES-GCM accepts (`aes_gcm::P_MAX`).
pub open spec fn aes_gcm_p_max() -> int {
    0x10_0000_0000
}

/// The ciphertext (with its 16-byte tag appended) that AES-256-GCM produces
/// for `plaintext` under `key` and `nonce`, with no associated data.
pub uninterp spec fn aes256gcm_seal(key: Seq<u8>, nonce: Seq<u8>, plaintext: Seq<u8>) -> Seq<u8>;

/// What AES-256-GCM decryption of `ciphertext` under `key` and `nonce`
/// gives: `None` when the tag does not authenticate.
pub uninterp spec fn aes256gcm_open(key: Seq<u8>, nonce: Seq<u8>, ciphertext: Seq<u8>) -> Option<Seq<u8>>;

/// Calls `Aes256Gcm::new` and `Aead::encrypt` of the `aes-gcm` crate.
/// Claims: the call fails exactly when the plaintext is longer than
/// `P_MAX` (its error then displays as `aead::Error`); otherwise the
/// ciphertext is the named seal of the arguments and is 16 bytes (the tag)
/// longer than the plaintext.
#[verifier::external_body]
pub(crate) fn aes256gcm_encrypt(key: &[u8; 32], nonce: &[u8; 12], plaintext: &[u8]) -> (res: Result<Vec<u8>, String>)
    ensures
        res is Ok <==> plaintext@.len() <= aes_gcm_p_max(),
        res matches Ok(c) ==> c@ == aes256gcm_seal(key@, nonce@, plaintext@)
            && c@.len() == plaintext@.len() + 16,
        res matches Err(e) ==> e@ == "aead::Error"@,
{
    let cipher = Aes256Gcm::new(key.into());
    cipher.encrypt(Nonce::from_slice(nonce), plaintext).map_err(|e| e.to_string())
}

/// Calls `Aes256Gcm::new` and `Aead::decrypt` of the `aes-gcm` crate
/// (`Nonce::from_slice` panics unless the nonce has 12 bytes).
/// Claims: the result is the named opening of the arguments, and, as the
/// crate's source shows (the same counter keystream, the same tag), a
/// ciphertext that the seal produced opens to its plaintext.
#[verifier::external_body]
pub(crate) fn aes256gcm_decrypt(key: &[u8; 32], nonce: &[u8], ciphertext: &[u8]) -> (res: Option<Vec<u8>>)
    requires
        nonce@.len() == 12,
    ensures
        res matches Some(p) ==> aes256gcm_open(key@, nonce@, ciphertext@) == Some(p@),
        res is None ==> aes256gcm_open(key@, nonce@, ciphertext@) is None,
        forall|p: Seq<u8>|
            p.len() <= aes_gcm_p_max() && ciphertext@ == #[trigger] aes256gcm_seal(key@, nonce@, p)
                ==> (res is Some && res.unwrap()@ == p),
{
    let cipher = Aes256Gcm::new(key.into());
    cipher.decrypt(Nonce::from_slice(nonce), ciphertext).ok()
}

// ── Base64 (standard alphabet, padded) ──────────────────────────

/// The base64 text of `bytes` under `base64::engine::general_purpose::STANDARD`.
pub uninterp spec fn b64_encode(bytes: Seq<u8>) -> Seq<char>;

/// What `STANDARD.decode` gives for `text`: the bytes, or the text of the
/// `DecodeError`.
pub uninterp spec fn b64_decode(text: Seq<char>) -> Result<Seq<u8>, Seq<char>>;

/// A character of the standard base64 alphabet, or the padding `=`.
pub open spec fn is_b64_char(c: char) -> bool {
    ('A' <= c && c <= 'Z') || ('a' <= c && c <= 'z') || ('0' <= c && c <= '9') || c == '+'
        || c == '/' || c == '='
}

/// Calls `Engine::encode` on `base64::engine::general_purpose::STANDARD`
/// (which panics only when the output length overflows `usize`, which no
/// input of at most `isize::MAX` bytes does).
/// Claims: the text is the named encoding, is 4 characters for every 3
/// bytes begun (padding on), uses only the standard alphabet and `=`, and
/// decodes back to the bytes (the encoding is canonical: padded, with no
/// trailing bits, which is what `STANDARD` decoding asks for).
#[verifier::external_body]
pub(crate) fn base64_encode(bytes: &[u8]) -> (res: String)
    requires
        bytes@.len() <= isize::MAX,
    ensures
        res@ == b64_encode(bytes@),
        b64_decode(res@) is Ok && b64_decode(res@)->Ok_0 == bytes@,
        res@.len() == 4 * ((bytes@.len() + 2) / 3),
        forall|i: int| 0 <= i < res@.len() ==> is_b64_char(#[trigger] res@[i]),
{
    base64::engine::general_purpose::STANDARD.encode(bytes)
}

/// Calls `Engine::decode` on `base64::engine::general_purpose::STANDARD`
/// with the UTF-8 bytes of `text`, mapping a `DecodeError` to its text.
/// Claims: the result is the named decoding, and the text that the encoding
/// produced for some bytes decodes to those bytes (canonical padding, no
/// trailing bits).
#[verifier::external_body]
pub(crate) fn base64_decode(text: &str) -> (res: Result<Vec<u8>, String>)
    ensures
        res is Ok <==> b64_decode(text@) is Ok,
        res matches Ok(v) ==> b64_decode(text@)->Ok_0 == v@,
        res matches Err(e) ==> b64_decode(text@)->Err_0 == e@,
        forall|b: Seq<u8>| text@ == #[trigger] b64_encode(b) ==> (res is Ok && res.unwrap()@ == b),
{
    base64::engine::general_purpose::STANDARD.decode(text).map_err(|e| e.to_string())
}

// ── UTF-8 ───────────────────────────────────────────────────────

/// The text of the `FromUtf8Error` that `String::from_utf8` gives for
/// bytes that are not valid UTF-8 (it names where the bad sequence starts).
pub uninterp spec fn utf8_error_text(bytes: Seq<u8>) -> Seq<char>;

/// Calls `String::from_utf8`, mapping the error to its text.
/// Claims (as its documentation says): `Ok` exactly for valid UTF-8, with the
/// characters that the bytes encode; otherwise the error's text, named.
#[verifier::external_body]
pub(crate) fn string_from_utf8(bytes: Vec<u8>) -> (res: Result<String, String>)
    ensures
        res matches Ok(s) ==> valid_utf8(bytes@) && s@ == decode_utf8(bytes@),
        res matches Err(e) ==> !valid_utf8(bytes@) && e@ == utf8_error_text(bytes@),
{
    String::from_utf8(bytes).map_err(|e| e.to_string())
}

// ── Randomness ──────────────────────────────────────────────────

/// Calls `RngCore::fill_bytes` on `rand::thread_rng()` for `N` bytes
/// (it panics only if the operating system's generator cannot be
/// initialised). Nothing is claimed of the bytes.
#[verifier::external_body]
pub(crate) fn random_bytes<const N: usize>() -> (res: [u8; N]) {
    let mut bytes = [0u8; N];
    rand::thread_rng().fill_bytes(&mut bytes);
    bytes
}

} // verus!
