//! Authenticated encryption of one text payload under a 256-bit key, with a
//! fresh random 96-bit nonce per message; both travel as hex text.

use aes_gcm::aead::Aead;
use aes_gcm::KeyInit;
use rand::Rng;
use vstd::prelude::*;
use vstd::utf8::*;
use crate::hexcode::{hex_decode, hex_encode, hex_of, hex_parse, lemma_hex_round_trip};

verus! {

/// Nonce length of AES-256-GCM, in bytes.
pub const NONCE_LEN: usize = 12;

/// Length of the authentication tag appended to each ciphertext, in bytes.
pub const TAG_LEN: usize = 16;

/// The longest plaintext, in bytes, that AES-GCM accepts.
pub const MAX_PLAINTEXT_LEN: u64 = 0x10_0000_0000;

/// AES-256-GCM sealing, with no associated data: ciphertext followed by tag.
pub uninterp spec fn aes_seal(key: Seq<u8>, nonce: Seq<u8>, plain: Seq<u8>) -> Seq<u8>;

/// AES-256-GCM opening, with no associated data: the plaintext if the tag
/// authenticates the ciphertext under this key and nonce, `None` otherwise.
pub uninterp spec fn aes_open(key: Seq<u8>, nonce: Seq<u8>, sealed: Seq<u8>) -> Option<Seq<u8>>;

#[verifier::external_type_specification]
#[verifier::external_body]
pub struct ExAeadError(aes_gcm::Error);

/// Relies on `Aes256Gcm::new` and `Aead::encrypt`: the sealed message, which
/// the same key and nonce open again; an error only past `P_MAX` bytes.
#[verifier::external_body]
fn aes_seal_call(key: &[u8; 32], nonce: &[u8], plain: &[u8]) -> (r: Result<Vec<u8>, aes_gcm::Error>)
    requires
        nonce@.len() == NONCE_LEN,
    ensures
        match r {
            Ok(c) => {
                &&& c@ == aes_seal(key@, nonce@, plain@)
                &&& c@.len() == plain@.len() + TAG_LEN
                &&& aes_open(key@, nonce@, c@) == Some(plain@)
            },
            Err(_) => plain@.len() > MAX_PLAINTEXT_LEN,
        },
{
    let cipher = aes_gcm::Aes256Gcm::new(key.into());
    cipher.encrypt(aes_gcm::Nonce::from_slice(nonce), plain)
}

/// Relies on `Aes256Gcm::new` and `Aead::decrypt`: the plaintext when the tag
/// authenticates the message, an error otherwise.
#[verifier::external_body]
fn aes_open_call(key: &[u8; 32], nonce: &[u8], sealed: &[u8]) -> (r: Result<Vec<u8>, aes_gcm::Error>)
    requires
        nonce@.len() == NONCE_LEN,
    ensures
        match r {
            Ok(p) => aes_open(key@, nonce@, sealed@) == Some(p@),
            Err(_) => aes_open(key@, nonce@, sealed@) is None,
        },
{
    let cipher = aes_gcm::Aes256Gcm::new(key.into());
    cipher.decrypt(aes_gcm::Nonce::from_slice(nonce), sealed)
}

/// Relies on `rand::rng` and `Rng::random`: twelve bytes from the thread's
/// cryptographically secure generator. Nothing is promised of their value.
#[verifier::external_body]
fn random_nonce() -> (r: [u8; 12]) {
    rand::rng().random()
}

/// Relies on `String::from_utf8`: the text when the bytes are valid UTF-8,
/// an error otherwise.
#[verifier::external_body]
pub(crate) fn utf8_text(bytes: Vec<u8>) -> (r: Option<String>)
    ensures
        match r {
            Some(s) => valid_utf8(bytes@) && s@ == decode_utf8(bytes@),
            None => !valid_utf8(bytes@),
        },
{
    String::from_utf8(bytes).ok()
}

/// What `decrypt` gives for a hex nonce and hex ciphertext: the text, or
/// `None` when either field is not hex, the nonce is not twelve bytes, the
/// tag does not authenticate, or the plaintext is not UTF-8.
pub open spec fn opened_text(key: Seq<u8>, nonce_hex: Seq<u8>, cipher_hex: Seq<u8>) -> Option<Seq<char>> {
    match (hex_parse(nonce_hex), hex_parse(cipher_hex)) {
        (Some(n), Some(c)) => if n.len() == NONCE_LEN {
            match aes_open(key, n, c) {
                Some(p) => if valid_utf8(p) {
                    Some(decode_utf8(p))
                } else {
                    None
                },
                None => None,
            }
        } else {
            None
        },
        _ => None,
    }
}

/// Whether `(nonce_hex, cipher_hex)` is the hex form of `plain` sealed under
/// `key` with some twelve-byte nonce.
pub open spec fn is_sealing_of(key: Seq<u8>, plain: Seq<char>, nonce_hex: Seq<u8>, cipher_hex: Seq<u8>) -> bool {
    exists|n: Seq<u8>|
        n.len() == NONCE_LEN && #[trigger] hex_of(n) == nonce_hex
            && cipher_hex == hex_of(aes_seal(key, n, encode_utf8(plain)))
}

/// Encrypts `plaintext` under `key` with a fresh random nonce. Returns the
/// nonce and the ciphertext with its tag, both as lowercase hex text.
/// Decrypting the pair under the same key gives `plaintext` back.
pub fn encrypt(plaintext: &str, key: &[u8; 32]) -> (r: (Vec<u8>, Vec<u8>))
    requires
        encode_utf8(plaintext@).len() <= MAX_PLAINTEXT_LEN,
    ensures
        is_sealing_of(key@, plaintext@, r.0@, r.1@),
        opened_text(key@, r.0@, r.1@) == Some(plaintext@),
        r.0@.len() == 2 * NONCE_LEN,
        r.1@.len() == 2 * (encode_utf8(plaintext@).len() + TAG_LEN),
{
    let nonce = random_nonce();
    let plain = plaintext.as_bytes();
    let sealed = match aes_seal_call(key, nonce.as_slice(), plain) {
        Ok(c) => c,
        Err(_) => {
            proof {
                assert(false);
            }
            return (Vec::new(), Vec::new());
        },
    };
    let nonce_hex = hex_encode(nonce.as_slice());
    let cipher_hex = hex_encode(sealed.as_slice());
    proof {
        lemma_hex_round_trip(nonce@);
        lemma_hex_round_trip(sealed@);
        encode_utf8_valid_utf8(plaintext@);
        encode_utf8_decode_utf8(plaintext@);
        assert(hex_of(nonce@) == nonce_hex@);
    }
    (nonce_hex, cipher_hex)
}

/// Decrypts a hex nonce and hex ciphertext under `key`. Every failure (bad
/// hex, a nonce of the wrong length, a tag that does not authenticate,
/// a plaintext that is not UTF-8) gives `None`, with no hint of which.
pub fn decrypt(nonce_hex: &[u8], cipher_hex: &[u8], key: &[u8; 32]) -> (r: Option<String>)
    ensures
        r matches Some(s) ==> opened_text(key@, nonce_hex@, cipher_hex@) == Some(s@),
        r is None ==> opened_text(key@, nonce_hex@, cipher_hex@) is None,
{
    let nonce = match hex_decode(nonce_hex) {
        Ok(n) => n,
        Err(_) => return None,
    };
    let sealed = match hex_decode(cipher_hex) {
        Ok(c) => c,
        Err(_) => return None,
    };
    if nonce.len() != NONCE_LEN {
        return None;
    }
    match aes_open_call(key, nonce.as_slice(), sealed.as_slice()) {
        Ok(plain) => utf8_text(plain),
        Err(_) => None,
    }
}

} // verus!
