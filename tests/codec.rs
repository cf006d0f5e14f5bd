use aes_gcm::aead::Aead;
use aes_gcm::KeyInit;
use tcp_chat::cipher::{decrypt, encrypt};
use tcp_chat::frame::{decode_frame, encode_frame, open_frame};

const KEY: [u8; 32] = *b"0123456789abcdef0123456789abcdef";
const OTHER_KEY: [u8; 32] = *b"fedcba9876543210fedcba9876543210";

#[test]
fn round_trip_plain_ascii() {
    let (n, c) = encrypt("hello", &KEY);
    assert_eq!(decrypt(&n, &c, &KEY), Some("hello".to_string()));
}

#[test]
fn round_trip_empty_and_unicode() {
    for p in ["", "héllo wörld ✓", "  spaced  ", "[a]: b:c"] {
        let (n, c) = encrypt(p, &KEY);
        assert_eq!(decrypt(&n, &c, &KEY), Some(p.to_string()));
    }
}

#[test]
fn nonce_and_ciphertext_are_lowercase_hex() {
    let (n, c) = encrypt("abc", &KEY);
    assert_eq!(n.len(), 24);
    assert_eq!(c.len(), 2 * (3 + 16));
    assert!(n.iter().chain(c.iter()).all(|b| b.is_ascii_digit() || (b'a'..=b'f').contains(b)));
    assert_eq!(hex::decode(&n).unwrap().len(), 12);
    assert_ne!(c, hex::encode("abc").into_bytes());
}

#[test]
fn wrong_key_fails() {
    let (n, c) = encrypt("secret", &KEY);
    assert_eq!(decrypt(&n, &c, &OTHER_KEY), None);
}

#[test]
fn single_bit_flips_fail() {
    let (n, c) = encrypt("authenticated", &KEY);
    let nonce = hex::decode(&n).unwrap();
    let sealed = hex::decode(&c).unwrap();
    for i in 0..sealed.len() {
        for bit in 0..8 {
            let mut m = sealed.clone();
            m[i] ^= 1 << bit;
            let mh = hex::encode(&m).into_bytes();
            assert_eq!(decrypt(&n, &mh, &KEY), None);
        }
    }
    for i in 0..nonce.len() {
        for bit in 0..8 {
            let mut m = nonce.clone();
            m[i] ^= 1 << bit;
            let mh = hex::encode(&m).into_bytes();
            assert_eq!(decrypt(&mh, &c, &KEY), None);
        }
    }
}

#[test]
fn independent_nonces_differ() {
    let (n1, c1) = encrypt("same", &KEY);
    let (n2, c2) = encrypt("same", &KEY);
    assert_ne!(n1, n2);
    assert_ne!(c1, c2);
}

#[test]
fn bad_hex_fails() {
    let (n, c) = encrypt("x", &KEY);
    assert_eq!(decrypt(b"zz", &c, &KEY), None);
    assert_eq!(decrypt(&n, b"abc", &KEY), None);
    assert_eq!(decrypt(&n, b"", &KEY), None);
}

#[test]
fn wrong_nonce_length_fails() {
    let (n, c) = encrypt("x", &KEY);
    assert_eq!(decrypt(&n[..22], &c, &KEY), None);
    let mut longer = n.clone();
    longer.extend_from_slice(b"00");
    assert_eq!(decrypt(&longer, &c, &KEY), None);
}

#[test]
fn uppercase_hex_accepted() {
    let (n, c) = encrypt("case", &KEY);
    let up_n = n.to_ascii_uppercase();
    let up_c = c.to_ascii_uppercase();
    assert_eq!(decrypt(&up_n, &up_c, &KEY), Some("case".to_string()));
}

#[test]
fn invalid_utf8_plaintext_fails() {
    let cipher = aes_gcm::Aes256Gcm::new((&KEY).into());
    let nonce = [7u8; 12];
    let sealed = cipher.encrypt(aes_gcm::Nonce::from_slice(&nonce), &[0xffu8, 0xfe][..]).unwrap();
    let n = hex::encode(nonce).into_bytes();
    let c = hex::encode(sealed).into_bytes();
    assert_eq!(decrypt(&n, &c, &KEY), None);
}

#[test]
fn known_sealing_opens() {
    let cipher = aes_gcm::Aes256Gcm::new((&KEY).into());
    let nonce = [1u8; 12];
    let sealed = cipher.encrypt(aes_gcm::Nonce::from_slice(&nonce), &b"hi there"[..]).unwrap();
    let n = hex::encode(nonce).into_bytes();
    let c = hex::encode(sealed).into_bytes();
    assert_eq!(decrypt(&n, &c, &KEY), Some("hi there".to_string()));
}

#[test]
fn frame_shape() {
    let f = encode_frame("hi", &KEY);
    assert_eq!(*f.last().unwrap(), b'\n');
    assert_eq!(f[24], b':');
    assert_eq!(f.iter().filter(|b| **b == b':').count(), 1);
    let (n, c) = decode_frame(&f).unwrap();
    assert_eq!(n, f[..24].to_vec());
    assert_eq!(c, f[25..f.len() - 1].to_vec());
}

#[test]
fn frame_round_trip() {
    let f = encode_frame("hello: world", &KEY);
    assert_eq!(open_frame(&f, &KEY), Some("hello: world".to_string()));
    assert_eq!(open_frame(&f, &OTHER_KEY), None);
}

#[test]
fn frame_with_crlf_and_spaces_opens() {
    let mut f = b"  ".to_vec();
    f.extend_from_slice(&encode_frame("ok", &KEY));
    f.extend_from_slice(b"\r\n\r");
    assert_eq!(open_frame(&f, &KEY), Some("ok".to_string()));
}

#[test]
fn decode_frame_splits_at_first_separator() {
    assert_eq!(decode_frame(b" ab:cd:ef \n"), Some((b"ab".to_vec(), b"cd:ef".to_vec())));
    assert_eq!(decode_frame(b":"), Some((Vec::new(), Vec::new())));
}

#[test]
fn decode_frame_without_separator_is_malformed() {
    assert_eq!(decode_frame(b"garbage"), None);
    assert_eq!(decode_frame(b""), None);
    assert_eq!(decode_frame(b"   \r\n"), None);
    assert_eq!(open_frame(b"garbage", &KEY), None);
}
