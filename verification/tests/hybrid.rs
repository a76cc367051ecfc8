use base64::engine::general_purpose::STANDARD;
use base64::Engine;
use chacha20poly1305::aead::Aead;
use chacha20poly1305::KeyInit;
use ciphermq::hybrid::{
    decrypt_message, decrypt_payload, generate_key_pair, key_text, read_key, seal_box,
    seal_content, sealed_box_decrypt, sealed_box_encrypt, DecryptError, EncryptedEnvelope,
    KeyError,
};
use x25519_dalek::{PublicKey, StaticSecret};

fn hex(text: &str) -> Vec<u8> {
    (0..text.len() / 2).map(|i| u8::from_str_radix(&text[2 * i..2 * i + 2], 16).unwrap()).collect()
}

fn failure(envelope: &EncryptedEnvelope, secret: &[u8; 32]) -> DecryptError {
    decrypt_message(envelope, secret).unwrap().unwrap_err()
}

fn sealed(content: &str, public: &[u8; 32]) -> EncryptedEnvelope {
    seal_content(content, public, &[5u8; 32], &[6u8; 12]).unwrap()
}

#[test]
fn what_is_encrypted_for_a_receiver_is_read_by_it() {
    let (secret, public) = generate_key_pair();
    for content in ["", "hello", "grüße \u{1f510}", &"x".repeat(5000)] {
        let e = sealed(content, &public);
        assert_eq!(decrypt_message(&e, &secret).unwrap().unwrap(), content);
    }
}

#[test]
fn nobody_else_reads_it() {
    let (_, public) = generate_key_pair();
    let (other, _) = generate_key_pair();
    assert_eq!(failure(&sealed("hello", &public), &other), DecryptError::SealedBox);
}

#[test]
fn a_box_gives_back_what_was_put_in() {
    let (secret, public) = generate_key_pair();
    let a = sealed_box_encrypt(b"session key", &public);
    let b = sealed_box_encrypt(b"session key", &public);
    assert_eq!(a.len(), 32 + 16 + 11);
    assert_ne!(a, b);
    assert_eq!(sealed_box_decrypt(&a, &secret).unwrap(), b"session key");
    assert_eq!(sealed_box_decrypt(&b, &secret).unwrap(), b"session key");
    assert_eq!(sealed_box_decrypt(&a[..31], &secret), Err(DecryptError::SealedBoxTooShort));
    assert_eq!(sealed_box_decrypt(&a[..32], &secret), Err(DecryptError::SealedBox));
}

#[test]
fn a_box_is_made_of_its_parts() {
    let (secret, public) = generate_key_pair();
    let eph = StaticSecret::from([3u8; 32]);
    let eph_public = PublicKey::from(&eph).to_bytes();
    let shared = eph.diffie_hellman(&PublicKey::from(public)).to_bytes();
    let boxed = seal_box(&eph_public, &shared, &public, b"abc");
    assert_eq!(&boxed[..32], &eph_public);
    assert_eq!(sealed_box_decrypt(&boxed, &secret).unwrap(), b"abc");
}

#[test]
fn key_pairs_belong_together() {
    let (secret, public) = generate_key_pair();
    assert_eq!(PublicKey::from(&StaticSecret::from(secret)).to_bytes(), public);
    let (again, _) = generate_key_pair();
    assert_ne!(secret, again);
}

#[test]
fn a_known_key_pair_opens_its_box() {
    // A key pair of RFC 7748, section 6.1.
    let bob: [u8; 32] =
        hex("5dab087e624a8a4b79e17f8b83800ee66f3bb1292618b6fd1c2f8b27ff88e0eb").try_into().unwrap();
    let bob_public: [u8; 32] =
        hex("de9edb7d7b7dc1b4d35b61c2ece435373f8343c85b78674dadfc7e146f882b4f").try_into().unwrap();
    let eph = StaticSecret::from([7u8; 32]);
    let eph_public = PublicKey::from(&eph).to_bytes();
    let shared = eph.diffie_hellman(&PublicKey::from(bob_public)).to_bytes();
    let boxed = seal_box(&eph_public, &shared, &bob_public, b"k");
    assert_eq!(sealed_box_decrypt(&boxed, &bob).unwrap(), b"k");
}

#[test]
fn every_part_of_an_envelope_is_checked() {
    let (secret, public) = generate_key_pair();
    let mut e = sealed("hello", &public);
    e.ciphertext = "*".to_string();
    assert_eq!(failure(&e, &secret), DecryptError::CiphertextEncoding);
    e.nonce = "*".to_string();
    assert_eq!(failure(&e, &secret), DecryptError::NonceEncoding);
    e.enc_session_key = "*".to_string();
    assert_eq!(failure(&e, &secret), DecryptError::SessionKeyEncoding);

    let mut e = sealed("hello", &public);
    e.enc_session_key = "AAAA".to_string();
    assert_eq!(failure(&e, &secret), DecryptError::SealedBoxTooShort);

    let mut e = sealed("hello", &public);
    e.ciphertext = sealed("other", &public).ciphertext.replace('A', "B");
    e.nonce = "AAAAAAAAAAAAAAAA".to_string();
    assert_eq!(failure(&e, &secret), DecryptError::Payload);

    let mut e = sealed("hello", &public);
    e.nonce = "AAAA".to_string();
    assert!(decrypt_message(&e, &secret).is_none());
}

#[test]
fn a_payload_has_to_be_text() {
    let key = [1u8; 32];
    let nonce = [2u8; 12];
    let cipher = chacha20poly1305::ChaCha20Poly1305::new(chacha20poly1305::Key::from_slice(&key));
    let n = chacha20poly1305::Nonce::from_slice(&nonce);
    let good = cipher.encrypt(n, &b"text"[..]).unwrap();
    assert_eq!(decrypt_payload(&key, &nonce, &good).unwrap(), "text");
    let bad = cipher.encrypt(n, &[0xffu8, 0xfe][..]).unwrap();
    assert_eq!(decrypt_payload(&key, &nonce, &bad), Err(DecryptError::NotUtf8));
    assert_eq!(decrypt_payload(&key, &nonce, &[0u8; 3]), Err(DecryptError::Payload));
}

#[test]
fn decryption_errors_are_put_into_words() {
    let texts = [
        (DecryptError::SessionKeyEncoding, "Bad Base64 in enc_session_key"),
        (DecryptError::NonceEncoding, "Bad Base64 in nonce"),
        (DecryptError::CiphertextEncoding, "Bad Base64 in ciphertext"),
        (DecryptError::SealedBoxTooShort, "SealedBox ciphertext too short"),
        (DecryptError::SealedBox, "SealedBox inner-box decryption failed: aead::Error"),
        (DecryptError::Payload, "ChaCha20-Poly1305 decryption failed: aead::Error"),
        (DecryptError::NotUtf8, "Decrypted payload is not valid UTF-8"),
    ];
    for (e, t) in texts {
        assert_eq!(e.text(), t);
    }
}

#[test]
fn keys_are_written_and_read() {
    let key: [u8; 32] = [0xff; 32];
    let text = key_text(&key);
    assert_eq!(text, "//////////////////////////////////////////8=");
    assert_eq!(read_key(&text), Ok(key));
    assert_eq!(read_key(&format!("  {}\n", text)), Ok(key));
    assert_eq!(read_key("AAAA"), Err(KeyError::Length));
    assert_eq!(read_key("!"), Err(KeyError::Encoding));
}

fn flipped(text: &str, bit: usize) -> String {
    let mut bytes = STANDARD.decode(text).unwrap();
    bytes[bit / 8] ^= 1 << (bit % 8);
    STANDARD.encode(bytes)
}

#[test]
fn changed_parts_are_refused() {
    let (secret, public) = generate_key_pair();
    let e = sealed("hello", &public);
    for bit in 0..8 * ("hello".len() + 16) {
        let changed = EncryptedEnvelope {
            enc_session_key: e.enc_session_key.clone(),
            nonce: e.nonce.clone(),
            ciphertext: flipped(&e.ciphertext, bit),
        };
        assert_eq!(failure(&changed, &secret), DecryptError::Payload);
    }
    // The box begins behind the ephemeral key.
    for bit in 8 * 32..8 * 80 {
        let changed = EncryptedEnvelope {
            enc_session_key: flipped(&e.enc_session_key, bit),
            nonce: e.nonce.clone(),
            ciphertext: e.ciphertext.clone(),
        };
        assert_eq!(failure(&changed, &secret), DecryptError::SealedBox);
    }
}
