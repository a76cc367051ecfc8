//! The outside ciphers, hashes, key exchanges and encodings that sealed boxes and
//! message encryption are built from.

use crate::text::trimmed;
use aes_gcm::Aes256Gcm;
use base64::engine::general_purpose::STANDARD;
use base64::Engine;
use blake2::digest::consts::U64;
use blake2::{Blake2b, Digest};
use chacha20poly1305::aead::Aead;
use chacha20poly1305::{ChaCha20Poly1305, KeyInit};
use rand::RngCore;
use vstd::prelude::*;
use vstd::string::*;
use x25519_dalek::{EphemeralSecret, PublicKey, StaticSecret};
use xsalsa20poly1305::XSalsa20Poly1305;

verus! {

/// The Base64 text of some bytes, in the standard alphabet with padding.
pub uninterp spec fn base64_text(bytes: Seq<u8>) -> Seq<char>;

/// What a Base64 text stands for, or why it stands for nothing.
pub uninterp spec fn base64_bytes(text: Seq<char>) -> Result<Seq<u8>, Seq<char>>;

/// What AES-256-GCM makes of a plaintext under a key and a nonce: the ciphertext
/// with its tag behind it.
pub uninterp spec fn aes_gcm_sealed(key: Seq<u8>, nonce: Seq<u8>, plaintext: Seq<u8>) -> Seq<u8>;

/// What AES-256-GCM recovers from a ciphertext with its tag, if the tag is right.
pub uninterp spec fn aes_gcm_opened(key: Seq<u8>, nonce: Seq<u8>, sealed: Seq<u8>) -> Option<
    Seq<u8>,
>;

/// What ChaCha20-Poly1305 makes of a plaintext under a key and a nonce: the
/// ciphertext with its tag behind it.
pub uninterp spec fn chacha_sealed(key: Seq<u8>, nonce: Seq<u8>, plaintext: Seq<u8>) -> Seq<u8>;

/// What ChaCha20-Poly1305 recovers from a ciphertext with its tag, if the tag is
/// right.
pub uninterp spec fn chacha_opened(key: Seq<u8>, nonce: Seq<u8>, sealed: Seq<u8>) -> Option<
    Seq<u8>,
>;

/// What XSalsa20-Poly1305 makes of a plaintext under a key and a nonce: the tag
/// with the ciphertext behind it.
pub uninterp spec fn xsalsa_sealed(key: Seq<u8>, nonce: Seq<u8>, plaintext: Seq<u8>) -> Seq<u8>;

/// What XSalsa20-Poly1305 recovers from a ciphertext with its tag, if the tag is
/// right.
pub uninterp spec fn xsalsa_opened(key: Seq<u8>, nonce: Seq<u8>, sealed: Seq<u8>) -> Option<
    Seq<u8>,
>;

/// The X25519 public key of a secret key.
pub uninterp spec fn x25519_public(secret: Seq<u8>) -> Seq<u8>;

/// The X25519 shared secret of a secret key and another party's public key.
pub uninterp spec fn x25519_shared(secret: Seq<u8>, public: Seq<u8>) -> Seq<u8>;

/// The BLAKE2b hash of some bytes, 64 bytes long.
pub uninterp spec fn blake2b_hash(bytes: Seq<u8>) -> Seq<u8>;

/// `Engine::encode` of `base64`'s standard engine: the text for the bytes, which
/// `decode` reads back. There is no white space around it.
#[verifier::external_body]
pub(crate) fn base64_encode(bytes: &[u8]) -> (r: String)
    ensures
        r@ == base64_text(bytes@),
        base64_bytes(r@) is Ok,
        base64_bytes(r@)->Ok_0 == bytes@,
        trimmed(r@) == r@,
{
    STANDARD.encode(bytes)
}

/// `Engine::decode` of `base64`'s standard engine: the bytes for the text or the
/// error as text; a text that `encode` wrote gives back what it was made from.
#[verifier::external_body]
pub(crate) fn base64_decode(text: &str) -> (r: Result<Vec<u8>, String>)
    ensures
        r is Ok <==> base64_bytes(text@) is Ok,
        r matches Ok(v) ==> v@ == base64_bytes(text@)->Ok_0,
        r matches Err(e) ==> e@ == base64_bytes(text@)->Err_0,
        forall|b: Seq<u8>| text@ == #[trigger] base64_text(b) ==> r is Ok && r->Ok_0@ == b,
{
    STANDARD.decode(text).map_err(|e| e.to_string())
}

/// `Aead::encrypt` of `aes_gcm::Aes256Gcm` with no associated data. It refuses
/// plaintexts of more than 2^36 bytes; the tag adds 16 bytes.
#[verifier::external_body]
pub(crate) fn aes_gcm_seal(key: &[u8], nonce: &[u8], plaintext: &[u8]) -> (r: Result<
    Vec<u8>,
    String,
>)
    requires
        key@.len() == 32,
        nonce@.len() == 12,
    ensures
        r is Ok <==> plaintext@.len() <= 0x10_0000_0000,
        r matches Ok(v) ==> v@ == aes_gcm_sealed(key@, nonce@, plaintext@),
        r matches Ok(v) ==> v@.len() == plaintext@.len() + 16,
        r matches Err(e) ==> e@ == "aead::Error"@,
{
    Aes256Gcm::new(aes_gcm::Key::<Aes256Gcm>::from_slice(key))
        .encrypt(aes_gcm::Nonce::from_slice(nonce), plaintext)
        .map_err(|e| e.to_string())
}

/// `Aead::decrypt` of `aes_gcm::Aes256Gcm` with no associated data. It recovers
/// what `encrypt` sealed under the same key and nonce. Which other ciphertexts it
/// refuses is not said: that it refuses a changed one rests on chance.
#[verifier::external_body]
pub(crate) fn aes_gcm_open(key: &[u8], nonce: &[u8], sealed: &[u8]) -> (r: Result<Vec<u8>, String>)
    requires
        key@.len() == 32,
        nonce@.len() == 12,
    ensures
        r is Ok <==> aes_gcm_opened(key@, nonce@, sealed@) is Some,
        r matches Ok(v) ==> v@ == aes_gcm_opened(key@, nonce@, sealed@)->Some_0,
        r matches Ok(v) ==> v@.len() + 16 == sealed@.len(),
        r matches Err(e) ==> e@ == "aead::Error"@,
        forall|p: Seq<u8>|
            p.len() <= 0x10_0000_0000 && sealed@ == #[trigger] aes_gcm_sealed(key@, nonce@, p) ==> r is Ok
                && r->Ok_0@ == p,
{
    Aes256Gcm::new(aes_gcm::Key::<Aes256Gcm>::from_slice(key))
        .decrypt(aes_gcm::Nonce::from_slice(nonce), sealed)
        .map_err(|e| e.to_string())
}

/// How many bytes ChaCha20-Poly1305 encrypts under one key and nonce: 2^32 - 2
/// blocks of 64 bytes.
pub const CHACHA_LIMIT: u64 = 0x3f_ffff_ff80;

/// `Aead::encrypt` of `chacha20poly1305::ChaCha20Poly1305` with no associated
/// data, for plaintexts that its key stream is long enough for; the tag adds 16
/// bytes.
#[verifier::external_body]
pub(crate) fn chacha_seal(key: &[u8], nonce: &[u8], plaintext: &[u8]) -> (r: Result<Vec<u8>, String>)
    requires
        key@.len() == 32,
        nonce@.len() == 12,
        plaintext@.len() <= CHACHA_LIMIT,
    ensures
        r is Ok,
        r->Ok_0@ == chacha_sealed(key@, nonce@, plaintext@),
        r->Ok_0@.len() == plaintext@.len() + 16,
{
    ChaCha20Poly1305::new(chacha20poly1305::Key::from_slice(key))
        .encrypt(chacha20poly1305::Nonce::from_slice(nonce), plaintext)
        .map_err(|e| e.to_string())
}

/// `Aead::decrypt` of `chacha20poly1305::ChaCha20Poly1305` with no associated
/// data, for ciphertexts that its key stream is long enough for. It recovers what
/// `encrypt` sealed under the same key and nonce. Which other ciphertexts it
/// refuses is not said: that it refuses a changed one rests on chance.
#[verifier::external_body]
pub(crate) fn chacha_open(key: &[u8], nonce: &[u8], sealed: &[u8]) -> (r: Result<Vec<u8>, String>)
    requires
        key@.len() == 32,
        nonce@.len() == 12,
        sealed@.len() <= CHACHA_LIMIT + 16,
    ensures
        r is Ok <==> chacha_opened(key@, nonce@, sealed@) is Some,
        r matches Ok(v) ==> v@ == chacha_opened(key@, nonce@, sealed@)->Some_0,
        r matches Ok(v) ==> v@.len() + 16 == sealed@.len(),
        r matches Err(e) ==> e@ == "aead::Error"@,
        forall|p: Seq<u8>|
            p.len() <= CHACHA_LIMIT && sealed@ == #[trigger] chacha_sealed(key@, nonce@, p) ==> r is Ok
                && r->Ok_0@ == p,
{
    ChaCha20Poly1305::new(chacha20poly1305::Key::from_slice(key))
        .decrypt(chacha20poly1305::Nonce::from_slice(nonce), sealed)
        .map_err(|e| e.to_string())
}

/// `Aead::encrypt` of `xsalsa20poly1305::XSalsa20Poly1305` with no associated
/// data. It refuses no plaintext; the tag adds 16 bytes.
#[verifier::external_body]
pub(crate) fn xsalsa_seal(key: &[u8], nonce: &[u8], plaintext: &[u8]) -> (r: Result<Vec<u8>, String>)
    requires
        key@.len() == 32,
        nonce@.len() == 24,
    ensures
        r is Ok,
        r->Ok_0@ == xsalsa_sealed(key@, nonce@, plaintext@),
        r->Ok_0@.len() == plaintext@.len() + 16,
{
    XSalsa20Poly1305::new(xsalsa20poly1305::Key::from_slice(key))
        .encrypt(xsalsa20poly1305::Nonce::from_slice(nonce), plaintext)
        .map_err(|e| e.to_string())
}

/// `Aead::decrypt` of `xsalsa20poly1305::XSalsa20Poly1305` with no associated
/// data. It recovers what `encrypt` sealed under the same key and nonce. Which
/// other ciphertexts it refuses is not said: that it refuses a changed one rests
/// on chance.
#[verifier::external_body]
pub(crate) fn xsalsa_open(key: &[u8], nonce: &[u8], sealed: &[u8]) -> (r: Result<Vec<u8>, String>)
    requires
        key@.len() == 32,
        nonce@.len() == 24,
    ensures
        r is Ok <==> xsalsa_opened(key@, nonce@, sealed@) is Some,
        r matches Ok(v) ==> v@ == xsalsa_opened(key@, nonce@, sealed@)->Some_0,
        r matches Ok(v) ==> v@.len() + 16 == sealed@.len(),
        r matches Err(e) ==> e@ == "aead::Error"@,
        forall|p: Seq<u8>|
            sealed@ == #[trigger] xsalsa_sealed(key@, nonce@, p) ==> r is Ok && r->Ok_0@ == p,
{
    XSalsa20Poly1305::new(xsalsa20poly1305::Key::from_slice(key))
        .decrypt(xsalsa20poly1305::Nonce::from_slice(nonce), sealed)
        .map_err(|e| e.to_string())
}

/// `PublicKey::from` of `x25519_dalek`, for a `StaticSecret`.
#[verifier::external_body]
pub(crate) fn static_public(secret: &[u8; 32]) -> (r: [u8; 32])
    ensures
        r@ == x25519_public(secret@),
{
    PublicKey::from(&StaticSecret::from(*secret)).to_bytes()
}

/// `StaticSecret::random_from_rng` of `x25519_dalek`, with the random numbers of
/// the operating system; nothing is promised of the key but its length.
#[verifier::external_body]
pub(crate) fn static_secret() -> (r: [u8; 32]) {
    StaticSecret::random_from_rng(rand::rngs::OsRng).to_bytes()
}

/// `StaticSecret::diffie_hellman` of `x25519_dalek`. The two parties to an
/// exchange compute the same secret.
#[verifier::external_body]
pub(crate) fn static_shared(secret: &[u8; 32], public: &[u8; 32]) -> (r: [u8; 32])
    ensures
        r@ == x25519_shared(secret@, public@),
        forall|other: Seq<u8>|
            other.len() == 32 && public@ == #[trigger] x25519_public(other) ==> r@ == x25519_shared(
                other,
                x25519_public(secret@),
            ),
{
    StaticSecret::from(*secret).diffie_hellman(&PublicKey::from(*public)).to_bytes()
}

/// Whether a secret key of 32 bytes has a public key and shares a secret with
/// another party.
pub open spec fn exchanged(secret: Seq<u8>, theirs: Seq<u8>, own: Seq<u8>, shared: Seq<u8>) -> bool {
    &&& secret.len() == 32
    &&& own == x25519_public(secret)
    &&& shared == x25519_shared(secret, theirs)
}

/// `EphemeralSecret::random_from_rng`, `PublicKey::from` and
/// `EphemeralSecret::diffie_hellman` of `x25519_dalek`: the public key of a fresh
/// random secret, and the secret that it shares with another party.
#[verifier::external_body]
pub(crate) fn ephemeral_exchange(public: &[u8; 32]) -> (r: ([u8; 32], [u8; 32]))
    ensures
        exists|secret: Seq<u8>| #[trigger] exchanged(secret, public@, r.0@, r.1@),
{
    let secret = EphemeralSecret::random_from_rng(rand::thread_rng());
    let own = PublicKey::from(&secret);
    (own.to_bytes(), secret.diffie_hellman(&PublicKey::from(*public)).to_bytes())
}

/// `Digest::digest` of `blake2::Blake2b` with 64 bytes of output.
#[verifier::external_body]
pub(crate) fn blake2b(bytes: &[u8]) -> (r: Vec<u8>)
    ensures
        r@ == blake2b_hash(bytes@),
        r@.len() == 64,
{
    Blake2b::<U64>::digest(bytes).to_vec()
}

/// `RngCore::fill_bytes` of `rand::thread_rng`: as many bytes as asked for, of
/// which nothing else is promised.
#[verifier::external_body]
pub(crate) fn random_bytes(n: usize) -> (r: Vec<u8>)
    ensures
        r@.len() == n,
{
    let mut out = vec![0u8; n];
    rand::thread_rng().fill_bytes(&mut out);
    out
}

} // verus!
