//! Hybrid encryption of message bodies. A fresh session key encrypts the body with
//! ChaCha20-Poly1305; a sealed box under the receiver's X25519 key carries the
//! session key.

use crate::crypto::{
    base64_bytes, base64_decode, base64_encode, base64_text, blake2b, blake2b_hash, chacha_open,
    chacha_opened, chacha_seal, chacha_sealed, ephemeral_exchange, exchanged, static_public,
    static_secret, static_shared, x25519_public, x25519_shared, xsalsa_open, xsalsa_opened,
    xsalsa_seal, xsalsa_sealed, CHACHA_LIMIT,
};
use crate::text::{text_from_utf8, trim, trimmed};
use vstd::prelude::*;
use vstd::slice::*;
use vstd::string::*;
use vstd::utf8::*;

verus! {

/// The encrypted parts of a message, in Base64.
pub struct EncryptedEnvelope {
    pub enc_session_key: String,
    pub nonce: String,
    pub ciphertext: String,
}

/// The texts of an envelope.
pub struct EnvelopeModel {
    pub enc_session_key: Seq<char>,
    pub nonce: Seq<char>,
    pub ciphertext: Seq<char>,
}

impl View for EncryptedEnvelope {
    type V = EnvelopeModel;

    open spec fn view(&self) -> EnvelopeModel {
        EnvelopeModel {
            enc_session_key: self.enc_session_key@,
            nonce: self.nonce@,
            ciphertext: self.ciphertext@,
        }
    }
}

/// The nonce of a sealed box: the start of the hash of the two public keys.
pub open spec fn box_nonce(ephemeral: Seq<u8>, receiver: Seq<u8>) -> Seq<u8> {
    blake2b_hash(ephemeral + receiver).take(24)
}

/// A box for a receiver: the ephemeral public key, then the ciphertext under the
/// shared secret.
pub open spec fn boxed(
    ephemeral: Seq<u8>,
    shared: Seq<u8>,
    receiver: Seq<u8>,
    plaintext: Seq<u8>,
) -> Seq<u8> {
    ephemeral + xsalsa_sealed(shared, box_nonce(ephemeral, receiver), plaintext)
}

/// Whether some bytes are a box with a plaintext for a receiver, made with some
/// ephemeral key.
pub open spec fn is_box_for(sealed: Seq<u8>, receiver: Seq<u8>, plaintext: Seq<u8>) -> bool {
    exists|secret: Seq<u8>|
        secret.len() == 32 && x25519_public(secret).len() == 32 && sealed == #[trigger] boxed(
            x25519_public(secret),
            x25519_shared(secret, receiver),
            receiver,
            plaintext,
        )
}

/// Whether an envelope carries a content to a receiver, under some session key
/// and nonce.
pub open spec fn carries(
    envelope: EnvelopeModel,
    receiver: Seq<u8>,
    content: Seq<char>,
) -> bool {
    exists|sealed: Seq<u8>, key: Seq<u8>, nonce: Seq<u8>|
        {
            &&& #[trigger] is_box_for(sealed, receiver, key)
            &&& key.len() == 32
            &&& nonce.len() == 12
            &&& encode_utf8(content).len() <= CHACHA_LIMIT
            &&& chacha_sealed(key, nonce, encode_utf8(content)).len() == encode_utf8(content).len()
                + 16
            &&& envelope.enc_session_key == base64_text(sealed)
            &&& envelope.nonce == base64_text(nonce)
            &&& envelope.ciphertext == base64_text(
                #[trigger] chacha_sealed(key, nonce, encode_utf8(content)),
            )
        }
}

/// Whether the parts of an envelope have the lengths they have for a content: a
/// session key of 32 bytes in a box, which adds 48, a nonce of 12 bytes, and the
/// content with a tag of 16 bytes.
pub open spec fn sized(envelope: EnvelopeModel, content: Seq<char>) -> bool {
    &&& base64_bytes(envelope.enc_session_key) is Ok
    &&& base64_bytes(envelope.enc_session_key)->Ok_0.len() == 80
    &&& base64_bytes(envelope.nonce) is Ok
    &&& base64_bytes(envelope.nonce)->Ok_0.len() == 12
    &&& base64_bytes(envelope.ciphertext) is Ok
    &&& base64_bytes(envelope.ciphertext)->Ok_0.len() == encode_utf8(content).len() + 16
}

/// Why an envelope could not be opened.
#[derive(Clone, Copy, Debug, PartialEq, Eq, Structural)]
pub enum DecryptError {
    SessionKeyEncoding,
    NonceEncoding,
    CiphertextEncoding,
    SealedBoxTooShort,
    SealedBox,
    Payload,
    NotUtf8,
}

impl DecryptError {
    /// The error in words.
    pub open spec fn message(self) -> Seq<char> {
        match self {
            DecryptError::SessionKeyEncoding => "Bad Base64 in enc_session_key"@,
            DecryptError::NonceEncoding => "Bad Base64 in nonce"@,
            DecryptError::CiphertextEncoding => "Bad Base64 in ciphertext"@,
            DecryptError::SealedBoxTooShort => "SealedBox ciphertext too short"@,
            DecryptError::SealedBox => "SealedBox inner-box decryption failed: aead::Error"@,
            DecryptError::Payload => "ChaCha20-Poly1305 decryption failed: aead::Error"@,
            DecryptError::NotUtf8 => "Decrypted payload is not valid UTF-8"@,
        }
    }

    /// The error in words.
    pub fn text(&self) -> (r: &'static str)
        ensures
            r@ == self.message(),
            self is SessionKeyEncoding ==> r@ == "Bad Base64 in enc_session_key"@,
            self is NonceEncoding ==> r@ == "Bad Base64 in nonce"@,
            self is CiphertextEncoding ==> r@ == "Bad Base64 in ciphertext"@,
            self is SealedBoxTooShort ==> r@ == "SealedBox ciphertext too short"@,
            self is SealedBox ==> r@ == "SealedBox inner-box decryption failed: aead::Error"@,
            self is Payload ==> r@ == "ChaCha20-Poly1305 decryption failed: aead::Error"@,
            self is NotUtf8 ==> r@ == "Decrypted payload is not valid UTF-8"@,
    {
        match self {
            DecryptError::SessionKeyEncoding => "Bad Base64 in enc_session_key",
            DecryptError::NonceEncoding => "Bad Base64 in nonce",
            DecryptError::CiphertextEncoding => "Bad Base64 in ciphertext",
            DecryptError::SealedBoxTooShort => "SealedBox ciphertext too short",
            DecryptError::SealedBox => "SealedBox inner-box decryption failed: aead::Error",
            DecryptError::Payload => "ChaCha20-Poly1305 decryption failed: aead::Error",
            DecryptError::NotUtf8 => "Decrypted payload is not valid UTF-8",
        }
    }
}

/// What a box holds for the owner of a secret key.
pub open spec fn unboxed(sealed: Seq<u8>, secret: Seq<u8>) -> Result<Seq<u8>, DecryptError> {
    if sealed.len() < 32 {
        Err(DecryptError::SealedBoxTooShort)
    } else {
        let ephemeral = sealed.take(32);
        match xsalsa_opened(
            x25519_shared(secret, ephemeral),
            box_nonce(ephemeral, x25519_public(secret)),
            sealed.skip(32),
        ) {
            Some(plaintext) => Ok(plaintext),
            None => Err(DecryptError::SealedBox),
        }
    }
}

/// What a payload holds under a session key and a nonce; one that is longer than
/// the cipher makes them holds nothing.
pub open spec fn payload_text(key: Seq<u8>, nonce: Seq<u8>, ciphertext: Seq<u8>) -> Result<
    Seq<char>,
    DecryptError,
> {
    if ciphertext.len() > CHACHA_LIMIT + 16 {
        Err(DecryptError::Payload)
    } else {
        match chacha_opened(key, nonce, ciphertext) {
            None => Err(DecryptError::Payload),
            Some(plaintext) => if valid_utf8(plaintext) {
                Ok(decode_utf8(plaintext))
            } else {
                Err(DecryptError::NotUtf8)
            },
        }
    }
}

/// What an envelope holds for the owner of a secret key; nothing is said of one
/// whose session key or nonce has a length that the cipher does not take.
pub open spec fn envelope_text(envelope: EnvelopeModel, secret: Seq<u8>) -> Option<
    Result<Seq<char>, DecryptError>,
> {
    if base64_bytes(envelope.enc_session_key) is Err {
        Some(Err(DecryptError::SessionKeyEncoding))
    } else if base64_bytes(envelope.nonce) is Err {
        Some(Err(DecryptError::NonceEncoding))
    } else if base64_bytes(envelope.ciphertext) is Err {
        Some(Err(DecryptError::CiphertextEncoding))
    } else {
        match unboxed(base64_bytes(envelope.enc_session_key)->Ok_0, secret) {
            Err(e) => Some(Err(e)),
            Ok(key) => {
                let nonce = base64_bytes(envelope.nonce)->Ok_0;
                if key.len() != 32 || nonce.len() != 12 {
                    None
                } else {
                    Some(payload_text(key, nonce, base64_bytes(envelope.ciphertext)->Ok_0))
                }
            },
        }
    }
}

/// The first 32 bytes of a slice as an array.
pub(crate) fn key_array(bytes: &[u8]) -> (r: [u8; 32])
    requires
        bytes@.len() >= 32,
    ensures
        r@ == bytes@.take(32),
{
    let mut out: [u8; 32] = [0u8; 32];
    let mut i: usize = 0;
    while i < 32
        invariant
            i <= 32,
            bytes@.len() >= 32,
            forall|j: int| 0 <= j < i ==> out@[j] == bytes@[j],
        decreases 32 - i,
    {
        out[i] = bytes[i];
        i = i + 1;
    }
    assert(out@ =~= bytes@.take(32));
    out
}

fn joined(a: &[u8], b: &[u8]) -> (r: Vec<u8>)
    ensures
        r@ == a@ + b@,
{
    let mut out: Vec<u8> = slice_to_vec(a);
    out.extend_from_slice(b);
    assert(out@ =~= a@ + b@);
    out
}

fn nonce_for_box(ephemeral: &[u8; 32], receiver: &[u8; 32]) -> (r: Vec<u8>)
    ensures
        r@ == box_nonce(ephemeral@, receiver@),
        r@.len() == 24,
{
    let keys = joined(ephemeral, receiver);
    let hash = blake2b(keys.as_slice());
    let nonce = slice_to_vec(slice_subrange(hash.as_slice(), 0, 24));
    assert(nonce@ =~= blake2b_hash(ephemeral@ + receiver@).take(24));
    nonce
}

/// Puts a plaintext into a box, given the outcome of the key exchange.
pub fn seal_box(
    ephemeral: &[u8; 32],
    shared: &[u8; 32],
    receiver: &[u8; 32],
    plaintext: &[u8],
) -> (r: Vec<u8>)
    ensures
        r@ == boxed(ephemeral@, shared@, receiver@, plaintext@),
        r@.len() == plaintext@.len() + 48,
{
    let nonce = nonce_for_box(ephemeral, receiver);
    match xsalsa_seal(shared, nonce.as_slice(), plaintext) {
        Ok(sealed) => joined(ephemeral, sealed.as_slice()),
        Err(_) => Vec::new(),
    }
}

/// Puts a plaintext into a box that only the receiver can open.
pub fn sealed_box_encrypt(plaintext: &[u8], receiver: &[u8; 32]) -> (r: Vec<u8>)
    ensures
        is_box_for(r@, receiver@, plaintext@),
        r@.len() == plaintext@.len() + 48,
{
    let (ephemeral, shared) = ephemeral_exchange(receiver);
    let sealed = seal_box(&ephemeral, &shared, receiver, plaintext);
    proof {
        let secret = choose|secret: Seq<u8>| #[trigger]
            exchanged(secret, receiver@, ephemeral@, shared@);
        assert(sealed@ == boxed(
            x25519_public(secret),
            x25519_shared(secret, receiver@),
            receiver@,
            plaintext@,
        ));
    }
    sealed
}

/// Opens a box with the receiver's secret key. What was put into it for that
/// receiver comes out.
pub fn sealed_box_decrypt(sealed: &[u8], secret: &[u8; 32]) -> (r: Result<Vec<u8>, DecryptError>)
    ensures
        match r {
            Ok(v) => unboxed(sealed@, secret@) == Ok::<Seq<u8>, DecryptError>(v@),
            Err(e) => unboxed(sealed@, secret@) == Err::<Seq<u8>, DecryptError>(e),
        },
        forall|p: Seq<u8>| #[trigger]
            is_box_for(sealed@, x25519_public(secret@), p) ==> (r matches Ok(v) && v@ == p),
{
    let n: usize = sealed.len();
    let public = static_public(secret);
    let ghost own = x25519_public(secret@);
    if n < 32 {
        return Err(DecryptError::SealedBoxTooShort);
    }
    let ephemeral = key_array(sealed);
    let shared = static_shared(secret, &ephemeral);
    let nonce = nonce_for_box(&ephemeral, &public);
    let body = slice_subrange(sealed, 32, n);
    assert(body@ =~= sealed@.skip(32));
    let opened = xsalsa_open(&shared, nonce.as_slice(), body);
    proof {
        assert forall|p: Seq<u8>| #[trigger] is_box_for(sealed@, own, p) implies opened is Ok
            && opened->Ok_0@ == p by {
            let other = choose|other: Seq<u8>|
                other.len() == 32 && x25519_public(other).len() == 32 && sealed@
                    == #[trigger] boxed(x25519_public(other), x25519_shared(other, own), own, p);
            assert(ephemeral@ =~= x25519_public(other));
            assert(body@ =~= xsalsa_sealed(x25519_shared(other, own), box_nonce(ephemeral@, own), p));
        }
    }
    match opened {
        Ok(v) => Ok(v),
        Err(_) => Err(DecryptError::SealedBox),
    }
}

/// Decrypts a payload with a session key and a nonce of the right lengths.
pub fn decrypt_payload(key: &[u8], nonce: &[u8], ciphertext: &[u8]) -> (r: Result<
    String,
    DecryptError,
>)
    requires
        key@.len() == 32,
        nonce@.len() == 12,
    ensures
        match r {
            Ok(s) => payload_text(key@, nonce@, ciphertext@) == Ok::<Seq<char>, DecryptError>(s@),
            Err(e) => payload_text(key@, nonce@, ciphertext@) == Err::<Seq<char>, DecryptError>(e),
        },
        forall|content: Seq<char>|
            encode_utf8(content).len() <= CHACHA_LIMIT && ciphertext@.len() <= CHACHA_LIMIT + 16
                && ciphertext@ == #[trigger] chacha_sealed(key@, nonce@, encode_utf8(content)) ==> (
            r matches Ok(s) && s@ == content),
{
    if ciphertext.len() as u64 > CHACHA_LIMIT + 16 {
        return Err(DecryptError::Payload);
    }
    let opened = chacha_open(key, nonce, ciphertext);
    proof {
        assert forall|content: Seq<char>|
            encode_utf8(content).len() <= CHACHA_LIMIT && ciphertext@ == #[trigger] chacha_sealed(
                key@,
                nonce@,
                encode_utf8(content),
            ) implies opened is Ok && valid_utf8(opened->Ok_0@) && decode_utf8(opened->Ok_0@)
            == content by {
            encode_utf8_valid_utf8(content);
            encode_utf8_decode_utf8(content);
        }
    }
    match opened {
        Ok(plaintext) => {
            match text_from_utf8(plaintext) {
                Some(s) => Ok(s),
                None => Err(DecryptError::NotUtf8),
            }
        },
        Err(_) => Err(DecryptError::Payload),
    }
}

/// Whether an envelope decrypts to a result with a secret key. One that carries a
/// content to the owner of the key gives that content.
pub open spec fn decrypts(
    envelope: EnvelopeModel,
    secret: Seq<u8>,
    r: Option<Result<String, DecryptError>>,
) -> bool {
    &&& match r {
        Some(Ok(s)) => envelope_text(envelope, secret) == Some(Ok::<Seq<char>, DecryptError>(s@)),
        Some(Err(e)) => envelope_text(envelope, secret) == Some(Err::<Seq<char>, DecryptError>(e)),
        None => envelope_text(envelope, secret) is None,
    }
    &&& forall|content: Seq<char>| #[trigger]
        carries(envelope, x25519_public(secret), content) ==> (r matches Some(Ok(s)) && s@
            == content)
}

/// Decrypts an envelope with the receiver's secret key. There is no answer for
/// one whose session key or nonce has a length that the cipher does not take. An
/// envelope that carries a content to this receiver gives that content.
pub fn decrypt_message(envelope: &EncryptedEnvelope, private_key: &[u8; 32]) -> (r: Option<
    Result<String, DecryptError>,
>)
    ensures
        decrypts(envelope@, private_key@, r),
{
    let ghost own = x25519_public(private_key@);
    let sealed = base64_decode(envelope.enc_session_key.as_str());
    let nonce = base64_decode(envelope.nonce.as_str());
    let ciphertext = base64_decode(envelope.ciphertext.as_str());
    match (sealed, nonce, ciphertext) {
        (Ok(sealed), Ok(nonce), Ok(ciphertext)) => {
            match sealed_box_decrypt(sealed.as_slice(), private_key) {
                Err(e) => Some(Err(e)),
                Ok(key) => {
                    if key.len() != 32 || nonce.len() != 12 {
                        return None;
                    }
                    Some(decrypt_payload(key.as_slice(), nonce.as_slice(), ciphertext.as_slice()))
                },
            }
        },
        (Err(_), _, _) => Some(Err(DecryptError::SessionKeyEncoding)),
        (Ok(_), Err(_), _) => Some(Err(DecryptError::NonceEncoding)),
        (Ok(_), Ok(_), Err(_)) => Some(Err(DecryptError::CiphertextEncoding)),
    }
}

/// Encrypts a content under a session key and a nonce, and puts the session key
/// into a box for the receiver.
pub fn seal_content(content: &str, receiver: &[u8; 32], key: &[u8], nonce: &[u8]) -> (r: Result<
    EncryptedEnvelope,
    String,
>)
    requires
        key@.len() == 32,
        nonce@.len() == 12,
    ensures
        r is Ok <==> encode_utf8(content@).len() <= CHACHA_LIMIT,
        r matches Err(e) ==> e@ == "ChaCha20 encrypt failed: aead::Error"@,
        r matches Ok(m) ==> {
            &&& carries(m@, receiver@, content@)
            &&& sized(m@, content@)
            &&& m.nonce@ == base64_text(nonce@)
            &&& m.ciphertext@ == base64_text(chacha_sealed(key@, nonce@, encode_utf8(content@)))
            &&& exists|sealed: Seq<u8>| #[trigger]
                is_box_for(sealed, receiver@, key@) && m.enc_session_key@ == base64_text(sealed)
        },
{
    let plaintext = content.as_bytes();
    if plaintext.len() as u64 > CHACHA_LIMIT {
        return Err("ChaCha20 encrypt failed: aead::Error".to_owned());
    }
    let sealed = sealed_box_encrypt(key, receiver);
    match chacha_seal(key, nonce, plaintext) {
        Err(_) => Err("ChaCha20 encrypt failed: aead::Error".to_owned()),
        Ok(ciphertext) => {
            let r = EncryptedEnvelope {
                enc_session_key: base64_encode(sealed.as_slice()),
                nonce: base64_encode(nonce),
                ciphertext: base64_encode(ciphertext.as_slice()),
            };
            proof {
                assert(is_box_for(sealed@, receiver@, key@));
                assert(r@.ciphertext == base64_text(
                    chacha_sealed(key@, nonce@, encode_utf8(content@)),
                ));
            }
            Ok(r)
        },
    }
}

/// Why a key in Base64 could not be read.
#[derive(Clone, Copy, Debug, PartialEq, Eq, Structural)]
pub enum KeyError {
    Encoding,
    Length,
}

/// The key that a text holds, with blanks around it.
pub open spec fn key_in(text: Seq<char>) -> Result<Seq<u8>, KeyError> {
    match base64_bytes(trimmed(text)) {
        Err(_) => Err(KeyError::Encoding),
        Ok(bytes) => if bytes.len() == 32 {
            Ok(bytes)
        } else {
            Err(KeyError::Length)
        },
    }
}

/// Reads a key of 32 bytes from its Base64 text. A key that was written by
/// `key_text` is read back.
pub fn read_key(text: &str) -> (r: Result<[u8; 32], KeyError>)
    ensures
        match r {
            Ok(k) => key_in(text@) == Ok::<Seq<u8>, KeyError>(k@),
            Err(e) => key_in(text@) == Err::<Seq<u8>, KeyError>(e),
        },
        forall|b: Seq<u8>|
            b.len() == 32 && trimmed(text@) == #[trigger] base64_text(b) ==> (r matches Ok(k) && k@
                == b),
{
    match base64_decode(trim(text)) {
        Err(_) => Err(KeyError::Encoding),
        Ok(bytes) => {
            if bytes.len() != 32 {
                return Err(KeyError::Length);
            }
            let k = key_array(bytes.as_slice());
            assert(k@ =~= bytes@);
            Ok(k)
        },
    }
}

/// The Base64 text of a key, which `read_key` reads back.
pub fn key_text(key: &[u8; 32]) -> (r: String)
    ensures
        r@ == base64_text(key@),
        base64_bytes(r@) == Ok::<Seq<u8>, Seq<char>>(key@),
        key_in(r@) == Ok::<Seq<u8>, KeyError>(key@),
{
    base64_encode(key)
}

/// A fresh key pair: the secret key and the public key that belongs to it.
pub fn generate_key_pair() -> (r: ([u8; 32], [u8; 32]))
    ensures
        r.1@ == x25519_public(r.0@),
{
    let secret = static_secret();
    let public = static_public(&secret);
    (secret, public)
}

/// A text holds a key if and only if it is 32 bytes in Base64, with white space around
/// them or not, and then holds those bytes. What is no Base64 is told from what has
/// another length.
pub proof fn law_key_is_thirty_two_bytes(text: Seq<char>, bytes: Seq<u8>)
    ensures
        key_in(text) == Ok::<Seq<u8>, KeyError>(bytes) <==> base64_bytes(trimmed(text)) == Ok::<
            Seq<u8>,
            Seq<char>,
        >(bytes) && bytes.len() == 32,
        key_in(text) == Err::<Seq<u8>, KeyError>(KeyError::Encoding) <==> base64_bytes(
            trimmed(text),
        ) is Err,
        key_in(text) == Err::<Seq<u8>, KeyError>(KeyError::Length) <==> base64_bytes(trimmed(text))
            is Ok && base64_bytes(trimmed(text))->Ok_0.len() != 32,
{
}

/// An envelope whose parts are not Base64 is refused for the first of them that is not:
/// the session key before the nonce, the nonce before the ciphertext. A box that is
/// shorter than a public key holds no session key.
pub proof fn law_unreadable_envelopes_are_refused(envelope: EnvelopeModel, secret: Seq<u8>)
    ensures
        ({
            let key_ok = base64_bytes(envelope.enc_session_key) is Ok;
            let nonce_ok = base64_bytes(envelope.nonce) is Ok;
            let text_ok = base64_bytes(envelope.ciphertext) is Ok;
            let r = envelope_text(envelope, secret);
            &&& !key_ok ==> r == Some(
                Err::<Seq<char>, DecryptError>(DecryptError::SessionKeyEncoding),
            )
            &&& key_ok && !nonce_ok ==> r == Some(
                Err::<Seq<char>, DecryptError>(DecryptError::NonceEncoding),
            )
            &&& key_ok && nonce_ok && !text_ok ==> r == Some(
                Err::<Seq<char>, DecryptError>(DecryptError::CiphertextEncoding),
            )
            &&& key_ok && nonce_ok && text_ok && base64_bytes(
                envelope.enc_session_key,
            )->Ok_0.len() < 32 ==> r == Some(
                Err::<Seq<char>, DecryptError>(DecryptError::SealedBoxTooShort),
            )
        }),
{
}

/// A payload that does not open is refused, and so is one that opens to what is no UTF-8;
/// another gives the text that it opens to.
pub proof fn law_payload_opens_to_its_text(key: Seq<u8>, nonce: Seq<u8>, ciphertext: Seq<u8>)
    requires
        ciphertext.len() <= 0x3f_ffff_ff80 + 16,
    ensures
        ({
            let opened = chacha_opened(key, nonce, ciphertext);
            let r = payload_text(key, nonce, ciphertext);
            &&& opened is None ==> r == Err::<Seq<char>, DecryptError>(DecryptError::Payload)
            &&& opened matches Some(bytes) ==> (valid_utf8(bytes) ==> r == Ok::<
                Seq<char>,
                DecryptError,
            >(decode_utf8(bytes))) && (!valid_utf8(bytes) ==> r == Err::<Seq<char>, DecryptError>(
                DecryptError::NotUtf8,
            ))
        }),
{
}

} // verus!
