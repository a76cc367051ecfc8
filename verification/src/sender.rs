//! The sending client: message templates, encryption for each receiver, and the
//! pipeline that keeps a window of messages in flight.

use crate::crypto::{random_bytes, x25519_public, CHACHA_LIMIT};
use crate::directory::Directory;
use crate::hybrid::{
    carries, decrypts, key_in, read_key, seal_content, sized, DecryptError, EnvelopeModel, KeyError,
};
use crate::ids::{fresh_uuid, uuid_chars, uuid_text};
use crate::sender_laws::law_every_receiver_with_a_key_is_reached;
use crate::text::{
    decimal, has_prefix, prefixed, push_decimal, replace_all, replaced, same, starts_with,
    strip_prefix, trim, trimmed, wrapped,
};
use vstd::arithmetic::power2::{
    lemma2_to64, lemma2_to64_rest, lemma_pow2_strictly_increases, lemma_pow2_unfold, pow2,
};
use vstd::prelude::*;
use vstd::string::*;
use vstd::utf8::*;

verus! {

/// A queue that the sender binds to an exchange.
pub struct Binding {
    pub queue_name: String,
    pub exchange_name: String,
    pub routing_key: String,
}

/// What messages say: a template with placeholders in braces, and the values of
/// those that are not built in.
pub struct MessageConfig {
    pub content_template: String,
    pub extra_fields: Vec<(String, String)>,
}

/// A name as it stands in a template.
pub open spec fn placeholder(name: Seq<char>) -> Seq<char> {
    "{"@ + name + "}"@
}

/// The text with further fields filled in, one after the other.
pub open spec fn with_fields(text: Seq<char>, fields: Seq<(Seq<char>, Seq<char>)>) -> Seq<char>
    decreases fields.len(),
{
    if fields.len() == 0 {
        text
    } else {
        replaced(
            with_fields(text, fields.drop_last()),
            placeholder(fields.last().0),
            fields.last().1,
        )
    }
}

/// The template with its built-in placeholders filled in.
pub open spec fn with_builtins(
    template: Seq<char>,
    sender_id: Seq<char>,
    correlation_id: Seq<char>,
    timestamp: Seq<char>,
    seq: nat,
) -> Seq<char> {
    replaced(
        replaced(
            replaced(
                replaced(template, "{sender_id}"@, sender_id),
                "{correlation_id}"@,
                correlation_id,
            ),
            "{timestamp}"@,
            timestamp,
        ),
        "{seq}"@,
        decimal(seq),
    )
}

impl MessageConfig {
    /// The template that is used where none is given.
    pub fn default_template() -> (r: String)
        ensures
            r@ == "{sender_id}-CipherMQ Sample message with ID: {correlation_id}"@,
    {
        "{sender_id}-CipherMQ Sample message with ID: {correlation_id}".to_owned()
    }

    /// The content of a message.
    pub open spec fn rendered(
        &self,
        sender_id: Seq<char>,
        correlation_id: Seq<char>,
        timestamp: Seq<char>,
        seq: nat,
    ) -> Seq<char> {
        with_fields(
            with_builtins(self.content_template@, sender_id, correlation_id, timestamp, seq),
            self.extra_fields.deep_view(),
        )
    }

    /// Fills in the template. The timestamp is the time in seconds, as text; the
    /// number of the message counts from one.
    pub fn render(&self, sender_id: &str, correlation_id: &str, timestamp: &str, seq: u64) -> (r:
        String)
        ensures
            r@ == self.rendered(sender_id@, correlation_id@, timestamp@, seq as nat),
    {
        let mut number = String::new();
        push_decimal(&mut number, seq);
        assert(number@ =~= decimal(seq as nat));
        let mut out = replace_all(self.content_template.as_str(), "{sender_id}", sender_id);
        out = replace_all(out.as_str(), "{correlation_id}", correlation_id);
        out = replace_all(out.as_str(), "{timestamp}", timestamp);
        out = replace_all(out.as_str(), "{seq}", number.as_str());
        let ghost base = out@;
        let ghost all = self.extra_fields.deep_view();
        let mut i: usize = 0;
        assert(all.take(0) =~= Seq::<(Seq<char>, Seq<char>)>::empty());
        while i < self.extra_fields.len()
            invariant
                i <= self.extra_fields@.len(),
                all == self.extra_fields.deep_view(),
                out@ == with_fields(base, all.take(i as int)),
            decreases self.extra_fields@.len() - i,
        {
            let field = &self.extra_fields[i];
            proof {
                assert(field.deep_view() == all[i as int]);
                assert(all.take(i + 1).drop_last() =~= all.take(i as int));
            }
            let name = wrapped("{", field.0.as_str(), "}");
            out = replace_all(out.as_str(), name.as_str(), field.1.as_str());
            i = i + 1;
        }
        assert(all.take(all.len() as int) =~= all);
        out
    }
}

impl Default for MessageConfig {
    fn default() -> (r: Self)
        ensures
            r.content_template@
                == "{sender_id}-CipherMQ Sample message with ID: {correlation_id}"@,
            r.extra_fields@.len() == 0,
    {
        MessageConfig {
            content_template: MessageConfig::default_template(),
            extra_fields: Vec::new(),
        }
    }
}

/// How messages are sent.
pub struct SenderConfig {
    pub num_messages: usize,
    pub max_inflight: usize,
    pub max_retries: u32,
    pub ack_timeout_secs: u64,
    pub tcp_connect_timeout_secs: u64,
    pub batch_size: usize,
    pub batch_delay_ms: u64,
    pub message: MessageConfig,
}

impl Default for SenderConfig {
    fn default() -> (r: Self)
        ensures
            r.num_messages == 100,
            r.max_inflight == 20,
            r.max_retries == 3,
            r.ack_timeout_secs == 30,
            r.tcp_connect_timeout_secs == 120,
            r.batch_size == 10,
            r.batch_delay_ms == 10,
            r.message.content_template@
                == "{sender_id}-CipherMQ Sample message with ID: {correlation_id}"@,
            r.message.extra_fields@.len() == 0,
    {
        SenderConfig {
            num_messages: 100,
            max_inflight: 20,
            max_retries: 3,
            ack_timeout_secs: 30,
            tcp_connect_timeout_secs: 120,
            batch_size: 10,
            batch_delay_ms: 10,
            message: MessageConfig::default(),
        }
    }
}

/// A message before it is encrypted.
pub struct PlainMessage {
    pub correlation_id: String,
    pub sender_id: String,
    pub content: String,
}

/// The start of an identifier's text, which a message goes by.
pub open spec fn correlation_of(id: u128) -> Seq<char> {
    uuid_chars(id).take(8)
}

/// Makes a message under a fresh identifier.
pub fn generate_message(client_id: &str, config: &MessageConfig, timestamp: &str, seq: u64) -> (r:
    PlainMessage)
    ensures
        r.sender_id@ == client_id@,
        exists|id: u128| #[trigger] correlation_of(id) == r.correlation_id@,
        r.content@ == config.rendered(client_id@, r.correlation_id@, timestamp@, seq as nat),
{
    message_with_id(client_id, config, timestamp, seq, fresh_uuid())
}

/// Makes a message under an identifier.
pub fn message_with_id(
    client_id: &str,
    config: &MessageConfig,
    timestamp: &str,
    seq: u64,
    id: u128,
) -> (r: PlainMessage)
    ensures
        r.sender_id@ == client_id@,
        r.correlation_id@ == correlation_of(id),
        r.content@ == config.rendered(client_id@, correlation_of(id), timestamp@, seq as nat),
{
    let text = uuid_text(id);
    let correlation_id = text.as_str().substring_char(0, 8).to_owned();
    assert(correlation_id@ =~= correlation_of(id));
    let content = config.render(client_id, correlation_id.as_str(), timestamp, seq);
    PlainMessage { correlation_id, sender_id: client_id.to_owned(), content }
}

/// A message that was encrypted for one receiver.
pub struct EncryptedMessage {
    pub message_id: String,
    pub receiver_client_id: String,
    pub enc_session_key: String,
    pub nonce: String,
    pub ciphertext: String,
    pub sent_time: String,
    pub routing_key: String,
}

/// An encrypted message as mathematical values.
pub struct SentModel {
    pub message_id: Seq<char>,
    pub receiver_client_id: Seq<char>,
    pub envelope: EnvelopeModel,
    pub sent_time: Seq<char>,
    pub routing_key: Seq<char>,
}

impl DeepView for EncryptedMessage {
    type V = SentModel;

    open spec fn deep_view(&self) -> SentModel {
        SentModel {
            message_id: self.message_id@,
            receiver_client_id: self.receiver_client_id@,
            envelope: EnvelopeModel {
                enc_session_key: self.enc_session_key@,
                nonce: self.nonce@,
                ciphertext: self.ciphertext@,
            },
            sent_time: self.sent_time@,
            routing_key: self.routing_key@,
        }
    }
}

impl Clone for EncryptedMessage {
    fn clone(&self) -> (r: Self)
        ensures
            r.deep_view() == self.deep_view(),
    {
        EncryptedMessage {
            message_id: self.message_id.clone(),
            receiver_client_id: self.receiver_client_id.clone(),
            enc_session_key: self.enc_session_key.clone(),
            nonce: self.nonce.clone(),
            ciphertext: self.ciphertext.clone(),
            sent_time: self.sent_time.clone(),
            routing_key: self.routing_key.clone(),
        }
    }
}

/// Why a message could not be encrypted.
#[derive(Clone, Copy, Debug, PartialEq, Eq, Structural)]
pub enum EncryptError {
    KeyEncoding,
    KeyLength,
    ContentTooLong,
}

impl EncryptError {
    /// The error in words.
    pub open spec fn message(self) -> Seq<char> {
        match self {
            EncryptError::KeyEncoding => "Bad Base64 in receiver public key"@,
            EncryptError::KeyLength => "Receiver public key must be 32 bytes"@,
            EncryptError::ContentTooLong => "ChaCha20 encrypt failed: aead::Error"@,
        }
    }

    /// The error in words.
    pub fn text(&self) -> (r: &'static str)
        ensures
            r@ == self.message(),
            self is KeyEncoding ==> r@ == "Bad Base64 in receiver public key"@,
            self is KeyLength ==> r@ == "Receiver public key must be 32 bytes"@,
            self is ContentTooLong ==> r@ == "ChaCha20 encrypt failed: aead::Error"@,
    {
        match self {
            EncryptError::KeyEncoding => "Bad Base64 in receiver public key",
            EncryptError::KeyLength => "Receiver public key must be 32 bytes",
            EncryptError::ContentTooLong => "ChaCha20 encrypt failed: aead::Error",
        }
    }
}

/// Why a message cannot be encrypted with a key, if it cannot.
pub open spec fn encrypt_fault(content: Seq<char>, key_text: Seq<char>) -> Option<EncryptError> {
    match key_in(key_text) {
        Err(KeyError::Encoding) => Some(EncryptError::KeyEncoding),
        Err(KeyError::Length) => Some(EncryptError::KeyLength),
        Ok(_) => if encode_utf8(content).len() <= CHACHA_LIMIT {
            None
        } else {
            Some(EncryptError::ContentTooLong)
        },
    }
}

/// The identifier of a message for one receiver.
pub open spec fn message_id_of(
    sender_id: Seq<char>,
    correlation_id: Seq<char>,
    receiver_id: Seq<char>,
) -> Seq<char> {
    sender_id + "-"@ + correlation_id + "-"@ + receiver_id
}

/// Whether an encrypted message carries a message to a receiver.
pub open spec fn conveys(
    sent: SentModel,
    message: PlainMessage,
    key_text: Seq<char>,
    receiver_id: Seq<char>,
    routing_key: Seq<char>,
    sent_time: Seq<char>,
) -> bool {
    &&& sent.message_id == message_id_of(message.sender_id@, message.correlation_id@, receiver_id)
    &&& sent.receiver_client_id == receiver_id
    &&& sent.routing_key == routing_key
    &&& sent.sent_time == sent_time
    &&& key_in(key_text) is Ok
    &&& carries(sent.envelope, key_in(key_text)->Ok_0, message.content@)
    &&& sized(sent.envelope, message.content@)
}

/// Whether a message is encrypted for a receiver, or refused for its fault.
pub open spec fn encrypts(
    r: Result<EncryptedMessage, EncryptError>,
    message: PlainMessage,
    key_text: Seq<char>,
    receiver_id: Seq<char>,
    routing_key: Seq<char>,
    sent_time: Seq<char>,
) -> bool {
    match encrypt_fault(message.content@, key_text) {
        Some(fault) => r == Err::<EncryptedMessage, EncryptError>(fault),
        None => r matches Ok(m) && conveys(
            m.deep_view(),
            message,
            key_text,
            receiver_id,
            routing_key,
            sent_time,
        ),
    }
}

/// Encrypts a message for one receiver under a fresh session key and nonce.
pub fn encrypt_message(
    message: &PlainMessage,
    public_key_b64: &str,
    receiver_client_id: &str,
    routing_key: &str,
    sent_time: &str,
) -> (r: Result<EncryptedMessage, EncryptError>)
    ensures
        encrypts(r, *message, public_key_b64@, receiver_client_id@, routing_key@, sent_time@),
{
    match read_key(public_key_b64) {
        Err(KeyError::Encoding) => Err(EncryptError::KeyEncoding),
        Err(KeyError::Length) => Err(EncryptError::KeyLength),
        Ok(key) => {
            let session_key = random_bytes(32);
            let nonce = random_bytes(12);
            match seal_content(
                message.content.as_str(),
                &key,
                session_key.as_slice(),
                nonce.as_slice(),
            ) {
                Err(_) => Err(EncryptError::ContentTooLong),
                Ok(envelope) => {
                    let mut message_id = message.sender_id.clone();
                    message_id.append("-");
                    message_id.append(message.correlation_id.as_str());
                    message_id.append("-");
                    message_id.append(receiver_client_id);
                    Ok(
                        EncryptedMessage {
                            message_id,
                            receiver_client_id: receiver_client_id.to_owned(),
                            enc_session_key: envelope.enc_session_key,
                            nonce: envelope.nonce,
                            ciphertext: envelope.ciphertext,
                            sent_time: sent_time.to_owned(),
                            routing_key: routing_key.to_owned(),
                        },
                    )
                },
            }
        },
    }
}

/// A message that is encrypted under the text of a receiver's public key is
/// encrypted, if its content is no longer than the cipher takes, and the receiver
/// decrypts it to its content.
pub proof fn law_encrypted_message_is_decrypted(
    message: PlainMessage,
    key_text: Seq<char>,
    receiver_id: Seq<char>,
    routing_key: Seq<char>,
    sent_time: Seq<char>,
    sent: Result<EncryptedMessage, EncryptError>,
    secret: Seq<u8>,
    r: Option<Result<String, DecryptError>>,
)
    requires
        key_in(key_text) == Ok::<Seq<u8>, KeyError>(x25519_public(secret)),
        encrypts(sent, message, key_text, receiver_id, routing_key, sent_time),
        sent matches Ok(m) ==> decrypts(m.deep_view().envelope, secret, r),
    ensures
        sent is Ok <==> encode_utf8(message.content@).len() <= CHACHA_LIMIT,
        sent is Ok ==> (r matches Some(Ok(s)) && s@ == message.content@),
{
}

impl DeepView for Binding {
    type V = (Seq<char>, Seq<char>, Seq<char>);

    open spec fn deep_view(&self) -> (Seq<char>, Seq<char>, Seq<char>) {
        (self.queue_name@, self.exchange_name@, self.routing_key@)
    }
}

/// The routing key of the last binding of a queue.
pub open spec fn key_of_queue(
    bindings: Seq<(Seq<char>, Seq<char>, Seq<char>)>,
    queue: Seq<char>,
) -> Option<Seq<char>>
    decreases bindings.len(),
{
    if bindings.len() == 0 {
        None
    } else if bindings.last().0 == queue {
        Some(bindings.last().2)
    } else {
        key_of_queue(bindings.drop_last(), queue)
    }
}

/// The routing key for a receiver: that of its queue where it is bound, or its
/// name with `_key`.
pub open spec fn routing_key_of(
    bindings: Seq<(Seq<char>, Seq<char>, Seq<char>)>,
    receiver_id: Seq<char>,
) -> Seq<char> {
    match key_of_queue(bindings, receiver_id + "_queue"@) {
        Some(key) => key,
        None => receiver_id + "_key"@,
    }
}

/// The routing key for a receiver.
pub fn routing_key_for(bindings: &Vec<Binding>, receiver_id: &str) -> (r: String)
    ensures
        r@ == routing_key_of(bindings.deep_view(), receiver_id@),
{
    let queue = prefixed(receiver_id, "_queue");
    let ghost all = bindings.deep_view();
    let mut n: usize = bindings.len();
    assert(all.take(n as int) =~= all);
    while n > 0
        invariant
            n <= bindings@.len(),
            all == bindings.deep_view(),
            key_of_queue(all, queue@) == key_of_queue(all.take(n as int), queue@),
            queue@ == receiver_id@ + "_queue"@,
        decreases n,
    {
        let binding = &bindings[n - 1];
        proof {
            assert(all.take(n as int).last() == binding.deep_view());
            assert(all.take(n as int).drop_last() =~= all.take(n - 1));
        }
        if binding.queue_name == queue {
            return binding.routing_key.clone();
        }
        n = n - 1;
    }
    prefixed(receiver_id, "_key")
}

/// The receivers that a content can be encrypted for, each with the text of its
/// key: those whose key file is there and holds a key.
pub open spec fn reachable(
    receivers: Seq<(Seq<char>, Option<Seq<char>>)>,
    content: Seq<char>,
) -> Seq<(Seq<char>, Seq<char>)>
    decreases receivers.len(),
{
    if receivers.len() == 0 {
        Seq::empty()
    } else {
        let before = reachable(receivers.drop_last(), content);
        match receivers.last().1 {
            Some(file) => if encrypt_fault(content, trimmed(file)) is None {
                before.push((receivers.last().0, trimmed(file)))
            } else {
                before
            },
            None => before,
        }
    }
}

/// Encrypts a message for every receiver whose key is known, each under a session
/// key of its own. A receiver comes with the contents of its key file, if there
/// is one.
pub fn encrypt_for_all_receivers(
    message: &PlainMessage,
    receivers: &Vec<(String, Option<String>)>,
    bindings: &Vec<Binding>,
    sent_time: &str,
) -> (r: Vec<EncryptedMessage>)
    ensures
        ({
            let reached = reachable(receivers.deep_view(), message.content@);
            &&& r@.len() == reached.len()
            &&& forall|i: int|
                0 <= i < r@.len() ==> conveys(
                    (#[trigger] r@[i]).deep_view(),
                    *message,
                    reached[i].1,
                    reached[i].0,
                    routing_key_of(bindings.deep_view(), reached[i].0),
                    sent_time@,
                )
        }),
        forall|i: int|
            0 <= i < receivers@.len() && {
                let (id, file) = #[trigger] receivers.deep_view()[i];
                file is Some && encrypt_fault(message.content@, file->0) is None
            } ==> exists|j: int|
                0 <= j < r@.len() && conveys(
                    (#[trigger] r@[j]).deep_view(),
                    *message,
                    trimmed(receivers.deep_view()[i].1->0),
                    receivers.deep_view()[i].0,
                    routing_key_of(bindings.deep_view(), receivers.deep_view()[i].0),
                    sent_time@,
                ),
{
    let mut out: Vec<EncryptedMessage> = Vec::new();
    let ghost all = receivers.deep_view();
    let ghost content = message.content@;
    let mut i: usize = 0;
    assert(all.take(0) =~= Seq::<(Seq<char>, Option<Seq<char>>)>::empty());
    while i < receivers.len()
        invariant
            i <= receivers@.len(),
            all == receivers.deep_view(),
            content == message.content@,
            out@.len() == reachable(all.take(i as int), content).len(),
            forall|j: int|
                0 <= j < out@.len() ==> conveys(
                    (#[trigger] out@[j]).deep_view(),
                    *message,
                    reachable(all.take(i as int), content)[j].1,
                    reachable(all.take(i as int), content)[j].0,
                    routing_key_of(
                        bindings.deep_view(),
                        reachable(all.take(i as int), content)[j].0,
                    ),
                    sent_time@,
                ),
        decreases receivers@.len() - i,
    {
        let receiver = &receivers[i];
        proof {
            assert(receiver.deep_view() == all[i as int]);
            assert(all.take(i + 1).drop_last() =~= all.take(i as int));
            assert(all.take(i + 1).last() == all[i as int]);
        }
        if let Some(file) = &receiver.1 {
            let key = trim(file.as_str());
            let routing_key = routing_key_for(bindings, receiver.0.as_str());
            if let Ok(sent) = encrypt_message(
                message,
                key,
                receiver.0.as_str(),
                routing_key.as_str(),
                sent_time,
            ) {
                out.push(sent);
            }
        }
        i = i + 1;
    }
    assert(all.take(all.len() as int) =~= all);
    proof {
        let reached = reachable(all, content);
        law_every_receiver_with_a_key_is_reached(all, content);
        assert forall|i: int|
            0 <= i < all.len() && {
                let (id, file) = #[trigger] all[i];
                file is Some && encrypt_fault(content, file->0) is None
            } implies exists|j: int|
            0 <= j < out@.len() && conveys(
                (#[trigger] out@[j]).deep_view(),
                *message,
                trimmed(all[i].1->0),
                all[i].0,
                routing_key_of(bindings.deep_view(), all[i].0),
                sent_time@,
            ) by {
            assert(reached.contains((all[i].0, trimmed(all[i].1->0))));
            let j = choose|j: int|
                0 <= j < reached.len() && reached[j] == (all[i].0, trimmed(all[i].1->0));
            assert(conveys(
                out@[j].deep_view(),
                *message,
                reached[j].1,
                reached[j].0,
                routing_key_of(bindings.deep_view(), reached[j].0),
                sent_time@,
            ));
        }
    }
    out
}

/// What a line from the broker says about a message that was sent.
pub enum AckResult {
    /// The message with this identifier was taken in.
    Acked(String),
    /// The broker reports an error.
    ServerError(String),
    /// The line is not understood.
    Unknown(String),
    /// The line could not be read.
    IoError(String),
}

/// A line from the broker as mathematical values.
pub enum AckModel {
    Acked(Seq<char>),
    ServerError(Seq<char>),
    Unknown(Seq<char>),
    IoError(Seq<char>),
}

impl View for AckResult {
    type V = AckModel;

    open spec fn view(&self) -> AckModel {
        match self {
            AckResult::Acked(t) => AckModel::Acked(t@),
            AckResult::ServerError(t) => AckModel::ServerError(t@),
            AckResult::Unknown(t) => AckModel::Unknown(t@),
            AckResult::IoError(t) => AckModel::IoError(t@),
        }
    }
}

/// What a line means.
pub open spec fn ack_meaning(line: Seq<char>) -> AckModel {
    let response = trimmed(line);
    if has_prefix(response, "ACK "@) {
        AckModel::Acked(response.skip("ACK "@.len() as int))
    } else if has_prefix(response, "Error:"@) {
        AckModel::ServerError(response)
    } else {
        AckModel::Unknown(response)
    }
}

/// The window of messages in flight as mathematical values.
#[verifier::ext_equal]
pub struct PipelineModel {
    pub permits: usize,
    /// The messages in flight.
    pub pending: Map<Seq<char>, SentModel>,
    /// The messages that could not be written.
    pub unwritten: Map<Seq<char>, SentModel>,
    pub sent: u64,
}

impl PipelineModel {
    /// The messages that were not acknowledged.
    pub open spec fn unsettled(self) -> Map<Seq<char>, SentModel> {
        self.pending.union_prefer_right(self.unwritten)
    }

    /// After a message was taken into the window.
    pub open spec fn begun(self, message: SentModel) -> PipelineModel {
        PipelineModel {
            permits: (self.permits - 1) as usize,
            pending: self.pending.insert(message.message_id, message),
            unwritten: self.unwritten.remove(message.message_id),
            ..self
        }
    }

    /// After a message was acknowledged.
    pub open spec fn released(self, id: Seq<char>) -> PipelineModel {
        if self.pending.contains_key(id) {
            PipelineModel {
                permits: (self.permits + 1) as usize,
                pending: self.pending.remove(id),
                ..self
            }
        } else {
            PipelineModel { unwritten: self.unwritten.remove(id), ..self }
        }
    }

    /// After a message could not be written: it makes room in the window, and is
    /// kept to be sent once more.
    pub open spec fn set_aside(self, id: Seq<char>) -> PipelineModel {
        if self.pending.contains_key(id) {
            PipelineModel {
                permits: (self.permits + 1) as usize,
                pending: self.pending.remove(id),
                unwritten: self.unwritten.insert(id, self.pending[id]),
                ..self
            }
        } else {
            self
        }
    }
}

/// Whether every message is found under its identifier.
pub open spec fn keyed(messages: Map<Seq<char>, SentModel>) -> bool {
    forall|id: Seq<char>| #[trigger]
        messages.contains_key(id) ==> messages[id].message_id == id
}

/// The window of messages in flight.
pub struct Pipeline {
    max_inflight: usize,
    permits: usize,
    pending: Directory<String, EncryptedMessage>,
    unwritten: Directory<String, EncryptedMessage>,
    sent: u64,
}

impl View for Pipeline {
    type V = PipelineModel;

    closed spec fn view(&self) -> PipelineModel {
        PipelineModel {
            permits: self.permits,
            pending: self.pending@,
            unwritten: self.unwritten@,
            sent: self.sent,
        }
    }
}

impl Pipeline {
    /// How many messages may be in flight.
    pub closed spec fn window(&self) -> usize {
        self.max_inflight
    }

    /// The messages in flight and the permits left make up no more than the
    /// window, and no message is both in flight and set aside.
    pub closed spec fn wf(&self) -> bool {
        &&& self.pending.wf()
        &&& self.unwritten.wf()
        &&& self@.pending.dom().len() + self.permits <= self.max_inflight
        &&& keyed(self@.pending)
        &&& keyed(self@.unwritten)
        &&& self@.pending.dom().disjoint(self@.unwritten.dom())
        &&& self.max_inflight > 0 ==> self.permits > 0 || self@.pending.dom().len() > 0
    }

    /// No more messages than the window allows are in flight at any time, and where
    /// there is no room, one is.
    pub proof fn lemma_bounded(&self)
        requires
            self.wf(),
        ensures
            self@.pending.dom().finite(),
            self@.pending.dom().len() + self@.permits <= self.window(),
            keyed(self@.pending),
            keyed(self@.unwritten),
            self@.pending.dom().disjoint(self@.unwritten.dom()),
            self.window() > 0 && self@.permits == 0 ==> self@.pending.dom().len() > 0,
    {
        self.pending.lemma_order();
    }

    /// An empty window.
    pub fn new(max_inflight: usize) -> (r: Self)
        ensures
            r.wf(),
            r.window() == max_inflight,
            r@ == (PipelineModel {
                permits: max_inflight,
                pending: Map::empty(),
                unwritten: Map::empty(),
                sent: 0,
            }),
    {
        let r = Pipeline {
            max_inflight,
            permits: max_inflight,
            pending: Directory::new(),
            unwritten: Directory::new(),
            sent: 0,
        };
        assert(r@.pending.dom() =~= Set::<Seq<char>>::empty());
        r
    }

    /// Whether another message may be sent now.
    pub fn can_send(&self) -> (r: bool)
        ensures
            r == (self@.permits > 0),
    {
        self.permits > 0
    }

    /// Takes a message into the window, before it is written.
    pub fn begin(&mut self, message: EncryptedMessage)
        requires
            old(self).wf(),
            old(self)@.permits > 0,
        ensures
            final(self).wf(),
            final(self).window() == old(self).window(),
            final(self)@ == old(self)@.begun(message.deep_view()),
    {
        proof {
            self.pending.lemma_order();
        }
        self.permits = self.permits - 1;
        let _ = self.unwritten.remove(&message.message_id);
        self.pending.insert(message.message_id.clone(), message);
    }

    /// Counts a message that was written.
    pub fn written(&mut self)
        requires
            old(self).wf(),
            old(self)@.sent < u64::MAX,
        ensures
            final(self).wf(),
            final(self).window() == old(self).window(),
            final(self)@ == (PipelineModel { sent: (old(self)@.sent + 1) as u64, ..old(self)@ }),
    {
        self.sent = self.sent + 1;
    }

    fn release(&mut self, id: &str)
        requires
            old(self).wf(),
        ensures
            final(self).wf(),
            final(self).window() == old(self).window(),
            final(self)@ == old(self)@.released(id@),
    {
        proof {
            self.pending.lemma_order();
        }
        let key = id.to_owned();
        match self.pending.remove(&key) {
            Some(_) => {
                self.permits = self.permits + 1;
            },
            None => {
                let _ = self.unwritten.remove(&key);
                assert(self@.pending =~= old(self)@.pending);
            },
        }
    }

    /// Sets aside a message that could not be written. It makes room in the
    /// window.
    pub fn write_failed(&mut self, id: &str)
        requires
            old(self).wf(),
        ensures
            final(self).wf(),
            final(self).window() == old(self).window(),
            final(self)@ == old(self)@.set_aside(id@),
    {
        proof {
            self.pending.lemma_order();
        }
        let key = id.to_owned();
        match self.pending.remove(&key) {
            Some(message) => {
                self.permits = self.permits + 1;
                self.unwritten.insert(key, message);
            },
            None => {
                assert(self@ =~= old(self)@);
            },
        }
    }

    /// Reads a line from the broker. A message that it acknowledges leaves the
    /// window.
    pub fn on_line(&mut self, line: &str) -> (r: AckResult)
        requires
            old(self).wf(),
        ensures
            final(self).wf(),
            final(self).window() == old(self).window(),
            r@ == ack_meaning(line@),
            final(self)@ == (match ack_meaning(line@) {
                AckModel::Acked(id) => old(self)@.released(id),
                _ => old(self)@,
            }),
    {
        let response = trim(line);
        match strip_prefix(response, "ACK ") {
            Some(id) => {
                self.release(id);
                AckResult::Acked(id.to_owned())
            },
            None => {
                if starts_with(response, "Error:") {
                    AckResult::ServerError(response.to_owned())
                } else {
                    AckResult::Unknown(response.to_owned())
                }
            },
        }
    }

    /// Whether no message is in flight.
    pub fn is_drained(&self) -> (r: bool)
        requires
            self.wf(),
        ensures
            r == (self@.pending.dom().len() == 0),
    {
        self.pending.len() == 0
    }

    /// How many messages were written.
    pub fn sent_count(&self) -> (r: u64)
        ensures
            r == self@.sent,
    {
        self.sent
    }

    /// The messages that were not acknowledged, whether they could be written or
    /// not.
    pub fn unacknowledged(&self) -> (r: Vec<EncryptedMessage>)
        requires
            self.wf(),
        ensures
            lists(r.deep_view(), self@.unsettled()),
    {
        let mut out = values_of(&self.pending);
        let ghost flying = out.deep_view();
        let mut rest = values_of(&self.unwritten);
        let ghost aside = rest.deep_view();
        out.append(&mut rest);
        proof {
            assert(out.deep_view() =~= flying + aside);
            let a = choose|order: Seq<Seq<char>>| #[trigger]
                order.no_duplicates() && order.to_set() == self@.pending.dom() && flying
                    == Seq::new(order.len(), |i: int| self@.pending[order[i]]);
            let b = choose|order: Seq<Seq<char>>| #[trigger]
                order.no_duplicates() && order.to_set() == self@.unwritten.dom() && aside
                    == Seq::new(order.len(), |i: int| self@.unwritten[order[i]]);
            lemma_lists_both(a, b, self@);
        }
        out
    }
}

/// The values of a directory, each once.
fn values_of(messages: &Directory<String, EncryptedMessage>) -> (r: Vec<EncryptedMessage>)
    requires
        messages.wf(),
    ensures
        lists(r.deep_view(), messages@),
{
    let mut out: Vec<EncryptedMessage> = Vec::new();
    let ghost order = messages.order();
    proof {
        messages.lemma_order();
    }
    let mut i: usize = 0;
    while i < messages.len()
        invariant
            messages.wf(),
            order == messages.order(),
            i <= order.len(),
            out@.len() == i,
            forall|j: int| 0 <= j < i ==> (#[trigger] out@[j]).deep_view() == messages@[order[j]],
        decreases order.len() - i,
    {
        out.push(messages.value_at(i).clone());
        i = i + 1;
    }
    proof {
        assert(order.no_duplicates());
        assert(out.deep_view() =~= Seq::new(order.len(), |j: int| messages@[order[j]])) by {
            assert forall|j: int| 0 <= j < order.len() implies #[trigger] out.deep_view()[j]
                == messages@[order[j]] by {
                assert(out@[j].deep_view() == messages@[order[j]]);
            }
        }
    }
    out
}

/// Whether a list holds every message of a table once.
pub open spec fn lists(list: Seq<SentModel>, messages: Map<Seq<char>, SentModel>) -> bool {
    exists|order: Seq<Seq<char>>| #[trigger]
        order.no_duplicates() && order.to_set() == messages.dom() && list == Seq::new(
            order.len(),
            |i: int| messages[order[i]],
        )
}

proof fn lemma_lists_both(a: Seq<Seq<char>>, b: Seq<Seq<char>>, s: PipelineModel)
    requires
        a.no_duplicates(),
        b.no_duplicates(),
        a.to_set() == s.pending.dom(),
        b.to_set() == s.unwritten.dom(),
        s.pending.dom().disjoint(s.unwritten.dom()),
    ensures
        lists(
            Seq::new(a.len(), |i: int| s.pending[a[i]]) + Seq::new(
                b.len(),
                |i: int| s.unwritten[b[i]],
            ),
            s.unsettled(),
        ),
{
    let order = a + b;
    let all = s.unsettled();
    assert forall|i: int| 0 <= i < a.len() implies s.pending.dom().contains(#[trigger] a[i]) by {
        assert(a.to_set().contains(a[i]));
    }
    assert forall|i: int| 0 <= i < b.len() implies s.unwritten.dom().contains(#[trigger] b[i]) by {
        assert(b.to_set().contains(b[i]));
    }
    assert(order.no_duplicates()) by {
        assert forall|i: int, j: int|
            0 <= i < order.len() && 0 <= j < order.len() && i != j implies order[i] != order[j] by {
            if i < a.len() && j >= a.len() {
                assert(s.pending.dom().contains(a[i]));
                assert(s.unwritten.dom().contains(b[j - a.len()]));
            }
            if j < a.len() && i >= a.len() {
                assert(s.pending.dom().contains(a[j]));
                assert(s.unwritten.dom().contains(b[i - a.len()]));
            }
        }
    }
    assert(order.to_set() =~= all.dom()) by {
        assert forall|id: Seq<char>| order.to_set().contains(id) <==> #[trigger] all.dom().contains(
            id,
        ) by {
            if s.pending.dom().contains(id) {
                assert(a.to_set().contains(id));
                let i = choose|i: int| 0 <= i < a.len() && a[i] == id;
                assert(order[i] == id);
            }
            if s.unwritten.dom().contains(id) {
                assert(b.to_set().contains(id));
                let i = choose|i: int| 0 <= i < b.len() && b[i] == id;
                assert(order[a.len() + i] == id);
            }
            if order.contains(id) {
                let i = choose|i: int| 0 <= i < order.len() && order[i] == id;
                if i < a.len() {
                    assert(s.pending.dom().contains(a[i]));
                } else {
                    assert(s.unwritten.dom().contains(b[i - a.len()]));
                }
            }
        }
    }
    assert(Seq::new(a.len(), |i: int| s.pending[a[i]]) + Seq::new(
        b.len(),
        |i: int| s.unwritten[b[i]],
    ) =~= Seq::new(order.len(), |i: int| all[order[i]])) by {
        assert forall|i: int| 0 <= i < order.len() implies #[trigger] all[order[i]] == (if i
            < a.len() {
            s.pending[a[i]]
        } else {
            s.unwritten[b[i - a.len()]]
        }) by {
            if i < a.len() {
                assert(s.pending.dom().contains(a[i]));
            } else {
                assert(s.unwritten.dom().contains(b[i - a.len()]));
            }
        }
    }
}

/// For how many seconds acknowledgements are awaited once everything is written:
/// somewhat longer than for a single one.
pub fn drain_secs(ack_timeout_secs: u64) -> (r: u64)
    ensures
        r == (if ack_timeout_secs + 5 <= u64::MAX {
            ack_timeout_secs + 5
        } else {
            u64::MAX as int
        }),
{
    if ack_timeout_secs <= u64::MAX - 5 {
        ack_timeout_secs + 5
    } else {
        u64::MAX
    }
}

/// Where a batch that starts at a message ends.
pub open spec fn batch_end_of(start: nat, batch_size: nat, num_messages: nat) -> nat {
    if start + batch_size < num_messages {
        start + batch_size
    } else {
        num_messages
    }
}

/// Where a batch that starts at a message ends; a batch is never empty.
pub fn batch_end(start: usize, batch_size: usize, num_messages: usize) -> (r: usize)
    requires
        start < num_messages,
        batch_size > 0,
    ensures
        r == batch_end_of(start as nat, batch_size as nat, num_messages as nat),
        start < r <= num_messages,
{
    if batch_size < num_messages - start {
        start + batch_size
    } else {
        num_messages
    }
}

/// How many seconds to wait after a failed attempt: twice as long each time, up
/// to the largest number of seconds there is.
pub open spec fn wait_after(attempt: u32) -> u64 {
    if attempt < 64 {
        pow2(attempt as nat) as u64
    } else {
        u64::MAX
    }
}

/// How many seconds to wait after a failed attempt.
pub fn backoff_secs(attempt: u32) -> (r: u64)
    ensures
        r == wait_after(attempt),
        attempt < 64 ==> r == pow2(attempt as nat),
{
    if attempt >= 64 {
        return u64::MAX;
    }
    let mut r: u64 = 1;
    let mut k: u32 = 0;
    proof {
        lemma2_to64();
    }
    while k < attempt
        invariant
            k <= attempt,
            attempt < 64,
            r == pow2(k as nat),
        decreases attempt - k,
    {
        proof {
            lemma2_to64_rest();
            lemma_pow2_unfold((k + 1) as nat);
            if k + 1 < 63 {
                lemma_pow2_strictly_increases((k + 1) as nat, 63);
            }
        }
        r = r * 2;
        k = k + 1;
    }
    r
}

/// What is heard while acknowledgements are awaited.
pub enum DrainEvent {
    /// The broker's next line, or why it could not be read.
    Answer(AckResult),
    /// Nothing, for now.
    Silence,
    /// There will be nothing more.
    Closed,
}

/// Whether there is no point in waiting any longer.
pub fn ends_draining(event: &DrainEvent) -> (r: bool)
    ensures
        r == (event is Closed || (event matches DrainEvent::Answer(a) && a is IoError)),
{
    match event {
        DrainEvent::Answer(AckResult::IoError(_)) => true,
        DrainEvent::Answer(_) => false,
        DrainEvent::Silence => false,
        DrainEvent::Closed => true,
    }
}

/// Whether a message was acknowledged by one of some answers.
pub fn acknowledged_among(answers: &Vec<AckResult>, message_id: &str) -> (r: bool)
    ensures
        r == exists|i: int|
            0 <= i < answers@.len() && (#[trigger] answers@[i])@ == AckModel::Acked(message_id@),
{
    let mut i: usize = 0;
    while i < answers.len()
        invariant
            i <= answers@.len(),
            forall|j: int|
                0 <= j < i ==> (#[trigger] answers@[j])@ != AckModel::Acked(message_id@),
        decreases answers@.len() - i,
    {
        if let AckResult::Acked(id) = &answers[i] {
            if same(id.as_str(), message_id) {
                assert(answers@[i as int]@ == AckModel::Acked(message_id@));
                return true;
            }
        }
        i = i + 1;
    }
    false
}

/// What came of sending a message once more.
pub enum RetryOutcome {
    /// It could not be written.
    WriteFailed,
    /// The broker's next line came in time.
    Answered(AckResult),
    /// No line came in time.
    NoAnswer,
}

/// What to do after sending a message once more.
#[derive(Clone, Copy, Debug, PartialEq, Eq, Structural)]
pub enum RetryStep {
    /// The message was acknowledged.
    Acknowledged,
    /// Wait for so many seconds; the message is sent again unless this was the
    /// last attempt.
    Wait { secs: u64, last: bool },
}

/// Whether an outcome acknowledges a message.
pub open spec fn acknowledges(outcome: RetryOutcome, message_id: Seq<char>) -> bool {
    outcome matches RetryOutcome::Answered(a) && a@ == AckModel::Acked(message_id)
}

/// Decides what to do after an attempt, counted from zero, to send a message
/// once more.
pub fn after_retry(
    message_id: &str,
    attempt: u32,
    max_retries: u32,
    outcome: &RetryOutcome,
) -> (r: RetryStep)
    requires
        attempt < max_retries,
    ensures
        r == (if acknowledges(*outcome, message_id@) {
            RetryStep::Acknowledged
        } else {
            RetryStep::Wait { secs: wait_after(attempt), last: attempt + 1 == max_retries }
        }),
{
    if let RetryOutcome::Answered(AckResult::Acked(id)) = outcome {
        if same(id.as_str(), message_id) {
            return RetryStep::Acknowledged;
        }
    }
    RetryStep::Wait { secs: backoff_secs(attempt), last: attempt + 1 == max_retries }
}

/// What to do after an attempt to fetch the receivers' keys.
#[derive(Clone, Copy, Debug, PartialEq, Eq, Structural)]
pub enum FetchStep {
    /// There are keys to work with.
    Done,
    /// Wait for so many seconds; the keys are fetched again unless this was the
    /// last attempt.
    Wait { secs: u64, last: bool },
}

/// Decides what to do after an attempt, counted from zero, to fetch the
/// receivers' keys, which found so many of them or failed.
pub fn after_fetch(attempt: u32, max_retries: u32, found: Option<usize>) -> (r: FetchStep)
    requires
        attempt < max_retries,
    ensures
        r == (match found {
            Some(n) => if n > 0 {
                FetchStep::Done
            } else {
                FetchStep::Wait { secs: 0, last: attempt + 1 == max_retries }
            },
            None => FetchStep::Wait {
                secs: wait_after(attempt),
                last: attempt + 1 == max_retries,
            },
        }),
{
    match found {
        Some(n) => {
            if n > 0 {
                FetchStep::Done
            } else {
                FetchStep::Wait { secs: 0, last: attempt + 1 == max_retries }
            }
        },
        None => FetchStep::Wait {
            secs: backoff_secs(attempt),
            last: attempt + 1 == max_retries,
        },
    }
}

/// What the broker answers a request for a key.
pub open spec fn key_answer(response: Seq<char>) -> Option<Seq<char>> {
    if has_prefix(response, "Public key: "@) {
        Some(response.skip("Public key: "@.len() as int))
    } else {
        None
    }
}

/// Reads the broker's answer to a request for a key: the key, if there is one.
pub fn read_key_answer(response: &str) -> (r: Option<String>)
    ensures
        match r {
            Some(key) => key_answer(response@) == Some(key@),
            None => key_answer(response@) is None,
        },
{
    match strip_prefix(response, "Public key: ") {
        Some(key) => Some(key.to_owned()),
        None => None,
    }
}

/// The broker's answer to a request for a key gives the key that was asked for.
pub proof fn law_key_answer_round_trip(key: Seq<char>)
    ensures
        key_answer("Public key: "@ + key) == Some(key),
{
    let prefix = "Public key: "@;
    assert((prefix + key).take(prefix.len() as int) =~= prefix);
    assert((prefix + key).skip(prefix.len() as int) =~= key);
}

} // verus!
