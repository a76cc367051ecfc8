//! The receiving client: reading deliveries, decrypting each message once, and
//! storing what was received in batches.

use crate::crypto::{base64_bytes, base64_decode, base64_encode, base64_text, x25519_public};
use crate::hybrid::{
    carries, decrypt_message, envelope_text, key_in, read_key, DecryptError, EncryptedEnvelope,
    KeyError,
};
use crate::text::{
    has_prefix, lemma_pieces_len, pieces, same, split_pieces, strip_prefix, trim, trimmed, views,
    wrapped,
};
use vstd::hash_set::StringHashSet;
use vstd::prelude::*;
use vstd::string::*;

verus! {

/// How many seconds pass between two signs of life.
pub const HEARTBEAT_SECS: u64 = 30;

/// What is wrong with a private key file, in words.
pub open spec fn private_key_fault(error: KeyError) -> Seq<char> {
    match error {
        KeyError::Encoding => "Invalid Base64 in private key file"@,
        KeyError::Length => "Private key must be exactly 32 bytes"@,
    }
}

/// Reads the private key from the contents of its file.
pub fn load_private_key(file: &str) -> (r: Result<[u8; 32], &'static str>)
    ensures
        match key_in(file@) {
            Ok(key) => r matches Ok(k) && k@ == key,
            Err(e) => r matches Err(t) && t@ == private_key_fault(e),
        },
        key_in(file@) == Err::<Seq<u8>, KeyError>(KeyError::Encoding) ==> (r matches Err(t) && t@
            == "Invalid Base64 in private key file"@),
        key_in(file@) == Err::<Seq<u8>, KeyError>(KeyError::Length) ==> (r matches Err(t) && t@
            == "Private key must be exactly 32 bytes"@),
{
    match read_key(file) {
        Ok(key) => Ok(key),
        Err(KeyError::Encoding) => Err("Invalid Base64 in private key file"),
        Err(KeyError::Length) => Err("Private key must be exactly 32 bytes"),
    }
}

/// The request that registers the public key in the contents of its file.
pub fn register_key_line(file: &str) -> (r: Result<String, &'static str>)
    ensures
        match base64_bytes(trimmed(file@)) {
            Ok(bytes) => r matches Ok(t) && t@ == "register_public_key "@ + base64_text(bytes)
                + "\n"@,
            Err(_) => r matches Err(t) && t@ == "Invalid Base64 in public key file"@,
        },
{
    match base64_decode(trim(file)) {
        Ok(bytes) => Ok(
            wrapped("register_public_key ", base64_encode(bytes.as_slice()).as_str(), "\n"),
        ),
        Err(_) => Err("Invalid Base64 in public key file"),
    }
}

/// Whether the broker registered the public key.
pub fn is_registered(response: &str) -> (r: bool)
    ensures
        r == (response@ == "Public key registered"@),
{
    same(response, "Public key registered")
}

/// How a session with the broker ended.
#[derive(Clone, Copy, Debug, PartialEq, Eq, Structural)]
pub enum SessionEnd {
    /// The broker did not register the public key.
    RegistrationFailed,
    /// The connection could not be made, or broke.
    ConnectionLost,
    /// The client was asked to stop.
    Stopped,
}

/// Whether to connect again.
pub fn reconnects(end: SessionEnd) -> (r: bool)
    ensures
        r == (end == SessionEnd::ConnectionLost),
{
    match end {
        SessionEnd::ConnectionLost => true,
        _ => false,
    }
}

/// What came of reading from the broker.
pub enum ReadEvent {
    /// Nothing came for a while.
    Timeout,
    /// The connection broke.
    Error,
    /// The broker closed the connection.
    Closed,
    /// A line came.
    Line(String),
}

/// What to do after reading from the broker.
pub enum ReceiveStep {
    /// Read on.
    Continue,
    /// End the session.
    End(SessionEnd),
    /// Read the message from this JSON text and decrypt it.
    Decrypt { message_id: String, json: String },
}

/// What a line from the broker brings.
pub enum Incoming {
    /// Nothing to deliver.
    Other,
    /// A delivery without an identifier.
    NoId,
    /// A delivery without a message.
    NoPayload,
    /// A message that was received before.
    Duplicate(String),
    /// A message, as JSON text.
    Message { message_id: String, json: String },
}

/// What a line brings, as mathematical values.
pub enum IncomingModel {
    Other,
    NoId,
    NoPayload,
    Duplicate(Seq<char>),
    Message { message_id: Seq<char>, json: Seq<char> },
}

impl View for Incoming {
    type V = IncomingModel;

    open spec fn view(&self) -> IncomingModel {
        match self {
            Incoming::Other => IncomingModel::Other,
            Incoming::NoId => IncomingModel::NoId,
            Incoming::NoPayload => IncomingModel::NoPayload,
            Incoming::Duplicate(id) => IncomingModel::Duplicate(id@),
            Incoming::Message { message_id, json } => IncomingModel::Message {
                message_id: message_id@,
                json: json@,
            },
        }
    }
}

/// What a line means to a client that has processed some messages.
pub open spec fn incoming_meaning(line: Seq<char>, processed: Set<Seq<char>>) -> IncomingModel {
    let message = trimmed(line);
    if !has_prefix(message, "Message:"@) {
        IncomingModel::Other
    } else {
        let p = pieces(trimmed(message.skip("Message:"@.len() as int)), 2);
        if p[0].len() == 0 {
            IncomingModel::NoId
        } else if p.len() < 2 {
            IncomingModel::NoPayload
        } else if processed.contains(p[0]) {
            IncomingModel::Duplicate(p[0])
        } else {
            IncomingModel::Message { message_id: p[0], json: p[1] }
        }
    }
}

/// The message whose acknowledgement a line confirms, if it confirms one.
pub open spec fn confirmed(line: Seq<char>) -> Option<Seq<char>> {
    let message = trimmed(line);
    if has_prefix(message, "ACK_CONFIRMED "@) {
        Some(message.skip("ACK_CONFIRMED "@.len() as int))
    } else {
        None
    }
}

/// Reads the broker's confirmation of an acknowledgement.
pub fn read_confirmation(line: &str) -> (r: Option<String>)
    ensures
        match r {
            Some(id) => confirmed(line@) == Some(id@),
            None => confirmed(line@) is None,
        },
{
    match strip_prefix(trim(line), "ACK_CONFIRMED ") {
        Some(id) => Some(id.to_owned()),
        None => None,
    }
}

/// What became of a message.
pub enum Processed {
    /// It could be decrypted; the content is to be stored and the message to be
    /// acknowledged.
    Accepted(String),
    /// It could not be decrypted.
    Failed(DecryptError),
    /// Its session key or nonce has a length that the cipher does not take.
    Malformed,
}

/// Remembers which messages were processed.
pub struct Inbox {
    processed: StringHashSet,
}

impl View for Inbox {
    type V = Set<Seq<char>>;

    closed spec fn view(&self) -> Set<Seq<char>> {
        self.processed@
    }
}

impl Inbox {
    /// Nothing was processed.
    pub fn new() -> (r: Self)
        ensures
            r@ == Set::<Seq<char>>::empty(),
    {
        Inbox { processed: StringHashSet::new() }
    }

    /// Reads a line from the broker.
    pub fn read_line(&self, line: &str) -> (r: Incoming)
        ensures
            r@ == incoming_meaning(line@, self@),
    {
        let message = trim(line);
        match strip_prefix(message, "Message:") {
            None => Incoming::Other,
            Some(rest) => {
                let body = trim(rest);
                let parts = split_pieces(body, 2);
                proof {
                    lemma_pieces_len(body@, 2);
                    assert(views(parts@).len() == parts@.len());
                    assert(views(parts@)[0] == parts@[0]@);
                }
                let message_id = parts[0];
                if message_id.is_empty() {
                    return Incoming::NoId;
                }
                if parts.len() < 2 {
                    return Incoming::NoPayload;
                }
                assert(views(parts@)[1] == parts@[1]@);
                if self.processed.contains(message_id) {
                    return Incoming::Duplicate(message_id.to_owned());
                }
                Incoming::Message { message_id: message_id.to_owned(), json: parts[1].to_owned() }
            },
        }
    }

    /// Decides what to do after reading from the broker. `running` says whether
    /// the client was not asked to stop.
    pub fn step(&self, event: &ReadEvent, running: bool) -> (r: ReceiveStep)
        ensures
            if !running {
                r == ReceiveStep::End(SessionEnd::Stopped)
            } else {
                match event {
                    ReadEvent::Timeout => r is Continue,
                    ReadEvent::Error => r == ReceiveStep::End(SessionEnd::ConnectionLost),
                    ReadEvent::Closed => r == ReceiveStep::End(SessionEnd::ConnectionLost),
                    ReadEvent::Line(line) => match incoming_meaning(line@, self@) {
                        IncomingModel::Message { message_id, json } => {
                            r matches ReceiveStep::Decrypt { message_id: i, json: j } && i@
                                == message_id && j@ == json
                        },
                        _ => r is Continue,
                    },
                }
            },
    {
        if !running {
            return ReceiveStep::End(SessionEnd::Stopped);
        }
        match event {
            ReadEvent::Timeout => ReceiveStep::Continue,
            ReadEvent::Error => ReceiveStep::End(SessionEnd::ConnectionLost),
            ReadEvent::Closed => ReceiveStep::End(SessionEnd::ConnectionLost),
            ReadEvent::Line(line) => {
                match self.read_line(line.as_str()) {
                    Incoming::Message { message_id, json } => ReceiveStep::Decrypt {
                        message_id,
                        json,
                    },
                    _ => ReceiveStep::Continue,
                }
            },
        }
    }

    /// Decrypts a message. One that could be decrypted counts as processed from
    /// then on. What was encrypted for this receiver is accepted as it was
    /// written.
    pub fn process(
        &mut self,
        message_id: &str,
        envelope: &EncryptedEnvelope,
        private_key: &[u8; 32],
    ) -> (r: Processed)
        ensures
            match envelope_text(envelope@, private_key@) {
                Some(Ok(content)) => {
                    &&& r matches Processed::Accepted(t) && t@ == content
                    &&& final(self)@ == old(self)@.insert(message_id@)
                },
                Some(Err(e)) => {
                    &&& r matches Processed::Failed(x) && x == e
                    &&& final(self)@ == old(self)@
                },
                None => r is Malformed && final(self)@ == old(self)@,
            },
            forall|content: Seq<char>| #[trigger]
                carries(envelope@, x25519_public(private_key@), content) ==> (
                r matches Processed::Accepted(t) && t@ == content),
    {
        match decrypt_message(envelope, private_key) {
            Some(Ok(content)) => {
                self.processed.insert(message_id.to_owned());
                Processed::Accepted(content)
            },
            Some(Err(e)) => Processed::Failed(e),
            None => Processed::Malformed,
        }
    }
}

/// A message that was accepted is accepted once: a later delivery under the same
/// identifier is a duplicate.
pub proof fn law_accepted_message_is_a_duplicate(
    processed: Set<Seq<char>>,
    line: Seq<char>,
    message_id: Seq<char>,
    json: Seq<char>,
)
    requires
        incoming_meaning(line, processed) == (IncomingModel::Message { message_id, json }),
    ensures
        incoming_meaning(line, processed.insert(message_id)) == IncomingModel::Duplicate(
            message_id,
        ),
{
}

/// How many records are stored together.
pub const RECORD_BATCH: usize = 100;

/// A received message to be stored, with the time it was received at in
/// milliseconds.
pub struct StoredRecord {
    pub message_id: String,
    pub content: String,
    pub timestamp_ms: i64,
}

/// What the storing of received messages has to react to.
pub enum StoreEvent {
    /// A message was received.
    Received(StoredRecord),
    /// Nothing came for a while; the client may have been asked to stop.
    Idle { running: bool },
    /// Nothing more will come.
    Closed,
}

/// Received messages that are not stored yet.
pub struct RecordBatch {
    records: Vec<StoredRecord>,
    count: u64,
}

impl View for RecordBatch {
    type V = Seq<StoredRecord>;

    closed spec fn view(&self) -> Seq<StoredRecord> {
        self.records@
    }
}

impl RecordBatch {
    /// Fewer records than a full batch are held back.
    pub open spec fn wf(&self) -> bool {
        self@.len() < RECORD_BATCH
    }

    /// How many messages were received.
    pub closed spec fn received(&self) -> u64 {
        self.count
    }

    /// Nothing was received.
    pub fn new() -> (r: Self)
        ensures
            r.wf(),
            r@ == Seq::<StoredRecord>::empty(),
            r.received() == 0,
    {
        RecordBatch { records: Vec::new(), count: 0 }
    }

    /// Takes in a record; a full batch is handed out to be stored.
    fn push(&mut self, record: StoredRecord) -> (r: Vec<StoredRecord>)
        requires
            old(self).wf(),
            old(self).received() < u64::MAX,
        ensures
            final(self).wf(),
            final(self).received() == old(self).received() + 1,
            if old(self)@.len() + 1 >= RECORD_BATCH {
                r@ == old(self)@.push(record) && final(self)@ == Seq::<StoredRecord>::empty()
            } else {
                r@ == Seq::<StoredRecord>::empty() && final(self)@ == old(self)@.push(record)
            },
    {
        self.records.push(record);
        self.count = self.count + 1;
        if self.records.len() >= RECORD_BATCH {
            self.take()
        } else {
            Vec::new()
        }
    }

    fn take(&mut self) -> (r: Vec<StoredRecord>)
        ensures
            r@ == old(self)@,
            final(self)@ == Seq::<StoredRecord>::empty(),
            final(self).received() == old(self).received(),
    {
        let mut out: Vec<StoredRecord> = Vec::new();
        out.append(&mut self.records);
        assert(out@ =~= old(self)@);
        out
    }

    /// Takes in what happened, hands out the records to be stored now, and tells
    /// whether to stop.
    pub fn handle(&mut self, event: StoreEvent) -> (r: (Vec<StoredRecord>, bool))
        requires
            old(self).wf(),
            old(self).received() < u64::MAX,
        ensures
            final(self).wf(),
            final(self)@.len() < 100,
            event is Received ==> r.0@.len() == 0 || r.0@.len() == 100,
            event matches StoreEvent::Received(record) ==> r.0@ + final(self)@ == old(self)@.push(
                record,
            ),
            !(event is Received) ==> r.0@ == old(self)@ && final(self)@.len() == 0,
            match event {
                StoreEvent::Received(record) => {
                    &&& !r.1
                    &&& final(self).received() == old(self).received() + 1
                    &&& if old(self)@.len() + 1 >= RECORD_BATCH {
                        r.0@ == old(self)@.push(record) && final(self)@ == Seq::<
                            StoredRecord,
                        >::empty()
                    } else {
                        r.0@ == Seq::<StoredRecord>::empty() && final(self)@ == old(self)@.push(
                            record,
                        )
                    }
                },
                StoreEvent::Idle { running } => {
                    &&& r.1 == !running
                    &&& r.0@ == old(self)@
                    &&& final(self)@ == Seq::<StoredRecord>::empty()
                    &&& final(self).received() == old(self).received()
                },
                StoreEvent::Closed => {
                    &&& r.1
                    &&& r.0@ == old(self)@
                    &&& final(self)@ == Seq::<StoredRecord>::empty()
                    &&& final(self).received() == old(self).received()
                },
            },
    {
        let ghost before = self@;
        match event {
            StoreEvent::Received(record) => {
                let full = self.push(record);
                proof {
                    let none = Seq::<StoredRecord>::empty();
                    assert(before.push(record) + none =~= before.push(record));
                    assert(none + before.push(record) =~= before.push(record));
                }
                (full, false)
            },
            StoreEvent::Idle { running } => (self.take(), !running),
            StoreEvent::Closed => (self.take(), true),
        }
    }

    /// How many messages were received.
    pub fn received_count(&self) -> (r: u64)
        ensures
            r == self.received(),
    {
        self.count
    }
}

} // verus!
