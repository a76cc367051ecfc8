//! What the broker keeps in its database: how updates are batched, how public
//! keys are encrypted at rest, and which statement each request leads to.

use crate::config::DatabaseConfig;
use crate::crypto::{
    aes_gcm_open, aes_gcm_opened, aes_gcm_seal, aes_gcm_sealed, base64_bytes, base64_decode,
    base64_encode, base64_text, random_bytes,
};
use crate::directory::Directory;
use crate::text::{decimal, prefixed, push_decimal};
use vstd::prelude::*;
use vstd::slice::*;
use vstd::string::*;

verus! {

/// What is stored about a message.
pub struct MessageMetadata {
    pub message_id: String,
    pub client_id: String,
    pub exchange_name: String,
    pub routing_key: String,
    pub sent_time: Option<String>,
    pub delivered_time: Option<String>,
    pub acknowledged_time: Option<String>,
}

/// A client's public key, in Base64.
pub struct PublicKeyData {
    pub client_id: String,
    pub public_key: String,
}

/// Why a request to the storage failed.
pub enum StorageError {
    Postgres(String),
    ChannelSend(String),
    ChannelReceive,
    EncryptionError(String),
}

/// The texts of a storage error.
pub enum StorageErrorModel {
    Postgres(Seq<char>),
    ChannelSend(Seq<char>),
    ChannelReceive,
    EncryptionError(Seq<char>),
}

impl View for StorageError {
    type V = StorageErrorModel;

    open spec fn view(&self) -> StorageErrorModel {
        match self {
            StorageError::Postgres(e) => StorageErrorModel::Postgres(e@),
            StorageError::ChannelSend(e) => StorageErrorModel::ChannelSend(e@),
            StorageError::ChannelReceive => StorageErrorModel::ChannelReceive,
            StorageError::EncryptionError(e) => StorageErrorModel::EncryptionError(e@),
        }
    }
}

impl StorageErrorModel {
    /// The error in words.
    pub open spec fn message(self) -> Seq<char> {
        match self {
            StorageErrorModel::Postgres(e) => "PostgreSQL error: "@ + e,
            StorageErrorModel::ChannelSend(e) => "Channel send error: "@ + e,
            StorageErrorModel::ChannelReceive => "Channel receive error"@,
            StorageErrorModel::EncryptionError(e) => "Encryption error: "@ + e,
        }
    }
}

impl StorageError {
    /// The error in words.
    pub fn text(&self) -> (r: String)
        ensures
            r@ == self@.message(),
            self matches StorageError::Postgres(e) ==> r@ == "PostgreSQL error: "@ + e@,
            self matches StorageError::ChannelSend(e) ==> r@ == "Channel send error: "@ + e@,
            self is ChannelReceive ==> r@ == "Channel receive error"@,
            self matches StorageError::EncryptionError(e) ==> r@ == "Encryption error: "@ + e@,
    {
        match self {
            StorageError::Postgres(e) => prefixed("PostgreSQL error: ", e.as_str()),
            StorageError::ChannelSend(e) => prefixed("Channel send error: ", e.as_str()),
            StorageError::ChannelReceive => "Channel receive error".to_owned(),
            StorageError::EncryptionError(e) => prefixed("Encryption error: ", e.as_str()),
        }
    }

    /// The answer to a failed registration of a public key.
    pub fn save_key_text(&self) -> (r: String)
        ensures
            r@ == "Failed to save public key: "@ + self@.message(),
    {
        prefixed("Failed to save public key: ", self.text().as_str())
    }

    /// The answer to a failed request for a public key.
    pub fn get_key_text(&self) -> (r: String)
        ensures
            r@ == "Failed to get public key: "@ + self@.message(),
    {
        prefixed("Failed to get public key: ", self.text().as_str())
    }
}

/// Where the database is.
pub open spec fn connection_url(
    user: Seq<char>,
    password: Seq<char>,
    host: Seq<char>,
    port: nat,
    dbname: Seq<char>,
) -> Seq<char> {
    "postgres://"@ + user + ":"@ + password + "@"@ + host + ":"@ + decimal(port) + "/"@ + dbname
}

/// Where the database is.
pub fn connection_string(config: &DatabaseConfig) -> (r: String)
    ensures
        r@ == connection_url(
            config.user@,
            config.password@,
            config.host@,
            config.port as nat,
            config.dbname@,
        ),
        r@ == "postgres://"@ + config.user@ + ":"@ + config.password@ + "@"@ + config.host@ + ":"@
            + decimal(config.port as nat) + "/"@ + config.dbname@,
{
    let mut out = "postgres://".to_owned();
    out.append(config.user.as_str());
    out.append(":");
    out.append(config.password.as_str());
    out.append("@");
    out.append(config.host.as_str());
    out.append(":");
    push_decimal(&mut out, config.port as u64);
    out.append("/");
    out.append(config.dbname.as_str());
    out
}

/// How often a connection to the database is tried.
pub const MAX_CONNECT_ATTEMPTS: u32 = 5;

/// Whether to try again after so many failed attempts to connect.
pub fn retries_connection(attempts: u32) -> (r: bool)
    ensures
        r == (attempts < 5),
{
    attempts < MAX_CONNECT_ATTEMPTS
}

/// How many updates are held back before they are written.
pub const BATCH_SIZE: usize = 50;

/// Updates that are written together: each message with its time.
pub struct UpdateBatch {
    pub message_ids: Vec<String>,
    pub times: Vec<String>,
}

impl UpdateBatch {
    /// Whether the batch holds the updates of a table, each once.
    pub open spec fn holds(&self, updates: Map<Seq<char>, Seq<char>>) -> bool {
        let ids = self.message_ids.deep_view();
        let times = self.times.deep_view();
        &&& ids.len() == times.len()
        &&& ids.no_duplicates()
        &&& ids.to_set() == updates.dom()
        &&& forall|i: int| 0 <= i < ids.len() ==> updates[#[trigger] ids[i]] == times[i]
    }
}

/// A public key encrypted at rest, in Base64: the ciphertext, the nonce and the
/// tag.
pub struct SealedKey {
    pub client_id: String,
    pub public_key_ciphertext: String,
    pub nonce: String,
    pub tag: String,
}

/// Seals a public key under the storage key and a nonce.
pub fn seal_public_key(key: &[u8], nonce: &[u8], data: &PublicKeyData) -> (r: Result<
    SealedKey,
    StorageError,
>)
    requires
        key@.len() == 32,
        nonce@.len() == 12,
    ensures
        match base64_bytes(data.public_key@) {
            Err(e) => r matches Err(x) && x@ == StorageErrorModel::EncryptionError(
                "Invalid public key: "@ + e,
            ),
            Ok(bytes) => if bytes.len() > 0x10_0000_0000 {
                r matches Err(x) && x@ == StorageErrorModel::EncryptionError(
                    "Encryption failed: "@ + "aead::Error"@,
                )
            } else {
                r matches Ok(row) && is_sealed_key(row, data.client_id@, key@, nonce@, bytes)
            },
        },
{
    match base64_decode(data.public_key.as_str()) {
        Err(e) => Err(StorageError::EncryptionError(prefixed("Invalid public key: ", e.as_str()))),
        Ok(bytes) => {
            match aes_gcm_seal(key, nonce, bytes.as_slice()) {
                Err(e) => Err(
                    StorageError::EncryptionError(prefixed("Encryption failed: ", e.as_str())),
                ),
                Ok(sealed) => {
                    let n: usize = sealed.len();
                    let ciphertext = slice_subrange(sealed.as_slice(), 0, n - 16);
                    let tag = slice_subrange(sealed.as_slice(), n - 16, n);
                    proof {
                        assert(ciphertext@ =~= sealed@.take(n - 16));
                        assert(tag@ =~= sealed@.skip(n - 16));
                    }
                    Ok(
                        SealedKey {
                            client_id: data.client_id.clone(),
                            public_key_ciphertext: base64_encode(ciphertext),
                            nonce: base64_encode(nonce),
                            tag: base64_encode(tag),
                        },
                    )
                },
            }
        },
    }
}

/// Whether a row holds the bytes of a client's key, sealed under a storage key
/// and a nonce, with the last 16 bytes kept apart as the tag.
pub open spec fn is_sealed_key(
    row: SealedKey,
    client_id: Seq<char>,
    key: Seq<u8>,
    nonce: Seq<u8>,
    bytes: Seq<u8>,
) -> bool {
    let sealed = aes_gcm_sealed(key, nonce, bytes);
    &&& row.client_id@ == client_id
    &&& bytes.len() <= 0x10_0000_0000
    &&& sealed.len() == bytes.len() + 16
    &&& nonce.len() == 12
    &&& row.nonce@ == base64_text(nonce)
    &&& row.public_key_ciphertext@ == base64_text(sealed.take(sealed.len() - 16))
    &&& row.tag@ == base64_text(sealed.skip(sealed.len() - 16))
}

/// What the parts of a sealed key open to.
pub open spec fn opened_key(key: Seq<u8>, ciphertext: Seq<u8>, nonce: Seq<u8>, tag: Seq<u8>) -> Result<
    Seq<char>,
    StorageErrorModel,
> {
    match aes_gcm_opened(key, nonce, ciphertext + tag) {
        Some(bytes) => Ok(base64_text(bytes)),
        None => Err(
            StorageErrorModel::EncryptionError("Decryption failed: "@ + "aead::Error"@),
        ),
    }
}

/// What a row opens to; nothing is said of one whose nonce has the wrong length.
pub open spec fn opened_row(row: SealedKey, key: Seq<u8>) -> Option<
    Result<Seq<char>, StorageErrorModel>,
> {
    match base64_bytes(row.public_key_ciphertext@) {
        Err(e) => Some(Err(StorageErrorModel::EncryptionError("Invalid ciphertext: "@ + e))),
        Ok(ciphertext) => match base64_bytes(row.nonce@) {
            Err(e) => Some(Err(StorageErrorModel::EncryptionError("Invalid nonce: "@ + e))),
            Ok(nonce) => match base64_bytes(row.tag@) {
                Err(e) => Some(Err(StorageErrorModel::EncryptionError("Invalid tag: "@ + e))),
                Ok(tag) => if nonce.len() != 12 {
                    None
                } else {
                    Some(opened_key(key, ciphertext, nonce, tag))
                },
            },
        },
    }
}

/// Opens the parts of a sealed key.
pub fn open_key(key: &[u8], ciphertext: &[u8], nonce: &[u8], tag: &[u8]) -> (r: Result<
    String,
    StorageError,
>)
    requires
        key@.len() == 32,
        nonce@.len() == 12,
    ensures
        match r {
            Ok(text) => opened_key(key@, ciphertext@, nonce@, tag@) == Ok::<
                Seq<char>,
                StorageErrorModel,
            >(text@),
            Err(e) => opened_key(key@, ciphertext@, nonce@, tag@) == Err::<
                Seq<char>,
                StorageErrorModel,
            >(e@),
        },
        forall|bytes: Seq<u8>|
            bytes.len() <= 0x10_0000_0000 && ciphertext@ + tag@ == #[trigger] aes_gcm_sealed(
                key@,
                nonce@,
                bytes,
            ) ==> (r matches Ok(text) && text@ == base64_text(bytes)),
{
    let mut sealed: Vec<u8> = slice_to_vec(ciphertext);
    sealed.extend_from_slice(tag);
    assert(sealed@ =~= ciphertext@ + tag@);
    match aes_gcm_open(key, nonce, sealed.as_slice()) {
        Ok(bytes) => Ok(base64_encode(bytes.as_slice())),
        Err(e) => Err(StorageError::EncryptionError(prefixed("Decryption failed: ", e.as_str()))),
    }
}

/// Opens a client's sealed key. There is no answer where its nonce has the wrong
/// length. What was sealed under the same storage key is read back.
pub fn open_public_key(key: &[u8], row: &SealedKey) -> (r: Option<Result<String, StorageError>>)
    requires
        key@.len() == 32,
    ensures
        match r {
            Some(Ok(text)) => opened_row(*row, key@) == Some(
                Ok::<Seq<char>, StorageErrorModel>(text@),
            ),
            Some(Err(e)) => opened_row(*row, key@) == Some(Err::<Seq<char>, StorageErrorModel>(e@)),
            None => opened_row(*row, key@) is None,
        },
        forall|nonce: Seq<u8>, bytes: Seq<u8>| #[trigger]
            is_sealed_key(*row, row.client_id@, key@, nonce, bytes) ==> (r matches Some(Ok(text))
                && text@ == base64_text(bytes)),
{
    let ciphertext = base64_decode(row.public_key_ciphertext.as_str());
    let nonce = base64_decode(row.nonce.as_str());
    let tag = base64_decode(row.tag.as_str());
    match (ciphertext, nonce, tag) {
        (Ok(ciphertext), Ok(nonce), Ok(tag)) => {
            if nonce.len() != 12 {
                return None;
            }
            let r = open_key(key, ciphertext.as_slice(), nonce.as_slice(), tag.as_slice());
            proof {
                assert forall|n: Seq<u8>, bytes: Seq<u8>| #[trigger]
                    is_sealed_key(*row, row.client_id@, key@, n, bytes) implies (r matches Ok(text)
                    && text@ == base64_text(bytes)) by {
                    let sealed = aes_gcm_sealed(key@, n, bytes);
                    assert(ciphertext@ + tag@ =~= sealed);
                }
            }
            Some(r)
        },
        (Err(e), _, _) => Some(
            Err(StorageError::EncryptionError(prefixed("Invalid ciphertext: ", e.as_str()))),
        ),
        (Ok(_), Err(e), _) => Some(
            Err(StorageError::EncryptionError(prefixed("Invalid nonce: ", e.as_str()))),
        ),
        (Ok(_), Ok(_), Err(e)) => Some(
            Err(StorageError::EncryptionError(prefixed("Invalid tag: ", e.as_str()))),
        ),
    }
}

/// A request to the storage.
pub enum StorageCommand {
    SaveMetadata(MessageMetadata),
    UpdateDeliveredTimeAsync(String, String),
    UpdateAcknowledgedTimeAsync(String, String),
    UpdateDeliveredTime(String, String),
    UpdateAcknowledgedTime(String, String),
    LoadUnacknowledgedMetadata,
    GetClientIdForMessage(String),
    SavePublicKey(PublicKeyData),
    GetPublicKey(String),
    FlushUpdates,
}

/// What to do with the database.
pub enum StorageAction {
    /// Nothing yet.
    Wait,
    /// Store the metadata of a message.
    InsertMetadata(MessageMetadata),
    /// Set delivery times, then acknowledgement times, of many messages.
    Flush { delivered: UpdateBatch, acknowledged: UpdateBatch },
    /// Set the delivery time of one message.
    SetDelivered(String, String),
    /// Set the acknowledgement time of one message.
    SetAcknowledged(String, String),
    /// List the messages without an acknowledgement.
    SelectUnacknowledged,
    /// Look up the sender of a message.
    SelectClientId(String),
    /// Store a sealed key.
    UpsertKey(SealedKey),
    /// Answer with an error; the database is not needed.
    Refuse(StorageError),
    /// Look up a sealed key.
    SelectKey(String),
}

/// The updates that are held back.
#[verifier::ext_equal]
pub struct WorkerModel {
    pub delivered: Map<Seq<char>, Seq<char>>,
    pub acknowledged: Map<Seq<char>, Seq<char>>,
}

impl WorkerModel {
    /// Nothing held back.
    pub open spec fn idle() -> WorkerModel {
        WorkerModel { delivered: Map::empty(), acknowledged: Map::empty() }
    }

    /// After an update of a delivery time came in.
    pub open spec fn with_delivered(self, id: Seq<char>, time: Seq<char>) -> WorkerModel {
        WorkerModel { delivered: self.delivered.insert(id, time), ..self }
    }

    /// After an update of an acknowledgement time came in.
    pub open spec fn with_acknowledged(self, id: Seq<char>, time: Seq<char>) -> WorkerModel {
        WorkerModel { acknowledged: self.acknowledged.insert(id, time), ..self }
    }

    /// What is held back and what is written once a batch of updates may be full.
    pub open spec fn settled(self) -> (WorkerModel, WorkerModel) {
        if self.delivered.dom().len() >= BATCH_SIZE {
            (
                WorkerModel { delivered: Map::empty(), ..self },
                WorkerModel { acknowledged: Map::empty(), ..self },
            )
        } else if self.acknowledged.dom().len() >= BATCH_SIZE {
            (
                WorkerModel { acknowledged: Map::empty(), ..self },
                WorkerModel { delivered: Map::empty(), ..self },
            )
        } else {
            (self, WorkerModel::idle())
        }
    }
}

/// Whether an action writes exactly the given updates.
pub open spec fn writes(action: StorageAction, updates: WorkerModel) -> bool {
    if updates == WorkerModel::idle() {
        action is Wait
    } else {
        action matches StorageAction::Flush { delivered, acknowledged } && delivered.holds(
            updates.delivered,
        ) && acknowledged.holds(updates.acknowledged)
    }
}

/// The storage's worker: it holds back updates of times until there are enough of
/// them, and knows the key that public keys are encrypted with.
pub struct StorageWorker {
    delivered: Directory<String, String>,
    acknowledged: Directory<String, String>,
    aes_key: Vec<u8>,
}

impl View for StorageWorker {
    type V = WorkerModel;

    closed spec fn view(&self) -> WorkerModel {
        WorkerModel { delivered: self.delivered@, acknowledged: self.acknowledged@ }
    }
}

/// Empties a table of updates into a batch.
fn drain(updates: &mut Directory<String, String>) -> (r: UpdateBatch)
    requires
        old(updates).wf(),
    ensures
        final(updates).wf(),
        final(updates)@ == Map::<Seq<char>, Seq<char>>::empty(),
        r.holds(old(updates)@),
{
    let message_ids = updates.keys();
    let mut times: Vec<String> = Vec::new();
    let mut i: usize = 0;
    let ghost ids = message_ids.deep_view();
    while i < message_ids.len()
        invariant
            updates.wf(),
            updates@ == old(updates)@,
            ids == message_ids.deep_view(),
            ids == updates.order(),
            i <= ids.len(),
            times@.len() == i,
            forall|j: int| 0 <= j < i ==> updates@[#[trigger] ids[j]] == times@[j]@,
        decreases ids.len() - i,
    {
        times.push(updates.value_at(i).clone());
        i = i + 1;
    }
    *updates = Directory::new();
    let r = UpdateBatch { message_ids, times };
    assert forall|j: int| 0 <= j < ids.len() implies old(updates)@[#[trigger] ids[j]]
        == r.times.deep_view()[j] by {}
    r
}

fn no_updates() -> (r: UpdateBatch)
    ensures
        r.holds(Map::empty()),
{
    let r = UpdateBatch { message_ids: Vec::new(), times: Vec::new() };
    assert(r.message_ids.deep_view().to_set() =~= Map::<Seq<char>, Seq<char>>::empty().dom());
    r
}

impl StorageWorker {
    /// The tables are well-formed and below the size at which they are written,
    /// and the key has the cipher's length.
    pub closed spec fn wf(&self) -> bool {
        &&& self.delivered.wf()
        &&& self.acknowledged.wf()
        &&& self.key().len() == 32
        &&& self@.delivered.dom().len() < BATCH_SIZE
        &&& self@.acknowledged.dom().len() < BATCH_SIZE
    }

    /// The key that public keys are encrypted with.
    pub closed spec fn key(&self) -> Seq<u8> {
        self.aes_key@
    }

    /// Fewer updates than a full batch are held back at any time.
    pub proof fn lemma_bounded(&self)
        requires
            self.wf(),
        ensures
            self.key().len() == 32,
            self@.delivered.dom().len() < BATCH_SIZE,
            self@.acknowledged.dom().len() < BATCH_SIZE,
    {
    }

    /// A worker that holds nothing back.
    pub fn new(aes_key: Vec<u8>) -> (r: Self)
        requires
            aes_key@.len() == 32,
        ensures
            r.wf(),
            r.key() == aes_key@,
            r@ == WorkerModel::idle(),
    {
        StorageWorker { delivered: Directory::new(), acknowledged: Directory::new(), aes_key }
    }

    /// Writes a table that has reached the size of a batch.
    fn settle(&mut self) -> (r: StorageAction)
        requires
            old(self).delivered.wf(),
            old(self).acknowledged.wf(),
            old(self).key().len() == 32,
            old(self)@.delivered.dom().len() < BATCH_SIZE || old(
                self,
            )@.acknowledged.dom().len() < BATCH_SIZE,
        ensures
            final(self).wf(),
            final(self).key() == old(self).key(),
            final(self)@ == old(self)@.settled().0,
            writes(r, old(self)@.settled().1),
    {
        if self.delivered.len() >= BATCH_SIZE {
            let delivered = drain(&mut self.delivered);
            assert(old(self)@.settled().1.delivered != Map::<Seq<char>, Seq<char>>::empty()) by {
                assert(Map::<Seq<char>, Seq<char>>::empty().dom() =~= Set::<Seq<char>>::empty());
            }
            StorageAction::Flush { delivered, acknowledged: no_updates() }
        } else if self.acknowledged.len() >= BATCH_SIZE {
            let acknowledged = drain(&mut self.acknowledged);
            assert(old(self)@.settled().1.acknowledged != Map::<Seq<char>, Seq<char>>::empty()) by {
                assert(Map::<Seq<char>, Seq<char>>::empty().dom() =~= Set::<Seq<char>>::empty());
            }
            StorageAction::Flush { delivered: no_updates(), acknowledged }
        } else {
            StorageAction::Wait
        }
    }

    /// Writes all that is held back.
    pub fn flush(&mut self) -> (r: StorageAction)
        requires
            old(self).wf(),
        ensures
            final(self).wf(),
            final(self).key() == old(self).key(),
            final(self)@ == WorkerModel::idle(),
            writes(r, old(self)@),
    {
        proof {
            self.delivered.lemma_order();
            self.acknowledged.lemma_order();
        }
        if self.delivered.len() == 0 && self.acknowledged.len() == 0 {
            assert(self@.delivered =~= Map::<Seq<char>, Seq<char>>::empty());
            assert(self@.acknowledged =~= Map::<Seq<char>, Seq<char>>::empty());
            return StorageAction::Wait;
        }
        assert(self@ != WorkerModel::idle()) by {
            assert(Map::<Seq<char>, Seq<char>>::empty().dom() =~= Set::<Seq<char>>::empty());
        }
        let delivered = drain(&mut self.delivered);
        let acknowledged = drain(&mut self.acknowledged);
        StorageAction::Flush { delivered, acknowledged }
    }

    /// Seals a client's key under a fresh nonce.
    fn store_key(&self, data: &PublicKeyData) -> (r: StorageAction)
        requires
            self.wf(),
        ensures
            stores_key(r, self.key(), *data),
    {
        let nonce = random_bytes(12);
        match seal_public_key(self.aes_key.as_slice(), nonce.as_slice(), data) {
            Ok(row) => {
                let r = StorageAction::UpsertKey(row);
                assert(is_sealed_key(
                    r->UpsertKey_0,
                    data.client_id@,
                    self.key(),
                    nonce@,
                    base64_bytes(data.public_key@)->Ok_0,
                ));
                r
            },
            Err(e) => StorageAction::Refuse(e),
        }
    }

    /// Decides what a request leads to.
    pub fn handle(&mut self, command: StorageCommand) -> (r: StorageAction)
        requires
            old(self).wf(),
        ensures
            final(self).wf(),
            final(self).key() == old(self).key(),
            leads_to(old(self)@, old(self).key(), command, final(self)@, r),
    {
        match command {
            StorageCommand::SaveMetadata(m) => StorageAction::InsertMetadata(m),
            StorageCommand::UpdateDeliveredTimeAsync(id, time) => {
                self.delivered.insert(id, time);
                self.settle()
            },
            StorageCommand::UpdateAcknowledgedTimeAsync(id, time) => {
                self.acknowledged.insert(id, time);
                self.settle()
            },
            StorageCommand::UpdateDeliveredTime(id, time) => StorageAction::SetDelivered(id, time),
            StorageCommand::UpdateAcknowledgedTime(id, time) => StorageAction::SetAcknowledged(
                id,
                time,
            ),
            StorageCommand::LoadUnacknowledgedMetadata => StorageAction::SelectUnacknowledged,
            StorageCommand::GetClientIdForMessage(id) => StorageAction::SelectClientId(id),
            StorageCommand::SavePublicKey(data) => self.store_key(&data),
            StorageCommand::GetPublicKey(id) => StorageAction::SelectKey(id),
            StorageCommand::FlushUpdates => self.flush(),
        }
    }

    /// Opens a row that was found for a client.
    pub fn read_key(&self, row: &SealedKey) -> (r: Option<Result<String, StorageError>>)
        requires
            self.wf(),
        ensures
            reads(*row, self.key(), r),
    {
        open_public_key(self.aes_key.as_slice(), row)
    }

    /// Answers a request for a client's key with what was found for the client.
    pub fn find_key(&self, row: &Option<SealedKey>) -> (r: Option<
        Result<Option<String>, StorageError>,
    >)
        requires
            self.wf(),
        ensures
            finds(*row, self.key(), r),
    {
        match row {
            None => Some(Ok(None)),
            Some(row) => match self.read_key(row) {
                Some(Ok(text)) => Some(Ok(Some(text))),
                Some(Err(e)) => Some(Err(e)),
                None => None,
            },
        }
    }
}

/// Whether a row opens to a result under a storage key. What was sealed under the
/// same key is read back.
pub open spec fn reads(
    row: SealedKey,
    key: Seq<u8>,
    r: Option<Result<String, StorageError>>,
) -> bool {
    &&& match r {
        Some(Ok(text)) => opened_row(row, key) == Some(Ok::<Seq<char>, StorageErrorModel>(text@)),
        Some(Err(e)) => opened_row(row, key) == Some(Err::<Seq<char>, StorageErrorModel>(e@)),
        None => opened_row(row, key) is None,
    }
    &&& forall|nonce: Seq<u8>, bytes: Seq<u8>| #[trigger]
        is_sealed_key(row, row.client_id@, key, nonce, bytes) ==> (r matches Some(Ok(text))
            && text@ == base64_text(bytes))
}

/// Whether a request for a key is answered by a result, given the row that was
/// found, if there was one.
pub open spec fn finds(
    row: Option<SealedKey>,
    key: Seq<u8>,
    r: Option<Result<Option<String>, StorageError>>,
) -> bool {
    match row {
        None => r == Some(Ok::<Option<String>, StorageError>(None)),
        Some(row) => match r {
            Some(Ok(Some(text))) => reads(row, key, Some(Ok(text))),
            Some(Ok(None)) => false,
            Some(Err(e)) => reads(row, key, Some(Err(e))),
            None => reads(row, key, None),
        },
    }
}

/// Whether a request leads from one state of the worker to another and to an
/// action, under the key that public keys are encrypted with.
pub open spec fn leads_to(
    before: WorkerModel,
    key: Seq<u8>,
    command: StorageCommand,
    after: WorkerModel,
    action: StorageAction,
) -> bool {
    match command {
        StorageCommand::UpdateDeliveredTimeAsync(id, time) => {
            let next = before.with_delivered(id@, time@);
            after == next.settled().0 && writes(action, next.settled().1)
        },
        StorageCommand::UpdateAcknowledgedTimeAsync(id, time) => {
            let next = before.with_acknowledged(id@, time@);
            after == next.settled().0 && writes(action, next.settled().1)
        },
        StorageCommand::FlushUpdates => after == WorkerModel::idle() && writes(action, before),
        StorageCommand::SaveMetadata(m) => after == before && action
            == StorageAction::InsertMetadata(m),
        StorageCommand::UpdateDeliveredTime(id, time) => after == before && action
            == StorageAction::SetDelivered(id, time),
        StorageCommand::UpdateAcknowledgedTime(id, time) => after == before && action
            == StorageAction::SetAcknowledged(id, time),
        StorageCommand::LoadUnacknowledgedMetadata => after == before && action
            == StorageAction::SelectUnacknowledged,
        StorageCommand::GetClientIdForMessage(id) => after == before && action
            == StorageAction::SelectClientId(id),
        StorageCommand::GetPublicKey(id) => after == before && action == StorageAction::SelectKey(
            id,
        ),
        StorageCommand::SavePublicKey(data) => after == before && stores_key(action, key, data),
    }
}

/// Whether an action stores a client's key sealed under some nonce, or refuses it
/// where it is no Base64 or too long to seal.
pub open spec fn stores_key(action: StorageAction, key: Seq<u8>, data: PublicKeyData) -> bool {
    match base64_bytes(data.public_key@) {
        Err(e) => action matches StorageAction::Refuse(x) && x@
            == StorageErrorModel::EncryptionError("Invalid public key: "@ + e),
        Ok(bytes) => if bytes.len() > 0x10_0000_0000 {
            action matches StorageAction::Refuse(x) && x@ == StorageErrorModel::EncryptionError(
                "Encryption failed: "@ + "aead::Error"@,
            )
        } else {
            action matches StorageAction::UpsertKey(row) && exists|nonce: Seq<u8>| #[trigger]
                is_sealed_key(row, data.client_id@, key, nonce, bytes)
        },
    }
}

} // verus!
