//! What becomes of the times of messages and of clients' keys in a database that
//! carries out what the storage worker asks for.

use crate::crypto::{aes_gcm_opened, aes_gcm_sealed, base64_bytes, base64_text};
use crate::storage::{
    finds, is_sealed_key, leads_to, opened_row, writes, PublicKeyData, SealedKey, StorageAction,
    StorageCommand, StorageError, StorageErrorModel, UpdateBatch, WorkerModel, BATCH_SIZE,
};
use vstd::prelude::*;

verus! {

/// The times in the row of a message.
#[verifier::ext_equal]
pub struct RowModel {
    pub delivered: Option<Seq<char>>,
    pub acknowledged: Option<Seq<char>>,
}

/// The rows of all messages.
pub type Rows = Map<Seq<char>, RowModel>;

/// One of the two times of a message.
pub enum Column {
    Delivered,
    Acknowledged,
}

impl RowModel {
    /// The time in a column.
    pub open spec fn time(self, column: Column) -> Option<Seq<char>> {
        match column {
            Column::Delivered => self.delivered,
            Column::Acknowledged => self.acknowledged,
        }
    }
}

impl WorkerModel {
    /// The updates of a column.
    pub open spec fn held(self, column: Column) -> Map<Seq<char>, Seq<char>> {
        match column {
            Column::Delivered => self.delivered,
            Column::Acknowledged => self.acknowledged,
        }
    }
}

impl UpdateBatch {
    /// The updates of the batch as a table.
    pub open spec fn table(&self) -> Map<Seq<char>, Seq<char>> {
        let ids = self.message_ids.deep_view();
        Map::new(
            |id: Seq<char>| ids.contains(id),
            |id: Seq<char>| self.times.deep_view()[ids.index_of(id)],
        )
    }
}

/// A time after an update, which fills it in where there is none.
pub open spec fn filled(
    time: Option<Seq<char>>,
    updates: Map<Seq<char>, Seq<char>>,
    id: Seq<char>,
) -> Option<Seq<char>> {
    if time is None && updates.contains_key(id) {
        Some(updates[id])
    } else {
        time
    }
}

/// The rows after updates of both columns.
pub open spec fn updated(rows: Rows, updates: WorkerModel) -> Rows {
    rows.map_entries(
        |id: Seq<char>, row: RowModel|
            RowModel {
                delivered: filled(row.delivered, updates.delivered, id),
                acknowledged: filled(row.acknowledged, updates.acknowledged, id),
            },
    )
}

/// A text that may be missing.
pub open spec fn shown(text: Option<String>) -> Option<Seq<char>> {
    match text {
        Some(t) => Some(t@),
        None => None,
    }
}

/// The rows after the database has carried out an action. Times that are set are
/// never changed.
pub open spec fn carried_out(rows: Rows, action: StorageAction) -> Rows {
    match action {
        StorageAction::InsertMetadata(m) => if rows.contains_key(m.message_id@) {
            rows
        } else {
            rows.insert(
                m.message_id@,
                RowModel {
                    delivered: shown(m.delivered_time),
                    acknowledged: shown(m.acknowledged_time),
                },
            )
        },
        StorageAction::Flush { delivered, acknowledged } => updated(
            rows,
            WorkerModel { delivered: delivered.table(), acknowledged: acknowledged.table() },
        ),
        StorageAction::SetDelivered(id, time) => updated(
            rows,
            WorkerModel { delivered: map![id@ => time@], acknowledged: Map::empty() },
        ),
        StorageAction::SetAcknowledged(id, time) => updated(
            rows,
            WorkerModel { delivered: Map::empty(), acknowledged: map![id@ => time@] },
        ),
        _ => rows,
    }
}

/// The worker and the rows.
#[verifier::ext_equal]
pub struct StorageModel {
    pub worker: WorkerModel,
    pub rows: Rows,
}

impl StorageModel {
    /// After a request was handled and carried out.
    pub open spec fn step(self, command: StorageCommand) -> StorageModel {
        match command {
            StorageCommand::UpdateDeliveredTimeAsync(id, time) => {
                let (held, written) = self.worker.with_delivered(id@, time@).settled();
                StorageModel { worker: held, rows: updated(self.rows, written) }
            },
            StorageCommand::UpdateAcknowledgedTimeAsync(id, time) => {
                let (held, written) = self.worker.with_acknowledged(id@, time@).settled();
                StorageModel { worker: held, rows: updated(self.rows, written) }
            },
            StorageCommand::FlushUpdates => StorageModel {
                worker: WorkerModel::idle(),
                rows: updated(self.rows, self.worker),
            },
            StorageCommand::SaveMetadata(m) => StorageModel {
                rows: carried_out(self.rows, StorageAction::InsertMetadata(m)),
                ..self
            },
            StorageCommand::UpdateDeliveredTime(id, time) => StorageModel {
                rows: carried_out(self.rows, StorageAction::SetDelivered(id, time)),
                ..self
            },
            StorageCommand::UpdateAcknowledgedTime(id, time) => StorageModel {
                rows: carried_out(self.rows, StorageAction::SetAcknowledged(id, time)),
                ..self
            },
            _ => self,
        }
    }

    /// After requests were handled and carried out, one after the other.
    pub open spec fn run(self, commands: Seq<StorageCommand>) -> StorageModel
        decreases commands.len(),
    {
        if commands.len() == 0 {
            self
        } else {
            self.run(commands.drop_last()).step(commands.last())
        }
    }
}

/// Whether a request holds back an update of a column of a message.
pub open spec fn holds_back(
    command: StorageCommand,
    column: Column,
    id: Seq<char>,
    time: Seq<char>,
) -> bool {
    match column {
        Column::Delivered => command matches StorageCommand::UpdateDeliveredTimeAsync(i, t) && i@
            == id && t@ == time,
        Column::Acknowledged => command matches StorageCommand::UpdateAcknowledgedTimeAsync(i, t)
            && i@ == id && t@ == time,
    }
}

/// Whether a request is about a message.
pub open spec fn mentions(command: StorageCommand, id: Seq<char>) -> bool {
    match command {
        StorageCommand::SaveMetadata(m) => m.message_id@ == id,
        StorageCommand::UpdateDeliveredTimeAsync(i, _) => i@ == id,
        StorageCommand::UpdateAcknowledgedTimeAsync(i, _) => i@ == id,
        StorageCommand::UpdateDeliveredTime(i, _) => i@ == id,
        StorageCommand::UpdateAcknowledgedTime(i, _) => i@ == id,
        _ => false,
    }
}

proof fn lemma_table(batch: UpdateBatch, updates: Map<Seq<char>, Seq<char>>)
    requires
        batch.holds(updates),
    ensures
        batch.table() == updates,
{
    let ids = batch.message_ids.deep_view();
    let table = batch.table();
    assert forall|id: Seq<char>| table.dom().contains(id) <==> updates.dom().contains(id) by {
        assert(ids.to_set().contains(id) <==> ids.contains(id));
    }
    assert forall|id: Seq<char>| #[trigger] table.contains_key(id) implies table[id] == updates[id] by {
        let i = ids.index_of(id);
        assert(0 <= i < ids.len() && ids[i] == id);
        assert(updates[ids[i]] == batch.times.deep_view()[i]);
    }
    assert(table =~= updates);
}

proof fn lemma_written(rows: Rows, action: StorageAction, updates: WorkerModel)
    requires
        writes(action, updates),
    ensures
        carried_out(rows, action) == updated(rows, updates),
{
    if updates == WorkerModel::idle() {
        assert(updated(rows, updates) =~= rows);
    } else {
        match action {
            StorageAction::Flush { delivered, acknowledged } => {
                lemma_table(delivered, updates.delivered);
                lemma_table(acknowledged, updates.acknowledged);
                assert(updates == (WorkerModel {
                    delivered: delivered.table(),
                    acknowledged: acknowledged.table(),
                }));
            },
            _ => {},
        }
    }
}

/// Handling a request and carrying out the action it leads to is a step.
pub proof fn law_handling_is_a_step(
    before: StorageModel,
    key: Seq<u8>,
    command: StorageCommand,
    after: WorkerModel,
    action: StorageAction,
)
    requires
        leads_to(before.worker, key, command, after, action),
    ensures
        before.step(command) == (StorageModel {
            worker: after,
            rows: carried_out(before.rows, action),
        }),
{
    match command {
        StorageCommand::UpdateDeliveredTimeAsync(id, time) => {
            lemma_written(
                before.rows,
                action,
                before.worker.with_delivered(id@, time@).settled().1,
            );
        },
        StorageCommand::UpdateAcknowledgedTimeAsync(id, time) => {
            lemma_written(
                before.rows,
                action,
                before.worker.with_acknowledged(id@, time@).settled().1,
            );
        },
        StorageCommand::FlushUpdates => {
            lemma_written(before.rows, action, before.worker);
        },
        _ => {},
    }
}

/// A row stays, and a time that is set in it is never changed.
pub proof fn law_set_times_are_kept(
    s: StorageModel,
    commands: Seq<StorageCommand>,
    column: Column,
    id: Seq<char>,
)
    requires
        s.rows.contains_key(id),
    ensures
        s.run(commands).rows.contains_key(id),
        s.rows[id].time(column) is Some ==> s.run(commands).rows[id].time(column)
            == s.rows[id].time(column),
    decreases commands.len(),
{
    if commands.len() > 0 {
        law_set_times_are_kept(s, commands.drop_last(), column, id);
    }
}

/// An update that is held back is still held back or was written after any
/// requests.
proof fn lemma_update_is_kept(
    s: StorageModel,
    commands: Seq<StorageCommand>,
    column: Column,
    id: Seq<char>,
)
    requires
        s.rows.contains_key(id),
        s.rows[id].time(column) is Some || s.worker.held(column).contains_key(id),
    ensures
        s.run(commands).rows.contains_key(id),
        s.run(commands).rows[id].time(column) is Some || s.run(commands).worker.held(
            column,
        ).contains_key(id),
        s.rows[id].time(column) is None && (forall|i: int|
            0 <= i < commands.len() ==> !mentions(#[trigger] commands[i], id)) ==> filled(
            s.run(commands).rows[id].time(column),
            s.run(commands).worker.held(column),
            id,
        ) == Some(s.worker.held(column)[id]),
    decreases commands.len(),
{
    if commands.len() > 0 {
        let rest = commands.drop_last();
        lemma_update_is_kept(s, rest, column, id);
        if forall|i: int| 0 <= i < commands.len() ==> !mentions(#[trigger] commands[i], id) {
            assert forall|i: int| 0 <= i < rest.len() implies !mentions(#[trigger] rest[i], id) by {
                assert(rest[i] == commands[i]);
            }
            assert(!mentions(commands[commands.len() - 1], id));
        }
    }
}

/// An update that came in is in the row of its message after the next flush,
/// whatever came in between. A time that was set before stays; where none was and
/// no other request was about the message, it is the time of the update.
pub proof fn law_update_is_written_by_the_next_flush(
    s: StorageModel,
    update: StorageCommand,
    between: Seq<StorageCommand>,
    column: Column,
    id: Seq<char>,
    time: Seq<char>,
)
    requires
        holds_back(update, column, id, time),
        s.rows.contains_key(id),
    ensures
        ({
            let after = s.step(update).run(between).step(StorageCommand::FlushUpdates);
            &&& after.rows.contains_key(id)
            &&& after.rows[id].time(column) is Some
            &&& s.rows[id].time(column) is Some ==> after.rows[id].time(column)
                == s.rows[id].time(column)
            &&& s.rows[id].time(column) is None && (forall|i: int|
                0 <= i < between.len() ==> !mentions(#[trigger] between[i], id))
                ==> after.rows[id].time(column) == Some(time)
        }),
{
    let first = s.step(update);
    lemma_update_is_kept(first, between, column, id);
    law_set_times_are_kept(first, between, column, id);
}

/// An update that makes a table reach the size of a batch is written at once, with
/// all that the table holds.
pub proof fn law_full_batch_is_written_at_once(
    s: StorageModel,
    update: StorageCommand,
    column: Column,
    id: Seq<char>,
    time: Seq<char>,
    other: Seq<char>,
)
    requires
        holds_back(update, column, id, time),
        s.worker.delivered.dom().len() < BATCH_SIZE,
        s.worker.acknowledged.dom().len() < BATCH_SIZE,
        s.worker.held(column).insert(id, time).dom().len() >= BATCH_SIZE,
        s.worker.held(column).insert(id, time).contains_key(other),
        s.rows.contains_key(other),
    ensures
        s.step(update).worker.held(column) == Map::<Seq<char>, Seq<char>>::empty(),
        s.step(update).rows[other].time(column) == filled(
            s.rows[other].time(column),
            s.worker.held(column).insert(id, time),
            other,
        ),
        s.step(update).rows[other].time(column) is Some,
{
}

/// The row of a message that no request is about and no update is held back for is
/// not touched.
pub proof fn law_other_rows_are_unchanged(
    s: StorageModel,
    commands: Seq<StorageCommand>,
    id: Seq<char>,
)
    requires
        s.rows.contains_key(id),
        !s.worker.delivered.contains_key(id),
        !s.worker.acknowledged.contains_key(id),
        forall|i: int| 0 <= i < commands.len() ==> !mentions(#[trigger] commands[i], id),
    ensures
        s.run(commands).rows.contains_key(id),
        s.run(commands).rows[id] == s.rows[id],
        !s.run(commands).worker.delivered.contains_key(id),
        !s.run(commands).worker.acknowledged.contains_key(id),
    decreases commands.len(),
{
    if commands.len() > 0 {
        let rest = commands.drop_last();
        assert forall|i: int| 0 <= i < rest.len() implies !mentions(#[trigger] rest[i], id) by {
            assert(rest[i] == commands[i]);
        }
        law_other_rows_are_unchanged(s, rest, id);
        assert(!mentions(commands[commands.len() - 1], id));
    }
}

/// The sealed keys of all clients.
pub type Keys = Map<Seq<char>, SealedKey>;

/// The keys after an action, which the database may have carried out or not.
pub open spec fn keys_after(keys: Keys, action: StorageAction, done: bool) -> Keys {
    match action {
        StorageAction::UpsertKey(row) => if done {
            keys.insert(row.client_id@, row)
        } else {
            keys
        },
        _ => keys,
    }
}

/// Requests with the actions they lead to, one after the other, and whether the
/// database carried each of them out.
pub struct Trace {
    /// The worker before each request, and after the last one.
    pub workers: Seq<WorkerModel>,
    pub commands: Seq<StorageCommand>,
    pub actions: Seq<StorageAction>,
    pub done: Seq<bool>,
}

impl Trace {
    /// Whether the worker led from each request to its action.
    pub open spec fn valid(self, key: Seq<u8>) -> bool {
        &&& self.actions.len() == self.commands.len()
        &&& self.done.len() == self.commands.len()
        &&& self.workers.len() == self.commands.len() + 1
        &&& forall|i: int|
            0 <= i < self.commands.len() ==> leads_to(
                self.workers[i],
                key,
                #[trigger] self.commands[i],
                self.workers[i + 1],
                self.actions[i],
            )
    }

    /// Whether a request stored a key of a client.
    pub open spec fn saved(self, i: int, client: Seq<char>) -> bool {
        &&& self.commands[i] matches StorageCommand::SavePublicKey(data)
        &&& data.client_id@ == client
        &&& self.actions[i] is UpsertKey
        &&& self.done[i]
    }

    /// Whether no request stored a key of a client.
    pub open spec fn leaves(self, client: Seq<char>) -> bool {
        forall|i: int| 0 <= i < self.commands.len() ==> !(#[trigger] self.saved(i, client))
    }

    /// The keys after the first requests.
    pub open spec fn keys(self, keys: Keys, n: nat) -> Keys
        decreases n,
    {
        if n == 0 {
            keys
        } else {
            keys_after(
                self.keys(keys, (n - 1) as nat),
                self.actions[n - 1],
                self.done[n - 1],
            )
        }
    }

    /// The keys after all requests.
    pub open spec fn keys_at_end(self, keys: Keys) -> Keys {
        self.keys(keys, self.commands.len())
    }
}

proof fn lemma_keys_kept(keys: Keys, trace: Trace, key: Seq<u8>, client: Seq<char>, n: nat)
    requires
        trace.valid(key),
        trace.leaves(client),
        n <= trace.commands.len(),
    ensures
        trace.keys(keys, n).index_opt(client) == keys.index_opt(client),
    decreases n,
{
    if n > 0 {
        let i = n - 1;
        lemma_keys_kept(keys, trace, key, client, i as nat);
        assert(leads_to(
            trace.workers[i],
            key,
            trace.commands[i],
            trace.workers[i + 1],
            trace.actions[i],
        ));
        assert(!trace.saved(i, client));
    }
}

/// The row of a client is not touched by saves for other clients, by saves that
/// were refused or failed, nor by any other request.
pub proof fn law_other_keys_are_kept(keys: Keys, trace: Trace, key: Seq<u8>, client: Seq<char>)
    requires
        trace.valid(key),
        trace.leaves(client),
    ensures
        trace.keys_at_end(keys).index_opt(client) == keys.index_opt(client),
{
    lemma_keys_kept(keys, trace, key, client, trace.commands.len());
}

/// A request for the key of a client gives the key that was saved last for it,
/// whatever else was asked for since. The key has to be the Base64 text of its
/// bytes.
pub proof fn law_saved_key_is_found(
    keys: Keys,
    key: Seq<u8>,
    before: WorkerModel,
    data: PublicKeyData,
    after: WorkerModel,
    action: StorageAction,
    trace: Trace,
    r: Option<Result<Option<String>, StorageError>>,
)
    requires
        leads_to(before, key, StorageCommand::SavePublicKey(data), after, action),
        action is UpsertKey,
        base64_text(base64_bytes(data.public_key@)->Ok_0) == data.public_key@,
        trace.valid(key),
        trace.leaves(data.client_id@),
        finds(
            trace.keys_at_end(keys_after(keys, action, true)).index_opt(data.client_id@),
            key,
            r,
        ),
    ensures
        r matches Some(Ok(Some(text))) && text@ == data.public_key@,
{
    let client = data.client_id@;
    let stored = keys_after(keys, action, true);
    let bytes = base64_bytes(data.public_key@)->Ok_0;
    law_other_keys_are_kept(stored, trace, key, client);
    match action {
        StorageAction::UpsertKey(row) => {
            let nonce = choose|nonce: Seq<u8>| #[trigger]
                is_sealed_key(row, client, key, nonce, bytes);
            assert(is_sealed_key(row, row.client_id@, key, nonce, bytes));
            assert(stored.index_opt(client) == Some(row));
        },
        _ => {},
    }
}

/// A client for which no key was ever saved has none.
pub proof fn law_unknown_client_has_no_key(
    keys: Keys,
    trace: Trace,
    key: Seq<u8>,
    client: Seq<char>,
    r: Option<Result<Option<String>, StorageError>>,
)
    requires
        !keys.contains_key(client),
        trace.valid(key),
        trace.leaves(client),
        finds(trace.keys_at_end(keys).index_opt(client), key, r),
    ensures
        r == Some(Ok::<Option<String>, StorageError>(None)),
{
    law_other_keys_are_kept(keys, trace, key, client);
}

/// While fewer than fifty updates of each kind are held back, nothing is written: an
/// update is held back with the others, and one of the same message and kind gives
/// way to it. Once there are fifty of a kind, all of that kind are written and none
/// of the other.
pub proof fn law_updates_are_held_back_until_the_batch_is_full(
    s: StorageModel,
    id: String,
    time: String,
)
    requires
        s.worker.delivered.dom().len() < 50,
        s.worker.acknowledged.dom().len() < 50,
    ensures
        ({
            let after = s.step(StorageCommand::UpdateDeliveredTimeAsync(id, time));
            let held = s.worker.delivered.insert(id@, time@);
            &&& after.worker.acknowledged == s.worker.acknowledged
            &&& held.dom().len() < 50 ==> after.worker.delivered == held && after.rows == s.rows
            &&& held.dom().len() >= 50 ==> after.worker.delivered == Map::<
                Seq<char>,
                Seq<char>,
            >::empty() && forall|m: Seq<char>| #[trigger]
                s.rows.contains_key(m) ==> after.rows[m].acknowledged == s.rows[m].acknowledged
                    && after.rows[m].delivered == (if s.rows[m].delivered is None
                    && held.contains_key(m) {
                    Some(held[m])
                } else {
                    s.rows[m].delivered
                })
        }),
        ({
            let after = s.step(StorageCommand::UpdateAcknowledgedTimeAsync(id, time));
            let held = s.worker.acknowledged.insert(id@, time@);
            &&& after.worker.delivered == s.worker.delivered
            &&& held.dom().len() < 50 ==> after.worker.acknowledged == held && after.rows == s.rows
            &&& held.dom().len() >= 50 ==> after.worker.acknowledged == Map::<
                Seq<char>,
                Seq<char>,
            >::empty() && forall|m: Seq<char>| #[trigger]
                s.rows.contains_key(m) ==> after.rows[m].delivered == s.rows[m].delivered
                    && after.rows[m].acknowledged == (if s.rows[m].acknowledged is None
                    && held.contains_key(m) {
                    Some(held[m])
                } else {
                    s.rows[m].acknowledged
                })
        }),
{
    let a = s.step(StorageCommand::UpdateDeliveredTimeAsync(id, time));
    let b = s.step(StorageCommand::UpdateAcknowledgedTimeAsync(id, time));
    if s.worker.delivered.insert(id@, time@).dom().len() < 50 {
        assert(a.rows =~= s.rows);
    }
    if s.worker.acknowledged.insert(id@, time@).dom().len() < 50 {
        assert(b.rows =~= s.rows);
    }
}

/// A batch that is to be written names each message of a table of updates once, with
/// its time, and no other message.
pub proof fn law_batch_names_every_update(batch: UpdateBatch, updates: Map<Seq<char>, Seq<char>>)
    requires
        batch.holds(updates),
    ensures
        batch.message_ids@.len() == batch.times@.len(),
        forall|i: int|
            0 <= i < batch.message_ids@.len() ==> {
                let id = (#[trigger] batch.message_ids@[i])@;
                updates.contains_key(id) && updates[id] == batch.times@[i]@
            },
        forall|i: int, j: int|
            0 <= i < j < batch.message_ids@.len() ==> batch.message_ids@[i]@
                != batch.message_ids@[j]@,
        forall|id: Seq<char>| #[trigger]
            updates.contains_key(id) ==> exists|i: int|
                0 <= i < batch.message_ids@.len() && (#[trigger] batch.message_ids@[i])@ == id,
{
    let ids = batch.message_ids.deep_view();
    let times = batch.times.deep_view();
    assert forall|i: int| 0 <= i < batch.message_ids@.len() implies {
        let id = (#[trigger] batch.message_ids@[i])@;
        updates.contains_key(id) && updates[id] == batch.times@[i]@
    } by {
        assert(ids[i] == batch.message_ids@[i]@);
        assert(times[i] == batch.times@[i]@);
        assert(ids.to_set().contains(ids[i]));
    }
    assert forall|i: int, j: int| 0 <= i < j < batch.message_ids@.len() implies batch.message_ids@[i]@
        != batch.message_ids@[j]@ by {
        assert(ids[i] != ids[j]);
    }
    assert forall|id: Seq<char>| #[trigger] updates.contains_key(id) implies exists|i: int|
        0 <= i < batch.message_ids@.len() && (#[trigger] batch.message_ids@[i])@ == id by {
        assert(ids.to_set().contains(id));
        let i = choose|i: int| 0 <= i < ids.len() && ids[i] == id;
        assert(batch.message_ids@[i]@ == id);
    }
}

/// A key in Base64 that is not longer than the cipher takes is stored for its
/// client; another is refused.
pub proof fn law_key_is_stored_for_its_client(
    before: WorkerModel,
    key: Seq<u8>,
    data: PublicKeyData,
    after: WorkerModel,
    action: StorageAction,
)
    requires
        leads_to(before, key, StorageCommand::SavePublicKey(data), after, action),
    ensures
        after == before,
        action is UpsertKey <==> base64_bytes(data.public_key@) is Ok && base64_bytes(
            data.public_key@,
        )->Ok_0.len() <= 0x10_0000_0000,
        action is UpsertKey || action is Refuse,
        base64_bytes(data.public_key@) matches Err(e) ==> (action matches StorageAction::Refuse(x)
            && x@ == StorageErrorModel::EncryptionError("Invalid public key: "@ + e)),
        base64_bytes(data.public_key@) is Ok ==> (action matches StorageAction::Refuse(x) ==> x@
            == StorageErrorModel::EncryptionError("Encryption failed: "@ + "aead::Error"@)),
        action matches StorageAction::UpsertKey(row) ==> row.client_id@ == data.client_id@,
{
}

/// A request that needs one statement leads to that statement, with what the request
/// names, and holds nothing back.
pub proof fn law_single_statements_name_what_was_asked(
    before: WorkerModel,
    key: Seq<u8>,
    command: StorageCommand,
    after: WorkerModel,
    action: StorageAction,
)
    requires
        leads_to(before, key, command, after, action),
    ensures
        command matches StorageCommand::SaveMetadata(m) ==> after == before && action
            == StorageAction::InsertMetadata(m),
        command matches StorageCommand::UpdateDeliveredTime(id, time) ==> after == before && action
            == StorageAction::SetDelivered(id, time),
        command matches StorageCommand::UpdateAcknowledgedTime(id, time) ==> after == before
            && action == StorageAction::SetAcknowledged(id, time),
        command is LoadUnacknowledgedMetadata ==> after == before && action
            == StorageAction::SelectUnacknowledged,
        command matches StorageCommand::GetClientIdForMessage(id) ==> after == before && action
            == StorageAction::SelectClientId(id),
        command matches StorageCommand::GetPublicKey(id) ==> after == before && action
            == StorageAction::SelectKey(id),
        command is FlushUpdates ==> after.delivered == Map::<Seq<char>, Seq<char>>::empty()
            && after.acknowledged == Map::<Seq<char>, Seq<char>>::empty(),
{
}

/// A row whose parts are not Base64 is refused for the first of them that is not: the
/// ciphertext before the nonce, the nonce before the tag. One that does not open is
/// refused too.
pub proof fn law_unreadable_rows_are_refused(row: SealedKey, key: Seq<u8>)
    ensures
        ({
            let a = base64_bytes(row.public_key_ciphertext@);
            let b = base64_bytes(row.nonce@);
            let c = base64_bytes(row.tag@);
            let r = opened_row(row, key);
            &&& a matches Err(e) ==> r == Some(
                Err::<Seq<char>, StorageErrorModel>(
                    StorageErrorModel::EncryptionError("Invalid ciphertext: "@ + e),
                ),
            )
            &&& a is Ok ==> (b matches Err(e) ==> r == Some(
                Err::<Seq<char>, StorageErrorModel>(
                    StorageErrorModel::EncryptionError("Invalid nonce: "@ + e),
                ),
            ))
            &&& a is Ok && b is Ok ==> (c matches Err(e) ==> r == Some(
                Err::<Seq<char>, StorageErrorModel>(
                    StorageErrorModel::EncryptionError("Invalid tag: "@ + e),
                ),
            ))
            &&& a is Ok && b is Ok && c is Ok && b->Ok_0.len() == 12 ==> {
                let opened = aes_gcm_opened(key, b->Ok_0, a->Ok_0 + c->Ok_0);
                &&& opened matches Some(bytes) ==> r == Some(
                    Ok::<Seq<char>, StorageErrorModel>(base64_text(bytes)),
                )
                &&& opened is None ==> r == Some(
                    Err::<Seq<char>, StorageErrorModel>(
                        StorageErrorModel::EncryptionError("Decryption failed: "@ + "aead::Error"@),
                    ),
                )
            }
        }),
{
}

/// A stored row belongs to its client, and its parts are the nonce, the ciphertext and a
/// tag of 16 bytes; the ciphertext with the tag behind it is the sealed key.
pub proof fn law_row_is_cut_before_its_tag(
    row: SealedKey,
    client: Seq<char>,
    key: Seq<u8>,
    nonce: Seq<u8>,
    bytes: Seq<u8>,
)
    requires
        is_sealed_key(row, client, key, nonce, bytes),
    ensures
        row.client_id@ == client,
        row.nonce@ == base64_text(nonce),
        exists|ciphertext: Seq<u8>, tag: Seq<u8>|
            {
                &&& #[trigger] (ciphertext + tag) == aes_gcm_sealed(key, nonce, bytes)
                &&& ciphertext.len() == bytes.len()
                &&& tag.len() == 16
                &&& row.public_key_ciphertext@ == base64_text(ciphertext)
                &&& row.tag@ == base64_text(tag)
            },
{
    let sealed = aes_gcm_sealed(key, nonce, bytes);
    let ciphertext = sealed.take(sealed.len() - 16);
    let tag = sealed.skip(sealed.len() - 16);
    assert(ciphertext + tag =~= sealed);
}

} // verus!
