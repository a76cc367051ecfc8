//! The broker's state: queues, exchanges, bindings, consumers and the delivery
//! status of every message that has not been acknowledged.

use crate::directory::{
    set_texts, text_set_insert, text_set_list, text_set_new, text_set_remove, Directory,
};
use crate::metrics::ServerSnapshot;
use crate::request_laws::law_every_consumer_of_a_bound_queue_is_told;
use crate::seqs::{
    lemma_filter_agree, lemma_filter_all, lemma_filter_members, lemma_filter_no_duplicates,
    lemma_filter_push, lemma_to_set_push,
};
use crate::state_model::{
    bound_queues, can_take, counted_down, counted_up, duplicate_error, is_expired,
    lemma_announced_sound, lemma_bound_sound, lemma_enqueued_all_sound, lemma_enqueued_sound,
    lemma_grown_sound, lemma_notices_agree, lemma_published_sound, lemma_purged_none,
    lemma_purged_one_more, lemma_purged_sound, listed_bindings, metadata_error, of_exchange,
    still_open, unbound_error, MessageModel, QueuedModel, StateModel,
};
use crate::storage::MessageMetadata;
use crate::text::{prefixed, wrapped};
use crate::totals::{add_fitted, fitted, lemma_total_is_sum, sum, total};
use dashmap::DashSet;
use std::collections::VecDeque;
use vstd::prelude::*;
use vstd::string::*;

verus! {

/// How many seconds pass between two cleanups.
pub const CLEANUP_SECS: u64 = 60;

/// For how many nanoseconds a delivered message may stay without an answer.
pub const MAX_UNANSWERED: u128 = 3_000_000_000_000;

/// An encrypted message as it travels from a sender to a receiver.
pub struct EncryptedInputData {
    pub message_id: String,
    pub receiver_client_id: String,
    pub enc_session_key: String,
    pub nonce: String,
    pub ciphertext: String,
}

impl DeepView for EncryptedInputData {
    type V = MessageModel;

    open spec fn deep_view(&self) -> MessageModel {
        MessageModel {
            message_id: self.message_id@,
            receiver_client_id: self.receiver_client_id@,
            enc_session_key: self.enc_session_key@,
            nonce: self.nonce@,
            ciphertext: self.ciphertext@,
        }
    }
}

impl Clone for EncryptedInputData {
    fn clone(&self) -> (r: Self)
        ensures
            r.deep_view() == self.deep_view(),
    {
        EncryptedInputData {
            message_id: self.message_id.clone(),
            receiver_client_id: self.receiver_client_id.clone(),
            enc_session_key: self.enc_session_key.clone(),
            nonce: self.nonce.clone(),
            ciphertext: self.ciphertext.clone(),
        }
    }
}

/// When a message was sent, delivered and acknowledged, in nanoseconds of the
/// broker's clock.
#[derive(Clone, Copy, Debug, PartialEq, Eq, Structural)]
pub struct MessageStatus {
    pub sent_time: Option<u128>,
    pub delivered_time: Option<u128>,
    pub acknowledged_time: Option<u128>,
}

impl DeepView for MessageStatus {
    type V = MessageStatus;

    open spec fn deep_view(&self) -> MessageStatus {
        *self
    }
}

impl MessageStatus {
    /// The status of a message that was just sent.
    pub open spec fn spec_sent(time: u128) -> MessageStatus {
        MessageStatus { sent_time: Some(time), delivered_time: None, acknowledged_time: None }
    }

    /// A message that was just sent.
    pub fn sent(time: u128) -> (r: Self)
        ensures
            r == MessageStatus::spec_sent(time),
    {
        MessageStatus { sent_time: Some(time), delivered_time: None, acknowledged_time: None }
    }

    /// Notes a delivery.
    pub fn delivered(&mut self, time: u128)
        ensures
            *final(self) == (MessageStatus { delivered_time: Some(time), ..*old(self) }),
    {
        self.delivered_time = Some(time);
    }

    /// Notes an acknowledgement.
    pub fn acknowledged(&mut self, time: u128)
        ensures
            *final(self) == (MessageStatus { acknowledged_time: Some(time), ..*old(self) }),
    {
        self.acknowledged_time = Some(time);
    }

    /// Whether the message may still be delivered.
    pub fn can_deliver(&self) -> (r: bool)
        ensures
            r == (self.acknowledged_time is None),
    {
        self.acknowledged_time.is_none()
    }
}

/// The names of the queues that hold a message.
pub struct QueueSet {
    names: DashSet<String>,
}

impl DeepView for QueueSet {
    type V = Set<Seq<char>>;

    closed spec fn deep_view(&self) -> Set<Seq<char>> {
        set_texts(self.names)
    }
}

impl QueueSet {
    /// The set of the names in a list.
    fn of(names: &Vec<String>) -> (r: Self)
        ensures
            r.deep_view() == names.deep_view().to_set(),
    {
        let mut r = QueueSet { names: text_set_new() };
        let ghost all = names.deep_view();
        let mut i: usize = 0;
        assert(r.deep_view() =~= all.take(0).to_set());
        while i < names.len()
            invariant
                i <= names@.len(),
                all == names.deep_view(),
                r.deep_view() == all.take(i as int).to_set(),
            decreases names@.len() - i,
        {
            proof {
                lemma_to_set_push(all.take(i as int), all[i as int]);
                assert(all.take(i + 1) =~= all.take(i as int).push(all[i as int]));
            }
            text_set_insert(&mut r.names, names[i].clone());
            i = i + 1;
        }
        assert(all.take(all.len() as int) =~= all);
        r
    }

    fn remove(&mut self, name: &String)
        ensures
            final(self).deep_view() == old(self).deep_view().remove(name@),
    {
        text_set_remove(&mut self.names, name);
    }

    fn list(&self) -> (r: Vec<String>)
        ensures
            r.deep_view().to_set() == self.deep_view(),
            r.deep_view().no_duplicates(),
    {
        text_set_list(&self.names)
    }

    fn is_empty(&self) -> (r: bool)
        ensures
            r == (self.deep_view() == Set::<Seq<char>>::empty()),
    {
        let names = self.list();
        proof {
            let all = names.deep_view();
            if all.len() > 0 {
                assert(all.contains(all[0]));
                assert(self.deep_view().contains(all[0]));
            } else {
                assert(self.deep_view() =~= Set::<Seq<char>>::empty());
            }
        }
        names.len() == 0
    }
}

/// The broker's state.
pub struct ServerState {
    queues: Directory<String, VecDeque<(String, EncryptedInputData)>>,
    message_queues: Directory<String, QueueSet>,
    bindings: Directory<String, Vec<(String, String)>>,
    exchanges: Directory<String, ()>,
    consumers: Directory<String, Vec<u64>>,
    message_status: Directory<String, MessageStatus>,
    connected_clients: usize,
    max_queue_size: usize,
}

impl View for ServerState {
    type V = StateModel;

    closed spec fn view(&self) -> StateModel {
        StateModel {
            queues: self.queues@,
            message_queues: self.message_queues@,
            bindings: self.bindings@,
            exchanges: self.exchanges@.dom(),
            consumers: self.consumers@,
            message_status: self.message_status@,
            connected_clients: self.connected_clients,
            max_queue_size: self.max_queue_size,
        }
    }
}

/// The ids of a list that are not among the closed ones.
pub(crate) fn open_ids(ids: &Vec<u64>, closed: &Vec<u64>) -> (r: Vec<u64>)
    ensures
        r@ == still_open(ids@, closed@),
{
    let ghost p = |id: u64| !closed@.contains(id);
    let mut out: Vec<u64> = Vec::new();
    let mut i: usize = 0;
    while i < ids.len()
        invariant
            i <= ids@.len(),
            p == (|id: u64| !closed@.contains(id)),
            out@ == ids@.take(i as int).filter(p),
        decreases ids@.len() - i,
    {
        let id: u64 = ids[i];
        proof {
            lemma_filter_push(ids@.take(i as int), id, p);
            assert(ids@.take(i + 1) =~= ids@.take(i as int).push(id));
        }
        if !holds(closed, id) {
            out.push(id);
        }
        i = i + 1;
    }
    assert(ids@.take(ids@.len() as int) =~= ids@);
    out
}

fn holds(ids: &Vec<u64>, wanted: u64) -> (r: bool)
    ensures
        r == ids@.contains(wanted),
{
    let mut i: usize = 0;
    while i < ids.len()
        invariant
            i <= ids@.len(),
            forall|j: int| 0 <= j < i ==> ids@[j] != wanted,
        decreases ids@.len() - i,
    {
        if ids[i] == wanted {
            assert(ids@[i as int] == wanted);
            return true;
        }
        i = i + 1;
    }
    false
}

/// Drops the entries of one message from a queue.
fn drop_message(queue: &mut VecDeque<(String, EncryptedInputData)>, id: &String, Ghost(p): Ghost<spec_fn(QueuedModel) -> bool>)
    requires
        forall|e: QueuedModel| #[trigger] p(e) == (e.0 != id@),
    ensures
        final(queue).deep_view() == old(queue).deep_view().filter(p),
{
    let n: usize = queue.len();
    let mut kept: VecDeque<(String, EncryptedInputData)> = VecDeque::new();
    let mut i: usize = 0;
    let ghost all = queue.deep_view();
    assert(queue@ =~= queue@.skip(0));
    assert(kept.deep_view() =~= all.take(0).filter(p));
    while i < n
        invariant
            i <= n,
            n == all.len(),
            all == old(queue).deep_view(),
            n == old(queue)@.len(),
            queue@ == old(queue)@.skip(i as int),
            kept.deep_view() == all.take(i as int).filter(p),
            forall|e: QueuedModel| #[trigger] p(e) == (e.0 != id@),
        decreases n - i,
    {
        let ghost before = kept.deep_view();
        let front = queue.pop_front();
        match front {
            Some(entry) => {
                proof {
                    assert(entry == old(queue)@[i as int]);
                    assert(entry.deep_view() == all[i as int]);
                    lemma_filter_push(all.take(i as int), all[i as int], p);
                    assert(all.take(i + 1) =~= all.take(i as int).push(all[i as int]));
                    assert(queue@ =~= old(queue)@.skip(i + 1));
                }
                if entry.0 != *id {
                    kept.push_back(entry);
                    assert(kept.deep_view() =~= before.push(entry.deep_view()));
                }
            },
            None => {},
        }
        i = i + 1;
    }
    assert(all.take(n as int) =~= all);
    *queue = kept;
}

/// The answer to a message whose identifier is in use.
pub(crate) fn duplicate_text(id: &str) -> (r: String)
    ensures
        r@ == duplicate_error(id@),
{
    wrapped("Duplicate message ", id, " ignored")
}

/// The answer to a message that no binding leads anywhere.
pub(crate) fn unbound_text(exchange: &str, routing_key: &str) -> (r: String)
    ensures
        r@ == unbound_error(exchange@, routing_key@),
{
    let mut out = wrapped("No queues bound to exchange '", exchange, "' with routing key '");
    out.append(routing_key);
    out.append("'");
    out
}

impl ServerState {
    /// The tables are well-formed and hold what always holds of the state.
    pub closed spec fn wf(&self) -> bool {
        &&& self.queues.wf()
        &&& self.message_queues.wf()
        &&& self.bindings.wf()
        &&& self.exchanges.wf()
        &&& self.consumers.wf()
        &&& self.message_status.wf()
        &&& self@.sound()
    }

    /// What always holds of the state.
    pub proof fn lemma_sound(&self)
        requires
            self.wf(),
        ensures
            self@.sound(),
    {
    }

    /// A state without queues, exchanges, consumers and messages.
    pub fn new(max_queue_size: usize) -> (r: Self)
        ensures
            r.wf(),
            r@ == (StateModel {
                queues: Map::empty(),
                message_queues: Map::empty(),
                bindings: Map::empty(),
                exchanges: Set::empty(),
                consumers: Map::empty(),
                message_status: Map::empty(),
                connected_clients: 0,
                max_queue_size: max_queue_size,
            }),
    {
        let r = ServerState {
            queues: Directory::new(),
            message_queues: Directory::new(),
            bindings: Directory::new(),
            exchanges: Directory::new(),
            consumers: Directory::new(),
            message_status: Directory::new(),
            connected_clients: 0,
            max_queue_size,
        };
        assert(r@.exchanges =~= Set::<Seq<char>>::empty());
        r
    }

    /// Makes sure that a queue exists.
    pub fn declare_queue(&mut self, queue_name: &str)
        requires
            old(self).wf(),
        ensures
            final(self).wf(),
            final(self)@ == old(self)@.with_queue(queue_name@),
    {
        let name = queue_name.to_owned();
        if !self.queues.contains_key(&name) {
            let empty: VecDeque<(String, EncryptedInputData)> = VecDeque::new();
            assert(empty.deep_view() =~= Seq::<QueuedModel>::empty());
            self.queues.insert(name, empty);
        }
        proof {
            lemma_grown_sound(old(self)@, self@);
        }
    }

    /// Makes sure that an exchange exists.
    pub fn declare_exchange(&mut self, exchange_name: &str)
        requires
            old(self).wf(),
        ensures
            final(self).wf(),
            final(self)@ == old(self)@.with_exchange(exchange_name@),
    {
        let name = exchange_name.to_owned();
        if !self.exchanges.contains_key(&name) {
            self.exchanges.insert(name, ());
        }
        proof {
            assert(self@.exchanges =~= old(self)@.exchanges.insert(exchange_name@));
            lemma_grown_sound(old(self)@, self@);
        }
    }

    /// Binds a queue to an exchange under a routing key. Nothing happens where
    /// either is missing or the binding exists.
    pub fn bind_queue(&mut self, queue_name: &str, exchange_name: &str, routing_key: &str)
        requires
            old(self).wf(),
        ensures
            final(self).wf(),
            final(self)@ == old(self)@.with_binding(queue_name@, exchange_name@, routing_key@),
    {
        let queue = queue_name.to_owned();
        let exchange = exchange_name.to_owned();
        let key = routing_key.to_owned();
        proof {
            lemma_bound_sound(self@, queue_name@, exchange_name@, routing_key@);
        }
        if self.queues.contains_key(&queue) && self.exchanges.contains_key(&exchange) {
            let ghost bound = self@.bindings_of(exchange@);
            match self.bindings.get_mut(&exchange) {
                Some(bindings) => {
                    if !has_binding(bindings, &queue, &key) {
                        bindings.push((queue, key));
                        assert(bindings.deep_view() =~= bound.push((queue@, key@)));
                    }
                },
                None => {
                    let first: Vec<(String, String)> = vec![(queue, key)];
                    assert(first.deep_view() =~= bound.push((queue@, key@)));
                    self.bindings.insert(exchange, first);
                },
            }
            assert(self.bindings@ =~= old(self)@.with_binding(
                queue_name@,
                exchange_name@,
                routing_key@,
            ).bindings);
        }
    }
}

/// Whether a binding is among those of an exchange.
fn has_binding(bindings: &Vec<(String, String)>, queue: &String, key: &String) -> (r: bool)
    ensures
        r == bindings.deep_view().contains((queue@, key@)),
{
    let mut i: usize = 0;
    let ghost all = bindings.deep_view();
    while i < bindings.len()
        invariant
            i <= bindings@.len(),
            all == bindings.deep_view(),
            forall|j: int| 0 <= j < i ==> #[trigger] all[j] != (queue@, key@),
        decreases bindings@.len() - i,
    {
        assert(all[i as int] == bindings@[i as int].deep_view());
        if bindings[i].0 == *queue && bindings[i].1 == *key {
            return true;
        }
        i = i + 1;
    }
    assert(!all.contains((queue@, key@)));
    false
}

impl ServerState {
    /// The queues that a routing key leads to from an exchange.
    fn target_queues(&self, exchange: &String, routing_key: &str) -> (r: Vec<String>)
        requires
            self.wf(),
        ensures
            r.deep_view() == self@.targets(exchange@, routing_key@),
    {
        match self.bindings.get(exchange) {
            Some(bindings) => queues_bound(bindings, routing_key),
            None => {
                let none: Vec<String> = Vec::new();
                assert(none.deep_view() =~= Seq::<Seq<char>>::empty());
                none
            },
        }
    }

    /// Notes that a queue has lost a message, whose status is dropped once no queue
    /// is recorded to hold it.
    fn note_loss(&mut self, id: &String, queue_name: &String)
        requires
            old(self).queues.wf(),
            old(self).message_queues.wf(),
            old(self).bindings.wf(),
            old(self).exchanges.wf(),
            old(self).consumers.wf(),
            old(self).message_status.wf(),
        ensures
            final(self).queues.wf(),
            final(self).message_queues.wf(),
            final(self).bindings.wf(),
            final(self).exchanges.wf(),
            final(self).consumers.wf(),
            final(self).message_status.wf(),
            final(self)@ == old(self)@.lost(id@, queue_name@),
    {
        let gone: bool = match self.message_queues.get_mut(id) {
            Some(names) => {
                names.remove(queue_name);
                names.is_empty()
            },
            None => true,
        };
        if gone {
            let _ = self.message_status.remove(id);
        }
        assert(self@ =~= old(self)@.lost(id@, queue_name@));
    }

    /// Puts a message that was announced for a queue at its end; a full queue
    /// loses its oldest one.
    fn enqueue(&mut self, queue_name: &String, message: &EncryptedInputData)
        requires
            old(self).wf(),
            can_take(old(self)@, queue_name@, message.message_id@),
        ensures
            final(self).wf(),
            final(self)@ == old(self)@.enqueued(
                queue_name@,
                (message.deep_view().message_id, message.deep_view()),
            ),
    {
        let ghost entry: QueuedModel = (message.deep_view().message_id, message.deep_view());
        proof {
            lemma_enqueued_sound(self@, queue_name@, entry);
        }
        let limit: usize = self.max_queue_size;
        let mut evicted: Option<String> = None;
        match self.queues.get_mut(queue_name) {
            Some(queue) => {
                let ghost held = queue.deep_view();
                if queue.len() >= limit {
                    match queue.pop_front() {
                        Some(oldest) => {
                            assert(oldest.deep_view() == held[0]);
                            assert(queue.deep_view() =~= held.skip(1));
                            evicted = Some(oldest.0);
                        },
                        None => {},
                    }
                }
                let ghost kept = queue.deep_view();
                queue.push_back((message.message_id.clone(), message.clone()));
                assert(queue.deep_view() =~= kept.push(entry));
            },
            None => {},
        }
        match evicted {
            Some(oldest) => {
                self.note_loss(&oldest, queue_name);
            },
            None => {},
        }
        assert(self@ =~= old(self)@.enqueued(queue_name@, entry));
    }

    /// Describes a message for the database, unless its identifier is in use.
    pub fn publish_metadata(
        &self,
        exchange_name: &str,
        routing_key: &str,
        message: &EncryptedInputData,
        client_id: &str,
        sent_time: String,
    ) -> (r: Result<MessageMetadata, String>)
        requires
            self.wf(),
        ensures
            r is Ok <==> !self@.message_status.contains_key(message.message_id@),
            r matches Err(e) ==> e@ == duplicate_error(message.message_id@),
            r matches Ok(m) ==> {
                &&& m.message_id@ == message.message_id@
                &&& m.client_id@ == client_id@
                &&& m.exchange_name@ == exchange_name@
                &&& m.routing_key@ == routing_key@
                &&& m.sent_time == Some(sent_time)
                &&& m.delivered_time is None
                &&& m.acknowledged_time is None
            },
    {
        if self.message_status.contains_key(&message.message_id) {
            return Err(duplicate_text(message.message_id.as_str()));
        }
        Ok(
            MessageMetadata {
                message_id: message.message_id.clone(),
                client_id: client_id.to_owned(),
                exchange_name: exchange_name.to_owned(),
                routing_key: routing_key.to_owned(),
                sent_time: Some(sent_time),
                delivered_time: None,
                acknowledged_time: None,
            },
        )
    }

    /// Puts a message into every queue bound to the exchange under the routing
    /// key, and tells which consumers are to be sent it. `saved` says how
    /// storing its metadata went.
    pub fn publish(
        &mut self,
        exchange_name: &str,
        routing_key: &str,
        message: EncryptedInputData,
        received_time: u128,
        saved: Result<(), String>,
    ) -> (r: Result<Vec<(String, Vec<u64>)>, String>)
        requires
            old(self).wf(),
        ensures
            final(self).wf(),
            if old(self)@.message_status.contains_key(message.message_id@) {
                &&& r matches Err(e) && e@ == duplicate_error(message.message_id@)
                &&& final(self)@ == old(self)@
            } else if saved is Err {
                &&& r matches Err(e) && e@ == metadata_error(saved->Err_0@)
                &&& final(self)@ == old(self)@
            } else if old(self)@.targets(exchange_name@, routing_key@).len() == 0 {
                &&& r matches Err(e) && e@ == unbound_error(exchange_name@, routing_key@)
                &&& final(self)@ == old(self)@
            } else {
                &&& r matches Ok(n) && n.deep_view() == old(self)@.notices(
                    old(self)@.targets(exchange_name@, routing_key@),
                )
                &&& final(self)@ == old(self)@.published(
                    exchange_name@,
                    routing_key@,
                    message.deep_view(),
                    received_time,
                )
            },
            r matches Ok(n) ==> forall|q: Seq<char>| #[trigger]
                old(self)@.consumers.contains_key(q) ==> (n.deep_view().contains(
                    (q, old(self)@.consumers[q]),
                ) <==> old(self)@.bindings_of(exchange_name@).contains((q, routing_key@))),
    {
        if self.message_status.contains_key(&message.message_id) {
            return Err(duplicate_text(message.message_id.as_str()));
        }
        if let Err(cause) = saved {
            return Err(prefixed("Failed to save metadata: ", cause.as_str()));
        }
        let exchange = exchange_name.to_owned();
        let names = self.target_queues(&exchange, routing_key);
        if names.len() == 0 {
            return Err(unbound_text(exchange_name, routing_key));
        }
        let ghost targets = names.deep_view();
        let ghost entry: QueuedModel = (message.message_id@, message.deep_view());
        self.message_queues.insert(message.message_id.clone(), QueueSet::of(&names));
        self.message_status.insert(message.message_id.clone(), MessageStatus::sent(received_time));
        let ghost base = self@;
        proof {
            assert(base =~= old(self)@.announced(targets, message.message_id@, received_time));
            lemma_announced_sound(
                old(self)@,
                exchange_name@,
                routing_key@,
                message.message_id@,
                received_time,
            );
            assert(targets.take(0) =~= Seq::<Seq<char>>::empty());
        }
        let mut i: usize = 0;
        while i < names.len()
            invariant
                self.wf(),
                i <= names@.len(),
                targets == names.deep_view(),
                targets.no_duplicates(),
                entry == (message.message_id@, message.deep_view()),
                base.sound(),
                forall|j: int| 0 <= j < targets.len() ==> can_take(base, #[trigger] targets[j], entry.0),
                self@ == base.enqueued_all(targets.take(i as int), entry),
            decreases names@.len() - i,
        {
            let ghost before = targets.take(i as int);
            proof {
                assert(targets[i as int] == names@[i as int]@);
                assert(targets.take(i + 1).drop_last() =~= before);
                assert(before.no_duplicates());
                assert forall|j: int| 0 <= j < before.len() implies can_take(
                    base,
                    #[trigger] before[j],
                    entry.0,
                ) by {
                    assert(before[j] == targets[j]);
                }
                lemma_enqueued_all_sound(base, before, entry);
                assert(!before.contains(targets[i as int]));
                assert(self@.queues[targets[i as int]] == base.queues[targets[i as int]]);
                assert(can_take(base, targets[i as int], entry.0));
            }
            self.enqueue(&names[i], &message);
            i = i + 1;
        }
        proof {
            assert(targets.take(targets.len() as int) =~= targets);
            lemma_published_sound(
                old(self)@,
                exchange_name@,
                routing_key@,
                message.deep_view(),
                received_time,
            );
        }
        let out = self.notices_for(&names);
        proof {
            lemma_notices_agree(old(self)@, self@, targets);
            law_every_consumer_of_a_bound_queue_is_told(
                old(self)@,
                exchange_name@,
                routing_key@,
            );
        }
        Ok(out)
    }

    /// The consumers to tell of a message in some queues.
    fn notices_for(&self, names: &Vec<String>) -> (r: Vec<(String, Vec<u64>)>)
        requires
            self.wf(),
        ensures
            r.deep_view() == self@.notices(names.deep_view()),
    {
        let mut out: Vec<(String, Vec<u64>)> = Vec::new();
        let ghost all = names.deep_view();
        let mut i: usize = 0;
        assert(out.deep_view() =~= self@.notices(all.take(0)));
        while i < names.len()
            invariant
                self.wf(),
                i <= names@.len(),
                all == names.deep_view(),
                out.deep_view() == self@.notices(all.take(i as int)),
            decreases names@.len() - i,
        {
            let ghost before = out.deep_view();
            proof {
                assert(all[i as int] == names@[i as int]@);
                assert(all.take(i + 1).drop_last() =~= all.take(i as int));
            }
            match self.consumers.get(&names[i]) {
                Some(ids) => {
                    let copy = copied(ids);
                    out.push((names[i].clone(), copy));
                    assert(out.deep_view() =~= before.push((all[i as int], copy.deep_view())));
                },
                None => {},
            }
            i = i + 1;
        }
        assert(all.take(all.len() as int) =~= all);
        out
    }
}

/// The queues of those bindings that carry a routing key.
pub(crate) fn queues_bound(bindings: &Vec<(String, String)>, routing_key: &str) -> (r: Vec<String>)
    ensures
        r.deep_view() == bound_queues(bindings.deep_view(), routing_key@),
{
    let key = routing_key.to_owned();
    let mut out: Vec<String> = Vec::new();
    let ghost all = bindings.deep_view();
    let mut i: usize = 0;
    assert(out.deep_view() =~= bound_queues(all.take(0), key@));
    while i < bindings.len()
        invariant
            i <= bindings@.len(),
            all == bindings.deep_view(),
            out.deep_view() == bound_queues(all.take(i as int), key@),
        decreases bindings@.len() - i,
    {
        let ghost before = out.deep_view();
        proof {
            assert(all[i as int] == bindings@[i as int].deep_view());
            assert(all.take(i + 1).drop_last() =~= all.take(i as int));
        }
        if bindings[i].1 == key {
            out.push(bindings[i].0.clone());
            assert(out.deep_view() =~= before.push(all[i as int].0));
        }
        i = i + 1;
    }
    assert(all.take(all.len() as int) =~= all);
    out
}

/// A copy of a list of channels.
pub(crate) fn copied(ids: &Vec<u64>) -> (r: Vec<u64>)
    ensures
        r@ == ids@,
        r.deep_view() == ids.deep_view(),
{
    let mut out: Vec<u64> = Vec::new();
    let mut i: usize = 0;
    while i < ids.len()
        invariant
            i <= ids@.len(),
            out@ == ids@.take(i as int),
        decreases ids@.len() - i,
    {
        out.push(ids[i]);
        i = i + 1;
        assert(ids@.take(i as int) =~= ids@.take(i - 1).push(ids@[i - 1]));
    }
    assert(ids@.take(ids@.len() as int) =~= ids@);
    out
}

impl ServerState {
    /// Takes the consumers that are known to be gone off a queue, and tells how
    /// many they were.
    pub fn cleanup_consumers_for_queue(&mut self, queue_name: &str, closed: &Vec<u64>) -> (r: usize)
        requires
            old(self).wf(),
        ensures
            final(self).wf(),
            r == old(self)@.consumers_of(queue_name@).len() - final(self)@.consumers_of(queue_name@).len(),
            final(self)@ == (StateModel {
                consumers: if old(self)@.consumers.contains_key(queue_name@) {
                    old(self)@.consumers.insert(
                        queue_name@,
                        still_open(old(self)@.consumers[queue_name@], closed@),
                    )
                } else {
                    old(self)@.consumers
                },
                ..old(self)@
            }),
    {
        let name = queue_name.to_owned();
        let removed: usize;
        match self.consumers.get_mut(&name) {
            Some(ids) => {
                let ghost before = ids@;
                let before_len: usize = ids.len();
                let kept = open_ids(ids, closed);
                proof {
                    lemma_filter_members(before, |id: u64| !closed@.contains(id));
                    assert(ids.deep_view() =~= before);
                    assert(kept.deep_view() =~= kept@);
                }
                removed = before_len - kept.len();
                *ids = kept;
            },
            None => {
                removed = 0;
            },
        }
        proof {
            lemma_grown_sound(old(self)@, self@);
        }
        removed
    }

    /// Takes the consumers that are known to be gone off every queue, and
    /// forgets the lists that are then empty.
    pub fn cleanup_dead_consumers(&mut self, closed: &Vec<u64>)
        requires
            old(self).wf(),
        ensures
            final(self).wf(),
            final(self)@ == (StateModel {
                consumers: old(self)@.without_consumers(closed@),
                ..old(self)@
            }),
    {
        let names = self.consumers.keys();
        let ghost all = names.deep_view();
        let mut i: usize = 0;
        assert(self@ =~= (StateModel {
            consumers: old(self)@.without_consumers_in(closed@, all.take(0)),
            ..old(self)@
        }));
        while i < names.len()
            invariant
                self.wf(),
                i <= names@.len(),
                all == names.deep_view(),
                all.no_duplicates(),
                forall|q: Seq<char>| #[trigger] old(self)@.consumers.contains_key(q) <==> all.contains(q),
                self@ == (StateModel {
                    consumers: old(self)@.without_consumers_in(closed@, all.take(i as int)),
                    ..old(self)@
                }),
            decreases names@.len() - i,
        {
            let ghost before = self@;
            let ghost name = all[i as int];
            proof {
                assert(names@[i as int]@ == name);
                assert(all.contains(name));
                assert(!all.take(i as int).contains(name)) by {
                    if all.take(i as int).contains(name) {
                        let j = choose|j: int| 0 <= j < i && all.take(i as int)[j] == name;
                        assert(all[j] == all[i as int]);
                    }
                }
                assert forall|q: Seq<char>| #[trigger] all.take(i + 1).contains(q) <==> all.take(
                    i as int,
                ).contains(q) || q == name by {
                    assert(all.take(i + 1) =~= all.take(i as int).push(name));
                    lemma_to_set_push(all.take(i as int), name);
                    assert(all.take(i + 1).to_set().contains(q) <==> all.take(i + 1).contains(q));
                    assert(all.take(i as int).to_set().contains(q) <==> all.take(i as int).contains(q));
                }
            }
            let _ = self.cleanup_consumers_for_queue(names[i].as_str(), closed);
            let empty: bool = match self.consumers.get(&names[i]) {
                Some(ids) => {
                    assert(ids.deep_view().len() == ids@.len());
                    ids.len() == 0
                },
                None => false,
            };
            if empty {
                let _ = self.consumers.remove(&names[i]);
            }
            i = i + 1;
            proof {
                lemma_grown_sound(before, self@);
                assert(self@.consumers =~= old(self)@.without_consumers_in(
                    closed@,
                    all.take(i as int),
                ));
            }
        }
        proof {
            assert(all.take(all.len() as int) =~= all);
            assert(self@.consumers =~= old(self)@.without_consumers(closed@));
        }
    }

    /// For each queue with consumers: its name, how many there are and how many
    /// of them are not known to be gone.
    pub fn get_consumer_stats(&self, closed: &Vec<u64>) -> (r: Vec<(String, usize, usize)>)
        requires
            self.wf(),
        ensures
            forall|i: int, j: int| 0 <= i < j < r@.len() ==> r@[i].0@ != r@[j].0@,
            forall|q: Seq<char>| #[trigger]
                self@.consumers.contains_key(q) <==> exists|i: int|
                    0 <= i < r@.len() && (#[trigger] r@[i]).0@ == q,
            forall|i: int|
                0 <= i < r@.len() ==> {
                    let ids = self@.consumers[(#[trigger] r@[i]).0@];
                    r@[i].1 == ids.len() && r@[i].2 == still_open(ids, closed@).len()
                },
    {
        let mut out: Vec<(String, usize, usize)> = Vec::new();
        let mut i: usize = 0;
        let ghost order = self.consumers.order();
        proof {
            self.consumers.lemma_order();
        }
        while i < self.consumers.len()
            invariant
                self.wf(),
                order == self.consumers.order(),
                i <= order.len(),
                out@.len() == i,
                forall|j: int| 0 <= j < i ==> (#[trigger] out@[j]).0@ == order[j],
                forall|j: int|
                    0 <= j < i ==> {
                        let ids = self@.consumers[(#[trigger] out@[j]).0@];
                        out@[j].1 == ids.len() && out@[j].2 == still_open(ids, closed@).len()
                    },
            decreases order.len() - i,
        {
            let ids = self.consumers.value_at(i);
            let alive = open_ids(ids, closed);
            assert(ids.deep_view() =~= ids@);
            out.push((self.consumers.key_at(i).clone(), ids.len(), alive.len()));
            i = i + 1;
        }
        proof {
            assert forall|q: Seq<char>| #[trigger] self@.consumers.contains_key(q) <==> exists|i: int|
                0 <= i < out@.len() && (#[trigger] out@[i]).0@ == q by {
                if self@.consumers.contains_key(q) {
                    assert(order.contains(q));
                    let k = choose|k: int| 0 <= k < order.len() && order[k] == q;
                    assert(out@[k].0@ == q);
                }
                if exists|i: int| 0 <= i < out@.len() && (#[trigger] out@[i]).0@ == q {
                    let k = choose|k: int| 0 <= k < out@.len() && (#[trigger] out@[k]).0@ == q;
                    assert(order[k] == q);
                }
            }
        }
        out
    }
}

impl ServerState {
    /// Adds a consumer to a queue, which is declared if need be, and hands out
    /// the queued messages that are still to be delivered to it.
    pub fn register_consumer(&mut self, queue_name: &str, consumer: u64) -> (r: Vec<
        (String, EncryptedInputData),
    >)
        requires
            old(self).wf(),
        ensures
            final(self).wf(),
            final(self)@ == old(self)@.with_consumer(queue_name@, consumer),
            r.deep_view() == old(self)@.pending(queue_name@),
    {
        self.declare_queue(queue_name);
        let ghost declared = self@;
        let name = queue_name.to_owned();
        let known: bool = self.consumers.contains_key(&name);
        if !known {
            let none: Vec<u64> = Vec::new();
            assert(none.deep_view() =~= Seq::<u64>::empty());
            self.consumers.insert(name.clone(), none);
        }
        match self.consumers.get_mut(&name) {
            Some(ids) => {
                let ghost before = ids.deep_view();
                ids.push(consumer);
                assert(ids.deep_view() =~= before.push(consumer));
            },
            None => {},
        }
        proof {
            assert(self@ =~= old(self)@.with_consumer(queue_name@, consumer));
            lemma_grown_sound(declared, self@);
        }
        self.pending_messages(&name, Ghost(old(self)@))
    }

    /// The queued messages that are still to be delivered.
    fn pending_messages(&self, name: &String, Ghost(model): Ghost<StateModel>) -> (r: Vec<
        (String, EncryptedInputData),
    >)
        requires
            self.wf(),
            model.with_queue(name@).queues == self@.queues,
            model.message_status == self@.message_status,
        ensures
            r.deep_view() == model.pending(name@),
    {
        let ghost p = |e: QueuedModel| model.deliverable(e.0);
        let mut out: Vec<(String, EncryptedInputData)> = Vec::new();
        match self.queues.get(name) {
            Some(queue) => {
                let ghost all = queue.deep_view();
                let mut i: usize = 0;
                assert(out.deep_view() =~= all.take(0).filter(p));
                while i < queue.len()
                    invariant
                        self.wf(),
                        model.message_status == self@.message_status,
                        p == (|e: QueuedModel| model.deliverable(e.0)),
                        i <= queue@.len(),
                        all == queue.deep_view(),
                        out.deep_view() == all.take(i as int).filter(p),
                    decreases queue@.len() - i,
                {
                    let ghost before = out.deep_view();
                    let entry = &queue[i];
                    proof {
                        assert(entry.deep_view() == all[i as int]);
                        lemma_filter_push(all.take(i as int), all[i as int], p);
                        assert(all.take(i + 1) =~= all.take(i as int).push(all[i as int]));
                    }
                    if self.can_deliver(entry.0.as_str()) {
                        out.push((entry.0.clone(), entry.1.clone()));
                        assert(out.deep_view() =~= before.push(all[i as int]));
                    }
                    i = i + 1;
                }
                assert(all.take(all.len() as int) =~= all);
                assert(all.len() == 0 ==> all.filter(p) =~= all);
            },
            None => {},
        }
        assert(out.deep_view() =~= model.pending(name@));
        out
    }

    /// Whether a message is known and not acknowledged.
    pub fn can_deliver(&self, message_id: &str) -> (r: bool)
        requires
            self.wf(),
        ensures
            r == self@.deliverable(message_id@),
    {
        match self.message_status.get(&message_id.to_owned()) {
            Some(status) => status.can_deliver(),
            None => false,
        }
    }

    /// Notes the first delivery of a message, and tells whether it was the first.
    pub fn mark_delivered(&mut self, message_id: &str, now: u128) -> (r: bool)
        requires
            old(self).wf(),
        ensures
            final(self).wf(),
            r == (old(self)@.message_status.contains_key(message_id@)
                && old(self)@.message_status[message_id@].delivered_time is None),
            final(self)@ == (if r {
                old(self)@.delivered(message_id@, now)
            } else {
                old(self)@
            }),
    {
        let id = message_id.to_owned();
        let first: bool = match self.message_status.get(&id) {
            Some(status) => status.delivered_time.is_none(),
            None => false,
        };
        if first {
            self.note_delivery(&id, now);
        }
        first
    }

    fn note_delivery(&mut self, id: &String, now: u128)
        requires
            old(self).wf(),
        ensures
            final(self).wf(),
            final(self)@ == old(self)@.delivered(id@, now),
    {
        match self.message_status.get_mut(id) {
            Some(status) => {
                status.delivered(now);
            },
            None => {},
        }
        proof {
            assert(self@ =~= old(self)@.delivered(id@, now));
            assert(self@.message_status.dom() =~= old(self)@.message_status.dom());
            lemma_grown_sound(old(self)@, self@);
        }
    }

    /// Takes the oldest message off a queue.
    pub fn consume(&mut self, queue_name: &str, now: u128) -> (r: Option<
        (String, EncryptedInputData),
    >)
        requires
            old(self).wf(),
        ensures
            final(self).wf(),
            final(self)@ == old(self)@.consumed(queue_name@, now),
            r is Some <==> old(self)@.queues.contains_key(queue_name@)
                && old(self)@.queues[queue_name@].len() > 0,
            r matches Some(m) ==> m.deep_view() == old(self)@.queues[queue_name@][0],
    {
        let name = queue_name.to_owned();
        let taken: Option<(String, EncryptedInputData)> = match self.queues.get_mut(&name) {
            Some(queue) => {
                let ghost held = queue.deep_view();
                let front = queue.pop_front();
                proof {
                    if held.len() > 0 {
                        assert(queue.deep_view() =~= held.skip(1));
                        assert(front->Some_0.deep_view() == held[0]);
                    } else {
                        assert(queue.deep_view() =~= held);
                    }
                }
                front
            },
            None => None,
        };
        proof {
            lemma_grown_sound(old(self)@, self@);
            if taken is None {
                assert(self@ =~= old(self)@);
            }
        }
        match taken {
            Some(entry) => {
                self.note_delivery(&entry.0, now);
                Some(entry)
            },
            None => None,
        }
    }

    /// Drops a message from every queue that holds it, all of which are recorded,
    /// and stops tracking it.
    fn forget(&mut self, id: &String)
        requires
            old(self).wf(),
        ensures
            final(self).wf(),
            final(self)@ == old(self)@.purged(set![id@]),
    {
        let names: Vec<String> = match self.message_queues.get(id) {
            Some(set) => set.list(),
            None => Vec::new(),
        };
        let ghost all = names.deep_view();
        let ghost ids = set![id@];
        let mut i: usize = 0;
        proof {
            lemma_purged_sound(old(self)@, ids);
            assert(self.queues@ =~= old(self)@.purged_in(id@, all.take(0)));
            assert(all.to_set() =~= Set::new(|q: Seq<char>| old(self)@.recorded(id@, q)));
        }
        while i < names.len()
            invariant
                self.queues.wf(),
                self.message_queues.wf(),
                self.bindings.wf(),
                self.exchanges.wf(),
                self.consumers.wf(),
                self.message_status.wf(),
                i <= names@.len(),
                all == names.deep_view(),
                all.no_duplicates(),
                self@ == (StateModel {
                    queues: old(self)@.purged_in(id@, all.take(i as int)),
                    ..old(self)@
                }),
            decreases names@.len() - i,
        {
            let ghost name = all[i as int];
            let ghost p = |e: QueuedModel| e.0 != id@;
            proof {
                assert(names@[i as int]@ == name);
                assert(!all.take(i as int).contains(name)) by {
                    if all.take(i as int).contains(name) {
                        let j = choose|j: int| 0 <= j < i && all.take(i as int)[j] == name;
                        assert(all[j] == all[i as int]);
                    }
                }
                assert(all.take(i + 1) =~= all.take(i as int).push(name));
                lemma_to_set_push(all.take(i as int), name);
                assert forall|q: Seq<char>| #[trigger] all.take(i + 1).contains(q) <==> all.take(
                    i as int,
                ).contains(q) || q == name by {
                    assert(all.take(i + 1).to_set().contains(q) <==> all.take(i + 1).contains(q));
                    assert(all.take(i as int).to_set().contains(q) <==> all.take(i as int).contains(q));
                }
            }
            match self.queues.get_mut(&names[i]) {
                Some(queue) => {
                    drop_message(queue, id, Ghost(p));
                },
                None => {},
            }
            i = i + 1;
            assert(self.queues@ =~= old(self)@.purged_in(id@, all.take(i as int)));
        }
        let _ = self.message_queues.remove(id);
        let _ = self.message_status.remove(id);
        proof {
            assert(all.take(all.len() as int) =~= all);
            let after = old(self)@.purged(ids);
            assert forall|q: Seq<char>| #[trigger] self.queues@.contains_key(q) implies self.queues@[q]
                == after.queues[q] by {
                assert(all.to_set().contains(q) <==> all.contains(q));
                let held = old(self)@.queues[q];
                let p = |e: QueuedModel| !ids.contains(e.0);
                if all.contains(q) {
                    lemma_filter_agree(held, |e: QueuedModel| e.0 != id@, p);
                } else {
                    assert forall|i: int| 0 <= i < held.len() implies p(#[trigger] held[i]) by {
                        assert(old(self)@.recorded(old(self)@.queues[q][i].0, q));
                    }
                    lemma_filter_all(held, p);
                }
            }
            assert(self.queues@ =~= after.queues);
            assert(self.message_queues@ =~= after.message_queues);
            assert(self.message_status@ =~= after.message_status);
        }
    }

    /// Ends the life of a message that its receiver has acknowledged, and tells
    /// whether it was known.
    pub fn acknowledge(&mut self, message_id: &str) -> (r: bool)
        requires
            old(self).wf(),
        ensures
            final(self).wf(),
            r == old(self)@.message_status.contains_key(message_id@),
            final(self)@ == old(self)@.acked(message_id@),
    {
        let id = message_id.to_owned();
        if !self.message_status.contains_key(&id) {
            return false;
        }
        self.forget(&id);
        true
    }

    /// Ends the life of the messages that were delivered more than `max_age`
    /// ago and never acknowledged, and lists them.
    pub fn cleanup_old_messages(&mut self, now: u128, max_age: u128) -> (r: Vec<String>)
        requires
            old(self).wf(),
        ensures
            final(self).wf(),
            r.deep_view().no_duplicates(),
            r.deep_view().to_set() == old(self)@.expired(now, max_age),
            final(self)@ == old(self)@.purged(old(self)@.expired(now, max_age)),
    {
        let expired = self.expired_messages(now, max_age);
        let ghost all = expired.deep_view();
        let mut i: usize = 0;
        proof {
            assert(all.take(0).to_set() =~= Set::<Seq<char>>::empty());
            lemma_purged_none(self@);
        }
        while i < expired.len()
            invariant
                self.wf(),
                i <= expired@.len(),
                all == expired.deep_view(),
                all.no_duplicates(),
                self@ == old(self)@.purged(all.take(i as int).to_set()),
            decreases expired@.len() - i,
        {
            proof {
                let done = all.take(i as int);
                let id = all[i as int];
                assert(expired@[i as int]@ == id);
                assert(!done.to_set().contains(id)) by {
                    if done.contains(id) {
                        let j = choose|j: int| 0 <= j < done.len() && done[j] == id;
                        assert(all[j] == all[i as int]);
                    }
                }
                lemma_purged_one_more(old(self)@, done.to_set(), id);
                lemma_to_set_push(done, id);
                assert(all.take(i + 1) =~= done.push(id));
            }
            self.forget(&expired[i]);
            i = i + 1;
        }
        assert(all.take(all.len() as int) =~= all);
        expired
    }

    fn expired_messages(&self, now: u128, max_age: u128) -> (r: Vec<String>)
        requires
            self.wf(),
        ensures
            r.deep_view().no_duplicates(),
            r.deep_view().to_set() == self@.expired(now, max_age),
    {
        let ghost order = self.message_status.order();
        let ghost p = |id: Seq<char>| is_expired(self@.message_status[id], now, max_age);
        proof {
            self.message_status.lemma_order();
            lemma_filter_no_duplicates(order, p);
            lemma_filter_members(order, p);
        }
        let mut out: Vec<String> = Vec::new();
        let mut i: usize = 0;
        assert(out.deep_view() =~= order.take(0).filter(p));
        while i < self.message_status.len()
            invariant
                self.wf(),
                order == self.message_status.order(),
                p == (|id: Seq<char>| is_expired(self@.message_status[id], now, max_age)),
                i <= order.len(),
                out.deep_view() == order.take(i as int).filter(p),
            decreases order.len() - i,
        {
            let ghost before = out.deep_view();
            let status = self.message_status.value_at(i);
            proof {
                lemma_filter_push(order.take(i as int), order[i as int], p);
                assert(order.take(i + 1) =~= order.take(i as int).push(order[i as int]));
            }
            if let Some(delivered_time) = status.delivered_time {
                if now > delivered_time && now - delivered_time > max_age
                    && status.acknowledged_time.is_none() {
                    out.push(self.message_status.key_at(i).clone());
                    assert(out.deep_view() =~= before.push(order[i as int]));
                }
            }
            i = i + 1;
        }
        proof {
            assert(order.take(order.len() as int) =~= order);
            assert(order.filter(p).to_set() =~= self@.expired(now, max_age));
        }
        out
    }

    /// Counts a client that connected.
    pub fn increment_client_count(&mut self)
        requires
            old(self).wf(),
        ensures
            final(self).wf(),
            final(self)@ == (StateModel {
                connected_clients: counted_up(old(self)@.connected_clients),
                ..old(self)@
            }),
    {
        self.connected_clients = self.connected_clients.wrapping_add(1);
        proof {
            lemma_grown_sound(old(self)@, self@);
        }
    }

    /// Counts a client that left.
    pub fn decrement_client_count(&mut self)
        requires
            old(self).wf(),
        ensures
            final(self).wf(),
            final(self)@ == (StateModel {
                connected_clients: counted_down(old(self)@.connected_clients),
                ..old(self)@
            }),
    {
        self.connected_clients = self.connected_clients.wrapping_sub(1);
        proof {
            lemma_grown_sound(old(self)@, self@);
        }
    }

    /// How many clients are connected.
    pub fn get_client_count(&self) -> (r: usize)
        ensures
            r == self@.connected_clients,
    {
        self.connected_clients
    }

    /// The names of all queues, each with how many messages and consumers it has.
    pub fn queue_status(&self) -> (r: Vec<(String, usize, usize)>)
        requires
            self.wf(),
        ensures
            forall|i: int, j: int| 0 <= i < j < r@.len() ==> r@[i].0@ != r@[j].0@,
            forall|q: Seq<char>| #[trigger]
                self@.queues.contains_key(q) <==> exists|i: int|
                    0 <= i < r@.len() && (#[trigger] r@[i]).0@ == q,
            forall|i: int|
                0 <= i < r@.len() ==> (#[trigger] r@[i]).1 == self@.queues[r@[i].0@].len() && r@[i].2
                    == self@.consumers_of(r@[i].0@).len(),
    {
        let mut out: Vec<(String, usize, usize)> = Vec::new();
        let mut i: usize = 0;
        let ghost order = self.queues.order();
        proof {
            self.queues.lemma_order();
        }
        while i < self.queues.len()
            invariant
                self.wf(),
                order == self.queues.order(),
                i <= order.len(),
                out@.len() == i,
                forall|j: int|
                    0 <= j < i ==> (#[trigger] out@[j]).0@ == order[j] && out@[j].1
                        == self@.queues[order[j]].len() && out@[j].2 == self@.consumers_of(
                        order[j],
                    ).len(),
            decreases order.len() - i,
        {
            let queue = self.queues.value_at(i);
            let name = self.queues.key_at(i);
            assert(queue.deep_view().len() == queue@.len());
            let consumers: usize = match self.consumers.get(name) {
                Some(ids) => {
                    assert(ids.deep_view().len() == ids@.len());
                    ids.len()
                },
                None => 0,
            };
            out.push((name.clone(), queue.len(), consumers));
            i = i + 1;
        }
        proof {
            assert forall|q: Seq<char>| #[trigger] self@.queues.contains_key(q) <==> exists|i: int|
                0 <= i < out@.len() && (#[trigger] out@[i]).0@ == q by {
                if self@.queues.contains_key(q) {
                    assert(order.contains(q));
                    let k = choose|k: int| 0 <= k < order.len() && order[k] == q;
                    assert(out@[k].0@ == q);
                }
                if exists|i: int| 0 <= i < out@.len() && (#[trigger] out@[i]).0@ == q {
                    let k = choose|k: int| 0 <= k < out@.len() && (#[trigger] out@[k]).0@ == q;
                    assert(order[k] == q);
                }
            }
        }
        out
    }

    /// All bindings: each exchange with its queues and routing keys, in the order
    /// in which they were bound.
    pub fn binding_list(&self) -> (r: Vec<(String, String, String)>)
        requires
            self.wf(),
        ensures
            exists|order: Seq<Seq<char>>| #[trigger]
                order.no_duplicates() && order.to_set() == self@.bindings.dom() && r.deep_view()
                    == listed_bindings(self@, order),
    {
        let mut out: Vec<(String, String, String)> = Vec::new();
        let mut i: usize = 0;
        let ghost order = self.bindings.order();
        proof {
            self.bindings.lemma_order();
        }
        assert(out.deep_view() =~= listed_bindings(self@, order.take(0)));
        while i < self.bindings.len()
            invariant
                self.wf(),
                order == self.bindings.order(),
                i <= order.len(),
                out.deep_view() == listed_bindings(self@, order.take(i as int)),
            decreases order.len() - i,
        {
            let exchange = self.bindings.key_at(i);
            let bindings = self.bindings.value_at(i);
            let ghost before = out.deep_view();
            let ghost all = bindings.deep_view();
            let mut j: usize = 0;
            assert(out.deep_view() =~= before + of_exchange(exchange@, all.take(0)));
            while j < bindings.len()
                invariant
                    j <= bindings@.len(),
                    all == bindings.deep_view(),
                    out.deep_view() == before + of_exchange(exchange@, all.take(j as int)),
                decreases bindings@.len() - j,
            {
                let ghost was = out.deep_view();
                let queue = bindings[j].0.clone();
                let key = bindings[j].1.clone();
                out.push((exchange.clone(), queue, key));
                proof {
                    assert(bindings@[j as int].deep_view() == all[j as int]);
                    assert(out.deep_view() =~= was.push((exchange@, all[j as int].0, all[j as int].1)));
                    assert(of_exchange(exchange@, all.take(j + 1)) =~= of_exchange(
                        exchange@,
                        all.take(j as int),
                    ).push((exchange@, all[j as int].0, all[j as int].1)));
                }
                j = j + 1;
            }
            assert(all.take(all.len() as int) =~= all);
            assert(order.take(i + 1).drop_last() =~= order.take(i as int));
            i = i + 1;
        }
        assert(order.take(order.len() as int) =~= order);
        assert(order.no_duplicates());
        out
    }

    /// The names of all exchanges.
    pub fn exchange_list(&self) -> (r: Vec<String>)
        requires
            self.wf(),
        ensures
            r.deep_view().no_duplicates(),
            r.deep_view().to_set() == self@.exchanges,
    {
        self.exchanges.keys()
    }

    /// How many messages all queues hold.
    pub fn total_messages(&self) -> (r: usize)
        requires
            self.wf(),
        ensures
            r == fitted(total(self@.queue_sizes())),
    {
        let ghost order = self.queues.order();
        let ghost numbers = Seq::new(order.len(), |i: int| self@.queue_sizes()[order[i]]);
        let mut sum_so_far: usize = 0;
        let mut i: usize = 0;
        proof {
            self.queues.lemma_order();
            assert(self@.queue_sizes().dom() =~= self@.queues.dom());
            lemma_total_is_sum(self@.queue_sizes(), order);
        }
        while i < self.queues.len()
            invariant
                self.wf(),
                order == self.queues.order(),
                numbers == Seq::new(order.len(), |i: int| self@.queue_sizes()[order[i]]),
                i <= order.len(),
                sum_so_far == fitted(sum(numbers.take(i as int))),
            decreases order.len() - i,
        {
            let queue = self.queues.value_at(i);
            proof {
                assert(queue.deep_view().len() == queue@.len());
                assert(numbers.take(i + 1).drop_last() =~= numbers.take(i as int));
                assert(numbers.take(i + 1).last() == queue@.len());
            }
            sum_so_far = add_fitted(sum_so_far, queue.len(), Ghost(sum(numbers.take(i as int))));
            i = i + 1;
        }
        assert(numbers.take(numbers.len() as int) =~= numbers);
        sum_so_far
    }

    /// How many consumers all queues have.
    pub fn total_consumers(&self) -> (r: usize)
        requires
            self.wf(),
        ensures
            r == fitted(total(self@.consumer_counts())),
    {
        let ghost order = self.consumers.order();
        let ghost numbers = Seq::new(order.len(), |i: int| self@.consumer_counts()[order[i]]);
        let mut sum_so_far: usize = 0;
        let mut i: usize = 0;
        proof {
            self.consumers.lemma_order();
            assert(self@.consumer_counts().dom() =~= self@.consumers.dom());
            lemma_total_is_sum(self@.consumer_counts(), order);
        }
        while i < self.consumers.len()
            invariant
                self.wf(),
                order == self.consumers.order(),
                numbers == Seq::new(order.len(), |i: int| self@.consumer_counts()[order[i]]),
                i <= order.len(),
                sum_so_far == fitted(sum(numbers.take(i as int))),
            decreases order.len() - i,
        {
            let ids = self.consumers.value_at(i);
            proof {
                assert(ids.deep_view().len() == ids@.len());
                assert(numbers.take(i + 1).drop_last() =~= numbers.take(i as int));
                assert(numbers.take(i + 1).last() == ids@.len());
            }
            sum_so_far = add_fitted(sum_so_far, ids.len(), Ghost(sum(numbers.take(i as int))));
            i = i + 1;
        }
        assert(numbers.take(numbers.len() as int) =~= numbers);
        sum_so_far
    }

    /// The sizes of the tables.
    pub fn snapshot(&self) -> (r: ServerSnapshot)
        requires
            self.wf(),
        ensures
            r.connected_clients == self@.connected_clients,
            r.queue_count == self@.queues.dom().len(),
            r.total_messages == fitted(total(self@.queue_sizes())),
            r.consumer_count == fitted(total(self@.consumer_counts())),
    {
        ServerSnapshot {
            connected_clients: self.connected_clients,
            queue_count: self.queues.len(),
            total_messages: self.total_messages(),
            consumer_count: self.total_consumers(),
        }
    }

    /// How many messages a queue may hold.
    pub fn max_queue_size(&self) -> (r: usize)
        ensures
            r == self@.max_queue_size,
    {
        self.max_queue_size
    }
}

} // verus!
