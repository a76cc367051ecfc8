//! The state of the broker without roles.

use crate::directory::Directory;
use crate::seqs::{lemma_filter_members, lemma_filter_push, lemma_to_set_push};
use crate::state::{
    copied, duplicate_text, open_ids, queues_bound, unbound_text, MessageStatus,
};
use crate::state_model::{
    bound_queues, duplicate_error, metadata_error, still_open, unbound_error,
};
use crate::storage::MessageMetadata;
use crate::text::prefixed;
use vstd::prelude::*;
use vstd::string::*;

verus! {

/// An encrypted message whose authentication tag is kept apart.
pub struct EncryptedInputData {
    pub message_id: String,
    pub receiver_client_id: String,
    pub enc_session_key: String,
    pub nonce: String,
    pub tag: String,
    pub ciphertext: String,
}

/// The texts of an encrypted message.
pub struct MessageModel {
    pub message_id: Seq<char>,
    pub receiver_client_id: Seq<char>,
    pub enc_session_key: Seq<char>,
    pub nonce: Seq<char>,
    pub tag: Seq<char>,
    pub ciphertext: Seq<char>,
}

impl DeepView for EncryptedInputData {
    type V = MessageModel;

    open spec fn deep_view(&self) -> MessageModel {
        MessageModel {
            message_id: self.message_id@,
            receiver_client_id: self.receiver_client_id@,
            enc_session_key: self.enc_session_key@,
            nonce: self.nonce@,
            tag: self.tag@,
            ciphertext: self.ciphertext@,
        }
    }
}

impl Clone for EncryptedInputData {
    fn clone(&self) -> (r: Self)
        ensures
            r.deep_view() == self.deep_view(),
    {
        EncryptedInputData {
            message_id: self.message_id.clone(),
            receiver_client_id: self.receiver_client_id.clone(),
            enc_session_key: self.enc_session_key.clone(),
            nonce: self.nonce.clone(),
            tag: self.tag.clone(),
            ciphertext: self.ciphertext.clone(),
        }
    }
}

/// A queued message under its identifier.
pub type QueuedModel = (Seq<char>, MessageModel);

/// The state as mathematical values.
#[verifier::ext_equal]
pub struct StateModel {
    pub queues: Map<Seq<char>, Seq<QueuedModel>>,
    pub bindings: Map<Seq<char>, Seq<(Seq<char>, Seq<char>)>>,
    pub exchanges: Set<Seq<char>>,
    pub consumers: Map<Seq<char>, Seq<u64>>,
    pub message_status: Map<Seq<char>, MessageStatus>,
    pub connected_clients: usize,
}

/// Which entries of a queue are not a message's.
pub open spec fn is_other(id: Seq<char>) -> spec_fn(QueuedModel) -> bool {
    |e: QueuedModel| e.0 != id
}

impl StateModel {
    /// The bindings of an exchange, in the order in which they were made.
    pub open spec fn bindings_of(self, exchange: Seq<char>) -> Seq<(Seq<char>, Seq<char>)> {
        if self.bindings.contains_key(exchange) {
            self.bindings[exchange]
        } else {
            Seq::empty()
        }
    }

    /// The consumers of a queue.
    pub open spec fn consumers_of(self, queue: Seq<char>) -> Seq<u64> {
        if self.consumers.contains_key(queue) {
            self.consumers[queue]
        } else {
            Seq::empty()
        }
    }

    /// The queues that a routing key leads to; one that was bound twice comes
    /// twice.
    pub open spec fn targets(self, exchange: Seq<char>, routing_key: Seq<char>) -> Seq<Seq<char>> {
        bound_queues(self.bindings_of(exchange), routing_key)
    }

    /// With a queue.
    pub open spec fn with_queue(self, queue: Seq<char>) -> StateModel {
        if self.queues.contains_key(queue) {
            self
        } else {
            StateModel { queues: self.queues.insert(queue, Seq::empty()), ..self }
        }
    }

    /// With an exchange.
    pub open spec fn with_exchange(self, exchange: Seq<char>) -> StateModel {
        StateModel { exchanges: self.exchanges.insert(exchange), ..self }
    }

    /// With a queue bound to an exchange, where both exist.
    pub open spec fn with_binding(
        self,
        queue: Seq<char>,
        exchange: Seq<char>,
        routing_key: Seq<char>,
    ) -> StateModel {
        if self.queues.contains_key(queue) && self.exchanges.contains(exchange) {
            StateModel {
                bindings: self.bindings.insert(
                    exchange,
                    self.bindings_of(exchange).push((queue, routing_key)),
                ),
                ..self
            }
        } else {
            self
        }
    }

    /// With a message at the end of a queue, where that exists.
    pub open spec fn enqueued(self, queue: Seq<char>, entry: QueuedModel) -> StateModel {
        if self.queues.contains_key(queue) {
            StateModel {
                queues: self.queues.insert(queue, self.queues[queue].push(entry)),
                ..self
            }
        } else {
            self
        }
    }

    /// With a message at the end of several queues, one after the other.
    pub open spec fn enqueued_all(self, names: Seq<Seq<char>>, entry: QueuedModel) -> StateModel
        decreases names.len(),
    {
        if names.len() == 0 {
            self
        } else {
            self.enqueued_all(names.drop_last(), entry).enqueued(names.last(), entry)
        }
    }

    /// After a message was put into the queues bound under a routing key.
    pub open spec fn published(
        self,
        exchange: Seq<char>,
        routing_key: Seq<char>,
        message: MessageModel,
        received: u128,
    ) -> StateModel {
        let filled = self.enqueued_all(
            self.targets(exchange, routing_key),
            (message.message_id, message),
        );
        StateModel {
            message_status: filled.message_status.insert(
                message.message_id,
                MessageStatus::spec_sent(received),
            ),
            ..filled
        }
    }

    /// The consumers to tell of a message in some queues.
    pub open spec fn notices(self, names: Seq<Seq<char>>) -> Seq<(Seq<char>, Seq<u64>)>
        decreases names.len(),
    {
        if names.len() == 0 {
            Seq::empty()
        } else {
            let before = self.notices(names.drop_last());
            let name = names.last();
            if self.queues.contains_key(name) && self.consumers.contains_key(name) {
                before.push((name, self.consumers[name]))
            } else {
                before
            }
        }
    }

    /// With a consumer of a queue.
    pub open spec fn with_consumer(self, queue: Seq<char>, consumer: u64) -> StateModel {
        let declared = self.with_queue(queue);
        StateModel {
            consumers: declared.consumers.insert(queue, self.consumers_of(queue).push(consumer)),
            ..declared
        }
    }

    /// After a message was delivered.
    pub open spec fn delivered(self, id: Seq<char>, now: u128) -> StateModel {
        if self.message_status.contains_key(id) {
            StateModel {
                message_status: self.message_status.insert(
                    id,
                    MessageStatus { delivered_time: Some(now), ..self.message_status[id] },
                ),
                ..self
            }
        } else {
            self
        }
    }

    /// After the oldest message left a queue.
    pub open spec fn consumed(self, queue: Seq<char>, now: u128) -> StateModel {
        if self.queues.contains_key(queue) && self.queues[queue].len() > 0 {
            StateModel {
                queues: self.queues.insert(queue, self.queues[queue].skip(1)),
                ..self
            }.delivered(self.queues[queue][0].0, now)
        } else {
            self
        }
    }

    /// After an acknowledgement.
    pub open spec fn acked(self, id: Seq<char>) -> StateModel {
        if self.message_status.contains_key(id) {
            StateModel {
                queues: self.queues.map_values(
                    |held: Seq<QueuedModel>| held.filter(is_other(id)),
                ),
                message_status: self.message_status.remove(id),
                ..self
            }
        } else {
            self
        }
    }

    spec fn queues_without(self, id: Seq<char>, names: Seq<Seq<char>>) -> Map<
        Seq<char>,
        Seq<QueuedModel>,
    > {
        self.queues.map_entries(
            |name: Seq<char>, held: Seq<QueuedModel>|
                if names.contains(name) {
                    held.filter(is_other(id))
                } else {
                    held
                },
        )
    }
}

/// The state of the broker.
pub struct ServerState {
    queues: Directory<String, Vec<(String, EncryptedInputData)>>,
    bindings: Directory<String, Vec<(String, String)>>,
    exchanges: Directory<String, ()>,
    consumers: Directory<String, Vec<u64>>,
    message_status: Directory<String, MessageStatus>,
    connected_clients: usize,
}

impl View for ServerState {
    type V = StateModel;

    closed spec fn view(&self) -> StateModel {
        StateModel {
            queues: self.queues@,
            bindings: self.bindings@,
            exchanges: self.exchanges@.dom(),
            consumers: self.consumers@,
            message_status: self.message_status@,
            connected_clients: self.connected_clients,
        }
    }
}

/// Drops the entries of one message from a queue.
fn drop_message(queue: &mut Vec<(String, EncryptedInputData)>, id: &String)
    ensures
        final(queue).deep_view() == old(queue).deep_view().filter(is_other(id@)),
{
    let ghost p = is_other(id@);
    let ghost all = queue.deep_view();
    let mut kept: Vec<(String, EncryptedInputData)> = Vec::new();
    let mut i: usize = 0;
    assert(kept.deep_view() =~= all.take(0).filter(p));
    while i < queue.len()
        invariant
            i <= queue@.len(),
            queue == old(queue),
            p == is_other(id@),
            all == queue.deep_view(),
            kept.deep_view() == all.take(i as int).filter(p),
        decreases queue@.len() - i,
    {
        let ghost before = kept.deep_view();
        let entry = &queue[i];
        proof {
            assert(entry.deep_view() == all[i as int]);
            lemma_filter_push(all.take(i as int), all[i as int], p);
            assert(all.take(i + 1) =~= all.take(i as int).push(all[i as int]));
        }
        if entry.0 != *id {
            kept.push((entry.0.clone(), entry.1.clone()));
            assert(kept.deep_view() =~= before.push(all[i as int]));
        }
        i = i + 1;
    }
    assert(all.take(all.len() as int) =~= all);
    *queue = kept;
}

impl ServerState {
    /// The tables are well-formed.
    pub closed spec fn wf(&self) -> bool {
        &&& self.queues.wf()
        &&& self.bindings.wf()
        &&& self.exchanges.wf()
        &&& self.consumers.wf()
        &&& self.message_status.wf()
    }

    /// A state without queues, exchanges, consumers and messages.
    pub fn new() -> (r: Self)
        ensures
            r.wf(),
            r@ == (StateModel {
                queues: Map::empty(),
                bindings: Map::empty(),
                exchanges: Set::empty(),
                consumers: Map::empty(),
                message_status: Map::empty(),
                connected_clients: 0,
            }),
    {
        let r = ServerState {
            queues: Directory::new(),
            bindings: Directory::new(),
            exchanges: Directory::new(),
            consumers: Directory::new(),
            message_status: Directory::new(),
            connected_clients: 0,
        };
        assert(r@.exchanges =~= Set::<Seq<char>>::empty());
        r
    }

    /// Makes sure that a queue exists.
    pub fn declare_queue(&mut self, queue_name: &str)
        requires
            old(self).wf(),
        ensures
            final(self).wf(),
            final(self)@ == old(self)@.with_queue(queue_name@),
    {
        let name = queue_name.to_owned();
        if !self.queues.contains_key(&name) {
            let none: Vec<(String, EncryptedInputData)> = Vec::new();
            assert(none.deep_view() =~= Seq::<QueuedModel>::empty());
            self.queues.insert(name, none);
        }
    }

    /// Makes sure that an exchange exists.
    pub fn declare_exchange(&mut self, exchange_name: &str)
        requires
            old(self).wf(),
        ensures
            final(self).wf(),
            final(self)@ == old(self)@.with_exchange(exchange_name@),
    {
        let name = exchange_name.to_owned();
        if !self.exchanges.contains_key(&name) {
            self.exchanges.insert(name, ());
        }
        assert(self@.exchanges =~= old(self)@.exchanges.insert(exchange_name@));
    }

    /// Binds a queue to an exchange under a routing key, where both exist.
    pub fn bind_queue(&mut self, queue_name: &str, exchange_name: &str, routing_key: &str)
        requires
            old(self).wf(),
        ensures
            final(self).wf(),
            final(self)@ == old(self)@.with_binding(queue_name@, exchange_name@, routing_key@),
    {
        let queue = queue_name.to_owned();
        let exchange = exchange_name.to_owned();
        let key = routing_key.to_owned();
        if self.queues.contains_key(&queue) && self.exchanges.contains_key(&exchange) {
            let ghost bound = self@.bindings_of(exchange@);
            match self.bindings.get_mut(&exchange) {
                Some(bindings) => {
                    bindings.push((queue, key));
                    assert(bindings.deep_view() =~= bound.push((queue@, key@)));
                },
                None => {
                    let first: Vec<(String, String)> = vec![(queue, key)];
                    assert(first.deep_view() =~= bound.push((queue@, key@)));
                    self.bindings.insert(exchange, first);
                },
            }
        }
    }

    /// Describes a message for the database, unless its identifier is in use.
    pub fn publish_metadata(
        &self,
        exchange_name: &str,
        routing_key: &str,
        message: &EncryptedInputData,
        client_id: &str,
        sent_time: String,
    ) -> (r: Result<MessageMetadata, String>)
        requires
            self.wf(),
        ensures
            r is Ok <==> !self@.message_status.contains_key(message.message_id@),
            r matches Err(e) ==> e@ == duplicate_error(message.message_id@),
            r matches Ok(m) ==> {
                &&& m.message_id@ == message.message_id@
                &&& m.client_id@ == client_id@
                &&& m.exchange_name@ == exchange_name@
                &&& m.routing_key@ == routing_key@
                &&& m.sent_time == Some(sent_time)
                &&& m.delivered_time is None
                &&& m.acknowledged_time is None
            },
    {
        if self.message_status.contains_key(&message.message_id) {
            return Err(duplicate_text(message.message_id.as_str()));
        }
        Ok(
            MessageMetadata {
                message_id: message.message_id.clone(),
                client_id: client_id.to_owned(),
                exchange_name: exchange_name.to_owned(),
                routing_key: routing_key.to_owned(),
                sent_time: Some(sent_time),
                delivered_time: None,
                acknowledged_time: None,
            },
        )
    }

    fn enqueue(&mut self, queue_name: &String, message: &EncryptedInputData)
        requires
            old(self).wf(),
        ensures
            final(self).wf(),
            final(self)@ == old(self)@.enqueued(
                queue_name@,
                (message.message_id@, message.deep_view()),
            ),
    {
        match self.queues.get_mut(queue_name) {
            Some(queue) => {
                let ghost held = queue.deep_view();
                queue.push((message.message_id.clone(), message.clone()));
                assert(queue.deep_view() =~= held.push((message.message_id@, message.deep_view())));
            },
            None => {},
        }
        proof {
            if !old(self)@.queues.contains_key(queue_name@) {
                assert(self@ =~= old(self)@);
            }
        }
    }

    /// Puts a message into every queue bound to the exchange under the routing
    /// key, and tells which consumers are to be sent it. `saved` says how
    /// storing its metadata went.
    pub fn publish(
        &mut self,
        exchange_name: &str,
        routing_key: &str,
        message: EncryptedInputData,
        received_time: u128,
        saved: Result<(), String>,
    ) -> (r: Result<Vec<(String, Vec<u64>)>, String>)
        requires
            old(self).wf(),
        ensures
            final(self).wf(),
            if old(self)@.message_status.contains_key(message.message_id@) {
                &&& r matches Err(e) && e@ == duplicate_error(message.message_id@)
                &&& final(self)@ == old(self)@
            } else if saved is Err {
                &&& r matches Err(e) && e@ == metadata_error(saved->Err_0@)
                &&& final(self)@ == old(self)@
            } else if old(self)@.targets(exchange_name@, routing_key@).len() == 0 {
                &&& r matches Err(e) && e@ == unbound_error(exchange_name@, routing_key@)
                &&& final(self)@ == old(self)@
            } else {
                &&& r matches Ok(n) && n.deep_view() == old(self)@.notices(
                    old(self)@.targets(exchange_name@, routing_key@),
                )
                &&& final(self)@ == old(self)@.published(
                    exchange_name@,
                    routing_key@,
                    message.deep_view(),
                    received_time,
                )
            },
    {
        if self.message_status.contains_key(&message.message_id) {
            return Err(duplicate_text(message.message_id.as_str()));
        }
        if let Err(cause) = saved {
            return Err(prefixed("Failed to save metadata: ", cause.as_str()));
        }
        let names: Vec<String> = match self.bindings.get(&exchange_name.to_owned()) {
            Some(bindings) => queues_bound(bindings, routing_key),
            None => Vec::new(),
        };
        let ghost targets = names.deep_view();
        assert(targets =~= self@.targets(exchange_name@, routing_key@));
        if names.len() == 0 {
            return Err(unbound_text(exchange_name, routing_key));
        }
        let ghost entry: QueuedModel = (message.message_id@, message.deep_view());
        let out = self.notices_for(&names);
        let mut i: usize = 0;
        assert(targets.take(0) =~= Seq::<Seq<char>>::empty());
        while i < names.len()
            invariant
                self.wf(),
                i <= names@.len(),
                targets == names.deep_view(),
                entry == (message.message_id@, message.deep_view()),
                self@ == old(self)@.enqueued_all(targets.take(i as int), entry),
            decreases names@.len() - i,
        {
            proof {
                assert(targets[i as int] == names@[i as int]@);
                assert(targets.take(i + 1).drop_last() =~= targets.take(i as int));
            }
            self.enqueue(&names[i], &message);
            i = i + 1;
        }
        assert(targets.take(targets.len() as int) =~= targets);
        self.message_status.insert(message.message_id.clone(), MessageStatus::sent(received_time));
        Ok(out)
    }

    fn notices_for(&self, names: &Vec<String>) -> (r: Vec<(String, Vec<u64>)>)
        requires
            self.wf(),
        ensures
            r.deep_view() == self@.notices(names.deep_view()),
    {
        let mut out: Vec<(String, Vec<u64>)> = Vec::new();
        let ghost all = names.deep_view();
        let mut i: usize = 0;
        assert(out.deep_view() =~= self@.notices(all.take(0)));
        while i < names.len()
            invariant
                self.wf(),
                i <= names@.len(),
                all == names.deep_view(),
                out.deep_view() == self@.notices(all.take(i as int)),
            decreases names@.len() - i,
        {
            let ghost before = out.deep_view();
            proof {
                assert(all[i as int] == names@[i as int]@);
                assert(all.take(i + 1).drop_last() =~= all.take(i as int));
            }
            if self.queues.contains_key(&names[i]) {
                if let Some(ids) = self.consumers.get(&names[i]) {
                    let copy = copied(ids);
                    out.push((names[i].clone(), copy));
                    assert(ids.deep_view() =~= ids@);
                    assert(out.deep_view() =~= before.push((all[i as int], copy.deep_view())));
                }
            }
            i = i + 1;
        }
        assert(all.take(all.len() as int) =~= all);
        out
    }

    /// Takes consumers that could not be reached off a queue.
    pub fn drop_consumers(&mut self, queue_name: &str, closed: &Vec<u64>)
        requires
            old(self).wf(),
        ensures
            final(self).wf(),
            final(self)@ == (StateModel {
                consumers: if old(self)@.consumers.contains_key(queue_name@) {
                    old(self)@.consumers.insert(
                        queue_name@,
                        still_open(old(self)@.consumers[queue_name@], closed@),
                    )
                } else {
                    old(self)@.consumers
                },
                ..old(self)@
            }),
    {
        match self.consumers.get_mut(&queue_name.to_owned()) {
            Some(ids) => {
                assert(ids.deep_view() =~= ids@);
                let kept = open_ids(ids, closed);
                assert(kept.deep_view() =~= kept@);
                *ids = kept;
            },
            None => {},
        }
    }

    /// Adds a consumer to a queue, which is declared if need be.
    pub fn register_consumer(&mut self, queue_name: &str, consumer: u64)
        requires
            old(self).wf(),
        ensures
            final(self).wf(),
            final(self)@ == old(self)@.with_consumer(queue_name@, consumer),
    {
        self.declare_queue(queue_name);
        let name = queue_name.to_owned();
        if !self.consumers.contains_key(&name) {
            let none: Vec<u64> = Vec::new();
            assert(none.deep_view() =~= Seq::<u64>::empty());
            self.consumers.insert(name.clone(), none);
        }
        match self.consumers.get_mut(&name) {
            Some(ids) => {
                let ghost before = ids.deep_view();
                ids.push(consumer);
                assert(ids.deep_view() =~= before.push(consumer));
            },
            None => {},
        }
        assert(self@ =~= old(self)@.with_consumer(queue_name@, consumer));
    }

    /// Notes the delivery of a message, and tells whether it is tracked.
    pub fn mark_delivered(&mut self, message_id: &str, now: u128) -> (r: bool)
        requires
            old(self).wf(),
        ensures
            final(self).wf(),
            r == old(self)@.message_status.contains_key(message_id@),
            final(self)@ == old(self)@.delivered(message_id@, now),
    {
        match self.message_status.get_mut(&message_id.to_owned()) {
            Some(status) => {
                status.delivered(now);
                true
            },
            None => {
                assert(self@ =~= old(self)@);
                false
            },
        }
    }

    /// Takes the oldest message off a queue, and tells whether it is tracked.
    pub fn consume(&mut self, queue_name: &str, now: u128) -> (r: Option<
        (String, EncryptedInputData, bool),
    >)
        requires
            old(self).wf(),
        ensures
            final(self).wf(),
            final(self)@ == old(self)@.consumed(queue_name@, now),
            r is Some <==> old(self)@.queues.contains_key(queue_name@)
                && old(self)@.queues[queue_name@].len() > 0,
            r matches Some(m) ==> {
                let first = old(self)@.queues[queue_name@][0];
                &&& (m.0@, m.1.deep_view()) == first
                &&& m.2 == old(self)@.message_status.contains_key(first.0)
            },
    {
        let taken: Option<(String, EncryptedInputData)> = match self.queues.get_mut(
            &queue_name.to_owned(),
        ) {
            Some(queue) => {
                let ghost held = queue.deep_view();
                if queue.len() > 0 {
                    let front = queue.remove(0);
                    proof {
                        assert(queue.deep_view() =~= held.skip(1));
                        assert(front.deep_view() == held[0]);
                    }
                    Some(front)
                } else {
                    None
                }
            },
            None => None,
        };
        match taken {
            Some(entry) => {
                let known: bool = self.mark_delivered(entry.0.as_str(), now);
                Some((entry.0, entry.1, known))
            },
            None => {
                assert(self@ =~= old(self)@);
                None
            },
        }
    }

    /// Ends the life of a message, and tells whether it was known.
    pub fn acknowledge(&mut self, message_id: &str) -> (r: bool)
        requires
            old(self).wf(),
        ensures
            final(self).wf(),
            r == old(self)@.message_status.contains_key(message_id@),
            final(self)@ == old(self)@.acked(message_id@),
    {
        let id = message_id.to_owned();
        if !self.message_status.contains_key(&id) {
            return false;
        }
        let names = self.queues.keys();
        let ghost all = names.deep_view();
        let mut i: usize = 0;
        assert(self.queues@ =~= old(self)@.queues_without(id@, all.take(0)));
        while i < names.len()
            invariant
                self.wf(),
                i <= names@.len(),
                all == names.deep_view(),
                all.no_duplicates(),
                self@ == (StateModel {
                    queues: old(self)@.queues_without(id@, all.take(i as int)),
                    ..old(self)@
                }),
            decreases names@.len() - i,
        {
            let ghost name = all[i as int];
            proof {
                assert(names@[i as int]@ == name);
                assert(!all.take(i as int).contains(name)) by {
                    if all.take(i as int).contains(name) {
                        let j = choose|j: int| 0 <= j < i && all.take(i as int)[j] == name;
                        assert(all[j] == all[i as int]);
                    }
                }
                assert(all.take(i + 1) =~= all.take(i as int).push(name));
                lemma_to_set_push(all.take(i as int), name);
                assert forall|q: Seq<char>| #[trigger] all.take(i + 1).contains(q) <==> all.take(
                    i as int,
                ).contains(q) || q == name by {
                    assert(all.take(i + 1).to_set().contains(q) <==> all.take(i + 1).contains(q));
                    assert(all.take(i as int).to_set().contains(q) <==> all.take(i as int).contains(q));
                }
            }
            match self.queues.get_mut(&names[i]) {
                Some(queue) => {
                    drop_message(queue, &id);
                },
                None => {},
            }
            i = i + 1;
            assert(self.queues@ =~= old(self)@.queues_without(id@, all.take(i as int)));
        }
        let _ = self.message_status.remove(&id);
        proof {
            assert(all.take(all.len() as int) =~= all);
            assert forall|q: Seq<char>| #[trigger] old(self)@.queues.contains_key(q) implies all.contains(
                q,
            ) by {
                assert(all.to_set().contains(q));
            }
            assert(self.queues@ =~= old(self)@.acked(id@).queues);
        }
        true
    }

    /// Counts a client that connected.
    pub fn increment_client_count(&mut self)
        requires
            old(self).wf(),
            old(self)@.connected_clients < usize::MAX,
        ensures
            final(self).wf(),
            final(self)@ == (StateModel {
                connected_clients: (old(self)@.connected_clients + 1) as usize,
                ..old(self)@
            }),
    {
        self.connected_clients = self.connected_clients + 1;
    }

    /// Counts a client that left.
    pub fn decrement_client_count(&mut self)
        requires
            old(self).wf(),
            old(self)@.connected_clients > 0,
        ensures
            final(self).wf(),
            final(self)@ == (StateModel {
                connected_clients: (old(self)@.connected_clients - 1) as usize,
                ..old(self)@
            }),
    {
        self.connected_clients = self.connected_clients - 1;
    }

    /// How many clients are connected.
    pub fn client_count(&self) -> (r: usize)
        ensures
            r == self@.connected_clients,
    {
        self.connected_clients
    }
}

/// An acknowledged message is in no queue and no longer tracked.
pub proof fn law_acknowledged_message_is_gone(
    s: StateModel,
    id: Seq<char>,
    queue: Seq<char>,
    i: int,
)
    requires
        s.message_status.contains_key(id),
        s.acked(id).queues.contains_key(queue),
        0 <= i < s.acked(id).queues[queue].len(),
    ensures
        !s.acked(id).message_status.contains_key(id),
        s.acked(id).queues[queue][i].0 != id,
{
    let held = s.queues[queue];
    lemma_filter_members(held, is_other(id));
    assert(held.filter(is_other(id)).contains(s.acked(id).queues[queue][i]));
}

/// A message that was published is refused when it is published again, until it
/// is acknowledged.
pub proof fn law_published_message_is_a_duplicate_until_acknowledged(
    s: StateModel,
    exchange: Seq<char>,
    key: Seq<char>,
    message: MessageModel,
    received: u128,
)
    ensures
        ({
            let after = s.published(exchange, key, message, received);
            &&& after.message_status.contains_key(message.message_id)
            &&& !after.acked(message.message_id).message_status.contains_key(message.message_id)
        }),
{
}

/// Putting a message into queues drops nothing: every queue begins with what it
/// held before.
pub proof fn law_publish_keeps_queued_messages(
    s: StateModel,
    names: Seq<Seq<char>>,
    entry: QueuedModel,
    queue: Seq<char>,
)
    requires
        s.queues.contains_key(queue),
    ensures
        ({
            let after = s.enqueued_all(names, entry);
            &&& after.queues.contains_key(queue)
            &&& after.queues[queue].len() >= s.queues[queue].len()
            &&& after.queues[queue].take(s.queues[queue].len() as int) == s.queues[queue]
            &&& names.contains(queue) ==> after.queues[queue].last() == entry
        }),
    decreases names.len(),
{
    if names.len() == 0 {
        assert(s.queues[queue].take(s.queues[queue].len() as int) =~= s.queues[queue]);
    } else {
        let rest = names.drop_last();
        let before = s.enqueued_all(rest, entry);
        law_publish_keeps_queued_messages(s, rest, entry, queue);
        let after = s.enqueued_all(names, entry);
        assert(after.queues[queue].take(s.queues[queue].len() as int) =~= before.queues[queue].take(
            s.queues[queue].len() as int,
        ));
        if names.contains(queue) && names.last() != queue {
            let j = choose|j: int| 0 <= j < names.len() && names[j] == queue;
            assert(rest[j] == queue);
        }
    }
}

} // verus!
