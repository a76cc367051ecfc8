//! What the broker does: declarations, publishing, consumers and
//! acknowledgements.

use crate::broker::exchange::{Exchange, ExchangeModel};
use crate::broker::message::{EncryptedInputData, MessageStatus, StatusModel};
use crate::broker::queue::{is_other, Queue, QueueModel};
use crate::broker::state::{EngineModel, SendOutcome, ServerState};
use crate::ids::{fresh_uuid, parse_uuid, uuid_chars, uuid_in};
use crate::seqs::{lemma_filter_members, lemma_to_set_push};
use crate::text::{prefixed, wrapped};
use vstd::prelude::*;
use vstd::string::*;

verus! {

/// A message on its way into the queues that it is bound for. Queues before
/// `next` are done.
pub struct Publication {
    pub message: MessageStatus,
    pub targets: Vec<String>,
    pub next: usize,
}

impl EngineModel {
    /// With a queue.
    pub open spec fn with_queue(self, queue: Seq<char>) -> EngineModel {
        if self.queues.contains_key(queue) {
            self
        } else {
            EngineModel {
                queues: self.queues.insert(
                    queue,
                    QueueModel { name: queue, messages: Seq::empty(), consumers: Seq::empty() },
                ),
                ..self
            }
        }
    }

    /// With an exchange.
    pub open spec fn with_exchange(self, exchange: Seq<char>) -> EngineModel {
        if self.exchanges.contains_key(exchange) {
            self
        } else {
            EngineModel {
                exchanges: self.exchanges.insert(
                    exchange,
                    ExchangeModel { name: exchange, bindings: Map::empty() },
                ),
                ..self
            }
        }
    }

    /// With a queue bound to an exchange, where both exist.
    pub open spec fn with_binding(
        self,
        exchange: Seq<char>,
        queue: Seq<char>,
        routing_key: Seq<char>,
    ) -> EngineModel {
        if self.queues.contains_key(queue) && self.exchanges.contains_key(exchange) {
            EngineModel {
                exchanges: self.exchanges.insert(
                    exchange,
                    self.exchanges[exchange].with_binding(routing_key, queue),
                ),
                ..self
            }
        } else {
            self
        }
    }

    /// Without the oldest message of a queue.
    pub open spec fn without_oldest(self, queue: Seq<char>) -> EngineModel {
        let q = self.queues[queue];
        EngineModel {
            queues: self.queues.insert(queue, QueueModel { messages: q.messages.skip(1), ..q }),
            ..self
        }
    }

    /// The queues that a routing key leads to, or why it leads nowhere.
    pub open spec fn routed(self, exchange: Seq<char>, routing_key: Seq<char>) -> Result<
        Seq<Seq<char>>,
        Seq<char>,
    > {
        if !self.exchanges.contains_key(exchange) {
            Err("Exchange "@ + exchange + " not found"@)
        } else if self.exchanges[exchange].bound(routing_key).len() == 0 {
            Err("No queues bound for routing key "@ + routing_key)
        } else {
            Ok(self.exchanges[exchange].bound(routing_key))
        }
    }

    /// Puts a message into the queues of a list, from some position on, until a
    /// consumer has to be asked: the state, the position and that consumer.
    pub open spec fn run(
        self,
        targets: Seq<Seq<char>>,
        at: int,
        message: StatusModel,
    ) -> (EngineModel, int, Option<u64>)
        decreases targets.len() - at,
    {
        if at >= targets.len() {
            (self, at, None)
        } else if !self.queues.contains_key(targets[at]) {
            self.run(targets, at + 1, message)
        } else if self.queues[targets[at]].consumers.len() == 0 {
            self.filed(targets[at], message).run(targets, at + 1, message)
        } else {
            (
                self.without_next_consumer(targets[at]),
                at,
                Some(self.queues[targets[at]].consumers[0]),
            )
        }
    }

    /// Without a message: not tracked, and in no queue.
    pub open spec fn without_message(self, id: u128) -> EngineModel {
        EngineModel {
            queues: self.queues.map_values(
                |q: QueueModel| QueueModel { messages: q.messages.filter(is_other(id)), ..q },
            ),
            unacknowledged: self.unacknowledged.remove(id),
            ..self
        }
    }

    /// After an acknowledgement.
    pub open spec fn acknowledged(self, id: u128) -> EngineModel {
        if self.unacknowledged.contains_key(id) {
            self.without_message(id)
        } else {
            self
        }
    }

    spec fn queues_without(self, id: u128, names: Seq<Seq<char>>) -> Map<Seq<char>, QueueModel> {
        self.queues.map_entries(
            |name: Seq<char>, q: QueueModel|
                if names.contains(name) {
                    QueueModel { messages: q.messages.filter(is_other(id)), ..q }
                } else {
                    q
                },
        )
    }
}

/// What registering a consumer leads to.
pub enum Registration {
    /// The consumer waits for messages.
    Waiting,
    /// The oldest message is to be offered to the consumer first.
    Offer(MessageStatus),
}

/// Does the broker's work on its state.
pub struct BrokerEngine {
    pub state: ServerState,
}

impl BrokerEngine {
    /// An engine for a state.
    pub fn new(state: ServerState) -> (r: Self)
        ensures
            r.state == state,
    {
        BrokerEngine { state }
    }

    /// Makes sure that a queue exists.
    pub fn declare_queue(&mut self, queue_name: String)
        requires
            old(self).state.wf(),
        ensures
            final(self).state.wf(),
            final(self).state@ == old(self).state@.with_queue(queue_name@),
    {
        if !self.state.queues.contains_key(&queue_name) {
            self.state.queues.insert(queue_name.clone(), Queue::new(queue_name));
        }
    }

    /// Makes sure that an exchange exists.
    pub fn declare_exchange(&mut self, exchange_name: String)
        requires
            old(self).state.wf(),
        ensures
            final(self).state.wf(),
            final(self).state@ == old(self).state@.with_exchange(exchange_name@),
    {
        if !self.state.exchanges.contains_key(&exchange_name) {
            self.state.exchanges.insert(exchange_name.clone(), Exchange::new(exchange_name));
        }
    }

    /// Binds a queue to an exchange under a routing key, where both exist.
    pub fn bind_queue(&mut self, exchange_name: String, queue_name: String, routing_key: String)
        requires
            old(self).state.wf(),
        ensures
            final(self).state.wf(),
            final(self).state@ == old(self).state@.with_binding(
                exchange_name@,
                queue_name@,
                routing_key@,
            ),
    {
        if !self.state.queues.contains_key(&queue_name) {
            return;
        }
        match self.state.exchanges.get_mut(&exchange_name) {
            Some(exchange) => {
                exchange.bind(routing_key, queue_name);
            },
            None => {},
        }
        proof {
            if !old(self).state@.exchanges.contains_key(exchange_name@) {
                assert(self.state@ =~= old(self).state@);
            }
        }
    }

    /// Starts to publish a message under a fresh identifier.
    pub fn publish(
        &self,
        exchange_name: &str,
        routing_key: &str,
        message_data: EncryptedInputData,
        timestamp: i64,
    ) -> (r: Result<Publication, String>)
        requires
            self.state.wf(),
        ensures
            match self.state@.routed(exchange_name@, routing_key@) {
                Err(e) => r matches Err(x) && x@ == e,
                Ok(targets) => r matches Ok(p) && p.next == 0 && p.targets.deep_view() == targets
                    && p.message.data.data@ == message_data.data@ && p.message.timestamp == timestamp
                    && p.message.attempts == 0,
            },
    {
        self.publish_as(exchange_name, routing_key, message_data, timestamp, fresh_uuid())
    }

    /// Starts to publish a message under an identifier.
    pub fn publish_as(
        &self,
        exchange_name: &str,
        routing_key: &str,
        message_data: EncryptedInputData,
        timestamp: i64,
        message_id: u128,
    ) -> (r: Result<Publication, String>)
        requires
            self.state.wf(),
        ensures
            match self.state@.routed(exchange_name@, routing_key@) {
                Err(e) => r matches Err(x) && x@ == e,
                Ok(targets) => r matches Ok(p) && p.next == 0 && p.targets.deep_view() == targets
                    && p.message.deep_view() == (StatusModel {
                    message_id,
                    data: message_data.data@,
                    timestamp,
                    attempts: 0,
                }),
            },
    {
        match self.state.exchanges.get(&exchange_name.to_owned()) {
            None => Err(wrapped("Exchange ", exchange_name, " not found")),
            Some(exchange) => {
                let targets = exchange.queues_for(routing_key);
                assert(targets.deep_view().len() == targets@.len());
                if targets.len() == 0 {
                    return Err(prefixed("No queues bound for routing key ", routing_key));
                }
                let message = MessageStatus { message_id, data: message_data, timestamp, attempts: 0 };
                Ok(Publication { message, targets, next: 0 })
            },
        }
    }

    /// Goes on publishing until a consumer has to be asked, and names it; the
    /// message is to be offered to it.
    pub fn advance(&mut self, publication: &mut Publication) -> (r: Option<u64>)
        requires
            old(self).state.wf(),
            old(publication).next <= old(publication).targets@.len(),
        ensures
            final(self).state.wf(),
            final(publication).message == old(publication).message,
            final(publication).targets == old(publication).targets,
            final(publication).next <= final(publication).targets@.len(),
            r is Some ==> final(publication).next < final(publication).targets@.len(),
            (final(self).state@, final(publication).next as int, r) == old(self).state@.run(
                old(publication).targets.deep_view(),
                old(publication).next as int,
                old(publication).message.deep_view(),
            ),
    {
        let ghost targets = publication.targets.deep_view();
        let ghost message = publication.message.deep_view();
        while publication.next < publication.targets.len()
            invariant
                self.state.wf(),
                publication.message == old(publication).message,
                publication.targets == old(publication).targets,
                publication.next <= publication.targets@.len(),
                targets == publication.targets.deep_view(),
                message == publication.message.deep_view(),
                self.state@.run(targets, publication.next as int, message) == old(self).state@.run(
                    old(publication).targets.deep_view(),
                    old(publication).next as int,
                    old(publication).message.deep_view(),
                ),
            decreases publication.targets@.len() - publication.next,
        {
            let name = publication.targets[publication.next].clone();
            assert(name@ == targets[publication.next as int]);
            if self.state.queues.contains_key(&name) {
                match self.state.take_consumer(name.as_str()) {
                    Some(consumer) => {
                        return Some(consumer);
                    },
                    None => {
                        self.state.file(name.as_str(), &publication.message);
                    },
                }
            }
            publication.next = publication.next + 1;
        }
        None
    }

    /// Takes in how offering the message to a consumer went.
    pub fn settle(&mut self, publication: &mut Publication, consumer: u64, outcome: SendOutcome)
        requires
            old(self).state.wf(),
            old(publication).next < old(publication).targets@.len(),
        ensures
            final(self).state.wf(),
            final(publication).message == old(publication).message,
            final(publication).targets == old(publication).targets,
            final(publication).next == old(publication).next + 1,
            final(self).state@ == old(self).state@.resolved(
                old(publication).targets@[old(publication).next as int]@,
                old(publication).message.deep_view(),
                consumer,
                outcome,
            ),
    {
        assert(publication.next < publication.targets.len());
        let name = publication.targets[publication.next].clone();
        self.state.resolve(name.as_str(), &publication.message, consumer, outcome);
        publication.next = publication.next + 1;
    }

    /// Adds a consumer to a queue. Where a message waits there, it is taken out
    /// to be offered to the consumer first.
    pub fn register_consumer(&mut self, queue_name: &str, consumer: u64) -> (r: Result<
        Registration,
        String,
    >)
        requires
            old(self).state.wf(),
        ensures
            final(self).state.wf(),
            if !old(self).state@.queues.contains_key(queue_name@) {
                &&& r matches Err(e) && e@ == "BrokerEngine: Queue "@ + queue_name@ + " not found"@
                &&& final(self).state@ == old(self).state@
            } else if old(self).state@.queues[queue_name@].messages.len() > 0 {
                &&& r matches Ok(Registration::Offer(m)) && m.deep_view() == old(
                    self,
                ).state@.queues[queue_name@].messages[0]
                &&& final(self).state@ == old(self).state@.without_oldest(queue_name@)
            } else {
                &&& r matches Ok(Registration::Waiting)
                &&& final(self).state@ == old(self).state@.with_consumer(queue_name@, consumer)
            },
    {
        let name = queue_name.to_owned();
        match self.state.queues.get_mut(&name) {
            None => {
                assert(self.state@ =~= old(self).state@);
                Err(wrapped("BrokerEngine: Queue ", queue_name, " not found"))
            },
            Some(queue) => {
                match queue.pop() {
                    Some(message) => Ok(Registration::Offer(message)),
                    None => {
                        queue.consumers.push(consumer);
                        Ok(Registration::Waiting)
                    },
                }
            },
        }
    }

    /// Takes in how offering the oldest message to a new consumer went. A message
    /// that could not be handed over is the oldest again.
    pub fn finish_registration(
        &mut self,
        queue_name: &str,
        consumer: u64,
        message: MessageStatus,
        outcome: SendOutcome,
        error: &str,
    ) -> (r: Result<(), String>)
        requires
            old(self).state.wf(),
            old(self).state@.queues.contains_key(queue_name@),
        ensures
            final(self).state.wf(),
            r is Ok <==> outcome != SendOutcome::Failed,
            r matches Err(e) ==> e@ == "Failed to send initial message to consumer: "@ + error@,
            final(self).state@ == (match outcome {
                SendOutcome::Failed => {
                    let q = old(self).state@.queues[queue_name@];
                    EngineModel {
                        queues: old(self).state@.queues.insert(
                            queue_name@,
                            (QueueModel { messages: seq![message.deep_view()] + q.messages, ..q }),
                        ),
                        ..old(self).state@
                    }
                },
                _ => old(self).state@.resolved(
                    queue_name@,
                    message.deep_view(),
                    consumer,
                    outcome,
                ),
            }),
    {
        if outcome == SendOutcome::Failed {
            match self.state.queues.get_mut(&queue_name.to_owned()) {
                Some(queue) => {
                    queue.push_front(message);
                },
                None => {},
            }
            return Err(prefixed("Failed to send initial message to consumer: ", error));
        }
        self.state.resolve(queue_name, &message, consumer, outcome);
        Ok(())
    }

    /// Takes the oldest message of a queue; it waits for its acknowledgement.
    pub fn fetch_one_message(&mut self, queue_name: &str) -> (r: Option<MessageStatus>)
        requires
            old(self).state.wf(),
        ensures
            final(self).state.wf(),
            if old(self).state@.queues.contains_key(queue_name@) && old(
                self,
            ).state@.queues[queue_name@].messages.len() > 0 {
                let oldest = old(self).state@.queues[queue_name@].messages[0];
                &&& r matches Some(m) && m.deep_view() == oldest
                &&& final(self).state@ == old(self).state@.without_oldest(queue_name@).tracking(
                    queue_name@,
                    oldest,
                )
            } else {
                r is None && final(self).state@ == old(self).state@
            },
    {
        let taken: Option<MessageStatus> = match self.state.queues.get_mut(&queue_name.to_owned()) {
            Some(queue) => queue.pop(),
            None => None,
        };
        match taken {
            Some(message) => {
                self.state.track(queue_name, &message);
                Some(message)
            },
            None => {
                assert(self.state@ =~= old(self).state@);
                None
            },
        }
    }

    /// Ends the life of the message whose identifier stands in a text.
    pub fn acknowledge(&mut self, message_id_str: &str)
        requires
            old(self).state.wf(),
        ensures
            final(self).state.wf(),
            final(self).state@ == (match uuid_in(message_id_str@) {
                Some(id) => old(self).state@.acknowledged(id),
                None => old(self).state@,
            }),
            forall|id: u128|
                message_id_str@ == #[trigger] uuid_chars(id) ==> final(self).state@ == old(
                    self,
                ).state@.acknowledged(id),
    {
        if let Some(id) = parse_uuid(message_id_str) {
            self.acknowledge_id(id);
        }
    }

    /// Ends the life of a message.
    pub fn acknowledge_id(&mut self, id: u128)
        requires
            old(self).state.wf(),
        ensures
            final(self).state.wf(),
            final(self).state@ == old(self).state@.acknowledged(id),
    {
        if !self.state.unacknowledged_messages.contains_key(&id) {
            return;
        }
        let _ = self.state.unacknowledged_messages.remove(&id);
        let names = self.state.queues.keys();
        let ghost all = names.deep_view();
        let mut i: usize = 0;
        assert(self.state.queues@ =~= old(self).state@.queues_without(id, all.take(0)));
        while i < names.len()
            invariant
                self.state.wf(),
                i <= names@.len(),
                all == names.deep_view(),
                all.no_duplicates(),
                self.state@ == (EngineModel {
                    queues: old(self).state@.queues_without(id, all.take(i as int)),
                    unacknowledged: old(self).state@.unacknowledged.remove(id),
                    ..old(self).state@
                }),
            decreases names@.len() - i,
        {
            let ghost name = all[i as int];
            proof {
                assert(names@[i as int]@ == name);
                assert(!all.take(i as int).contains(name)) by {
                    if all.take(i as int).contains(name) {
                        let j = choose|j: int| 0 <= j < i && all.take(i as int)[j] == name;
                        assert(all[j] == all[i as int]);
                    }
                }
                assert(all.take(i + 1) =~= all.take(i as int).push(name));
                lemma_to_set_push(all.take(i as int), name);
                assert forall|q: Seq<char>| #[trigger] all.take(i + 1).contains(q) <==> all.take(
                    i as int,
                ).contains(q) || q == name by {
                    assert(all.take(i + 1).to_set().contains(q) <==> all.take(i + 1).contains(q));
                    assert(all.take(i as int).to_set().contains(q) <==> all.take(i as int).contains(q));
                }
            }
            match self.state.queues.get_mut(&names[i]) {
                Some(queue) => {
                    queue.drop_message(id);
                },
                None => {},
            }
            i = i + 1;
            assert(self.state.queues@ =~= old(self).state@.queues_without(id, all.take(i as int)));
        }
        proof {
            assert(all.take(all.len() as int) =~= all);
            assert forall|q: Seq<char>| #[trigger]
                old(self).state@.queues.contains_key(q) implies all.contains(q) by {
                assert(all.to_set().contains(q));
            }
            assert(self.state.queues@ =~= old(self).state@.without_message(id).queues);
            assert(self.state@ =~= old(self).state@.without_message(id));
        }
    }
}

/// An acknowledged message is neither tracked nor in any queue.
pub proof fn law_acknowledged_message_is_gone(s: EngineModel, id: u128, queue: Seq<char>, i: int)
    requires
        s.unacknowledged.contains_key(id),
        s.acknowledged(id).queues.contains_key(queue),
        0 <= i < s.acknowledged(id).queues[queue].messages.len(),
    ensures
        !s.acknowledged(id).unacknowledged.contains_key(id),
        s.acknowledged(id).queues[queue].messages[i].message_id != id,
{
    let held = s.queues[queue].messages;
    lemma_filter_members(held, is_other(id));
    let e = s.acknowledged(id).queues[queue].messages[i];
    assert(held.filter(is_other(id)).contains(e));
}

/// A second acknowledgement changes nothing.
pub proof fn law_acknowledgement_is_idempotent(s: EngineModel, id: u128)
    ensures
        s.acknowledged(id).acknowledged(id) == s.acknowledged(id),
{
}

/// However offering a message to a consumer of a queue went, the message is
/// tracked until it is acknowledged; where it failed, it waits in the queue.
pub proof fn law_offered_message_is_not_lost(
    s: EngineModel,
    queue: Seq<char>,
    message: StatusModel,
    consumer: u64,
    outcome: SendOutcome,
)
    requires
        s.queues.contains_key(queue),
    ensures
        ({
            let after = s.resolved(queue, message, consumer, outcome);
            &&& after.unacknowledged.contains_key(message.message_id)
            &&& after.unacknowledged[message.message_id] == (queue, message)
            &&& outcome == SendOutcome::Failed ==> after.queues[queue].messages.last() == message
        }),
{
}

/// A message that runs through its queues without meeting a consumer waits at the
/// end of each queue that exists, and is tracked if there is one.
pub proof fn law_unconsumed_message_is_filed(
    s: EngineModel,
    targets: Seq<Seq<char>>,
    at: int,
    message: StatusModel,
    k: int,
)
    requires
        0 <= at <= k < targets.len(),
        s.run(targets, at, message).2 is None,
        s.queues.contains_key(targets[k]),
    ensures
        ({
            let after = s.run(targets, at, message).0;
            &&& after.queues.contains_key(targets[k])
            &&& after.queues[targets[k]].messages.contains(message)
            &&& after.unacknowledged.contains_key(message.message_id)
        }),
    decreases targets.len() - at,
{
    if at == k {
        let next = s.filed(targets[at], message);
        assert(next.queues[targets[k]].messages.last() == message);
        lemma_run_keeps(next, targets, at + 1, message, targets[k]);
    } else if !s.queues.contains_key(targets[at]) {
        law_unconsumed_message_is_filed(s, targets, at + 1, message, k);
    } else {
        law_unconsumed_message_is_filed(s.filed(targets[at], message), targets, at + 1, message, k);
    }
}

proof fn lemma_run_keeps(
    s: EngineModel,
    targets: Seq<Seq<char>>,
    at: int,
    message: StatusModel,
    queue: Seq<char>,
)
    requires
        0 <= at,
        s.run(targets, at, message).2 is None,
        s.queues.contains_key(queue),
        s.queues[queue].messages.contains(message),
        s.unacknowledged.contains_key(message.message_id),
    ensures
        ({
            let after = s.run(targets, at, message).0;
            &&& after.queues.contains_key(queue)
            &&& after.queues[queue].messages.contains(message)
            &&& after.unacknowledged.contains_key(message.message_id)
        }),
    decreases targets.len() - at,
{
    if at < targets.len() {
        if !s.queues.contains_key(targets[at]) {
            lemma_run_keeps(s, targets, at + 1, message, queue);
        } else {
            let next = s.filed(targets[at], message);
            let i = choose|i: int|
                0 <= i < s.queues[queue].messages.len() && s.queues[queue].messages[i] == message;
            assert(next.queues[queue].messages[i] == message);
            lemma_run_keeps(next, targets, at + 1, message, queue);
        }
    }
}

impl EngineModel {
    /// Every queued message waits for its acknowledgement.
    pub open spec fn tracks_queued(self) -> bool {
        forall|q: Seq<char>, i: int|
            self.queues.contains_key(q) && 0 <= i < self.queues[q].messages.len()
                ==> self.unacknowledged.contains_key(
                (#[trigger] self.queues[q].messages[i]).message_id,
            )
    }
}

/// Declarations, bindings, publishing, fetching and acknowledging keep every
/// queued message waiting for its acknowledgement.
pub proof fn law_queued_messages_stay_tracked(
    s: EngineModel,
    queue: Seq<char>,
    exchange: Seq<char>,
    key: Seq<char>,
    message: StatusModel,
    consumer: u64,
    outcome: SendOutcome,
    id: u128,
)
    requires
        s.tracks_queued(),
    ensures
        s.with_queue(queue).tracks_queued(),
        s.with_exchange(exchange).tracks_queued(),
        s.with_binding(exchange, queue, key).tracks_queued(),
        s.queues.contains_key(queue) ==> s.filed(queue, message).tracks_queued(),
        s.resolved(queue, message, consumer, outcome).tracks_queued(),
        s.queues.contains_key(queue) && s.queues[queue].messages.len() > 0
            ==> s.without_oldest(queue).tracking(queue, s.queues[queue].messages[0]).tracks_queued(),
        s.acknowledged(id).tracks_queued(),
{
    lemma_fewer_messages_tracked(s, s.with_queue(queue));
    lemma_fewer_messages_tracked(s, s.with_exchange(exchange));
    lemma_fewer_messages_tracked(s, s.with_binding(exchange, queue, key));
    if s.queues.contains_key(queue) {
        let filed = s.filed(queue, message);
        assert forall|q: Seq<char>, i: int|
            filed.queues.contains_key(q) && 0 <= i
                < filed.queues[q].messages.len() implies filed.unacknowledged.contains_key(
            (#[trigger] filed.queues[q].messages[i]).message_id,
        ) by {
            if i < s.queues[q].messages.len() {
                assert(s.queues[q].messages[i] == filed.queues[q].messages[i]);
            }
        }
        lemma_fewer_messages_tracked(s, s.tracking(queue, message));
        lemma_fewer_messages_tracked(s, s.with_consumer(queue, consumer).tracking(queue, message));
        if s.queues[queue].messages.len() > 0 {
            let first = s.queues[queue].messages[0];
            let a = s.without_oldest(queue).tracking(queue, first);
            assert forall|q: Seq<char>, i: int|
                a.queues.contains_key(q) && 0 <= i
                    < a.queues[q].messages.len() implies a.unacknowledged.contains_key(
                (#[trigger] a.queues[q].messages[i]).message_id,
            ) by {
                let k = if q == queue {
                    i + 1
                } else {
                    i
                };
                assert(s.queues[q].messages[k] == a.queues[q].messages[i]);
            }
        }
    }
    if s.unacknowledged.contains_key(id) {
        let a = s.acknowledged(id);
        assert forall|q: Seq<char>, i: int|
            a.queues.contains_key(q) && 0 <= i
                < a.queues[q].messages.len() implies a.unacknowledged.contains_key(
            (#[trigger] a.queues[q].messages[i]).message_id,
        ) by {
            let held = s.queues[q].messages;
            lemma_filter_members(held, is_other(id));
            let e = a.queues[q].messages[i];
            assert(held.filter(is_other(id)).contains(e));
            let j = choose|j: int| 0 <= j < held.len() && held[j] == e;
            assert(s.unacknowledged.contains_key(held[j].message_id));
        }
    }
}

proof fn lemma_fewer_messages_tracked(s: EngineModel, a: EngineModel)
    requires
        s.tracks_queued(),
        s.unacknowledged.dom().subset_of(a.unacknowledged.dom()),
        forall|q: Seq<char>| #[trigger]
            a.queues.contains_key(q) && a.queues[q].messages.len() > 0 ==> s.queues.contains_key(q)
                && a.queues[q].messages == s.queues[q].messages,
    ensures
        a.tracks_queued(),
{
    assert forall|q: Seq<char>, i: int|
        a.queues.contains_key(q) && 0 <= i
            < a.queues[q].messages.len() implies a.unacknowledged.contains_key(
        (#[trigger] a.queues[q].messages[i]).message_id,
    ) by {
        assert(s.unacknowledged.contains_key(s.queues[q].messages[i].message_id));
        assert(s.unacknowledged.dom().contains(s.queues[q].messages[i].message_id));
    }
}

} // verus!
