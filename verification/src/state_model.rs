//! The broker's state as mathematical values, and what its operations do to it.

use crate::seqs::{lemma_filter_all, lemma_filter_members, lemma_filter_push, lemma_filter_twice};
use crate::state::MessageStatus;
use vstd::prelude::*;

verus! {

/// The texts of an encrypted message.
pub struct MessageModel {
    pub message_id: Seq<char>,
    pub receiver_client_id: Seq<char>,
    pub enc_session_key: Seq<char>,
    pub nonce: Seq<char>,
    pub ciphertext: Seq<char>,
}

/// Whether a message was delivered more than `max_age` before `now` and never
/// acknowledged.
pub open spec fn is_expired(status: MessageStatus, now: u128, max_age: u128) -> bool {
    status.delivered_time is Some && now - status.delivered_time->0 > max_age
        && status.acknowledged_time is None
}

/// A queued message under its identifier.
pub type QueuedModel = (Seq<char>, MessageModel);

/// Whether some entry of a queue belongs to a message.
pub open spec fn in_queue(held: Seq<QueuedModel>, id: Seq<char>) -> bool {
    exists|i: int| 0 <= i < held.len() && (#[trigger] held[i]).0 == id
}

/// Whether no two entries of a queue belong to the same message.
pub open spec fn distinct_ids(held: Seq<QueuedModel>) -> bool {
    forall|i: int, j: int|
        0 <= i < j < held.len() ==> (#[trigger] held[i]).0 != (#[trigger] held[j]).0
}

/// The state as mathematical values.
#[verifier::ext_equal]
pub struct StateModel {
    pub queues: Map<Seq<char>, Seq<QueuedModel>>,
    pub message_queues: Map<Seq<char>, Set<Seq<char>>>,
    pub bindings: Map<Seq<char>, Seq<(Seq<char>, Seq<char>)>>,
    pub exchanges: Set<Seq<char>>,
    pub consumers: Map<Seq<char>, Seq<u64>>,
    pub message_status: Map<Seq<char>, MessageStatus>,
    pub connected_clients: usize,
    pub max_queue_size: usize,
}

impl StateModel {
    /// The bindings of an exchange, in the order in which they were made.
    pub open spec fn bindings_of(self, exchange: Seq<char>) -> Seq<(Seq<char>, Seq<char>)> {
        if self.bindings.contains_key(exchange) {
            self.bindings[exchange]
        } else {
            Seq::empty()
        }
    }

    /// The consumers of a queue, in the order in which they registered.
    pub open spec fn consumers_of(self, queue: Seq<char>) -> Seq<u64> {
        if self.consumers.contains_key(queue) {
            self.consumers[queue]
        } else {
            Seq::empty()
        }
    }

    /// The queues that a routing key leads to from an exchange.
    pub open spec fn targets(self, exchange: Seq<char>, routing_key: Seq<char>) -> Seq<Seq<char>> {
        bound_queues(self.bindings_of(exchange), routing_key)
    }

    /// After `declare_queue`.
    pub open spec fn with_queue(self, queue: Seq<char>) -> StateModel {
        if self.queues.contains_key(queue) {
            self
        } else {
            StateModel { queues: self.queues.insert(queue, Seq::empty()), ..self }
        }
    }

    /// After `declare_exchange`.
    pub open spec fn with_exchange(self, exchange: Seq<char>) -> StateModel {
        StateModel { exchanges: self.exchanges.insert(exchange), ..self }
    }

    /// After `bind_queue`.
    pub open spec fn with_binding(
        self,
        queue: Seq<char>,
        exchange: Seq<char>,
        routing_key: Seq<char>,
    ) -> StateModel {
        let bound = self.bindings_of(exchange);
        if self.queues.contains_key(queue) && self.exchanges.contains(exchange) && !bound.contains(
            (queue, routing_key),
        ) {
            StateModel {
                bindings: self.bindings.insert(exchange, bound.push((queue, routing_key))),
                ..self
            }
        } else {
            self
        }
    }

    /// After a queue has lost a message, which is no longer recorded with it. One
    /// that no queue is recorded to hold any more has no status.
    pub open spec fn lost(self, id: Seq<char>, queue: Seq<char>) -> StateModel {
        let left = if self.message_queues.contains_key(id) {
            self.message_queues[id].remove(queue)
        } else {
            Set::empty()
        };
        StateModel {
            message_queues: if self.message_queues.contains_key(id) {
                self.message_queues.insert(id, left)
            } else {
                self.message_queues
            },
            message_status: if left == Set::<Seq<char>>::empty() {
                self.message_status.remove(id)
            } else {
                self.message_status
            },
            ..self
        }
    }

    /// With one message put at the end of one queue. A queue that is full loses
    /// its oldest message first.
    pub open spec fn enqueued(self, queue: Seq<char>, entry: QueuedModel) -> StateModel {
        if !self.queues.contains_key(queue) {
            self
        } else {
            let held = self.queues[queue];
            if held.len() >= self.max_queue_size && held.len() > 0 {
                StateModel {
                    queues: self.queues.insert(queue, held.skip(1).push(entry)),
                    ..self.lost(held[0].0, queue)
                }
            } else {
                StateModel { queues: self.queues.insert(queue, held.push(entry)), ..self }
            }
        }
    }

    /// With one message put at the end of several queues, one after the other.
    pub open spec fn enqueued_all(self, names: Seq<Seq<char>>, entry: QueuedModel) -> StateModel
        decreases names.len(),
    {
        if names.len() == 0 {
            self
        } else {
            self.enqueued_all(names.drop_last(), entry).enqueued(names.last(), entry)
        }
    }

    /// After a message was announced for some queues: it is tracked from now on.
    pub open spec fn announced(
        self,
        names: Seq<Seq<char>>,
        id: Seq<char>,
        received: u128,
    ) -> StateModel {
        StateModel {
            message_queues: self.message_queues.insert(id, names.to_set()),
            message_status: self.message_status.insert(id, MessageStatus::spec_sent(received)),
            ..self
        }
    }

    /// After a message was put into the queues bound to an exchange by a routing
    /// key.
    pub open spec fn published(
        self,
        exchange: Seq<char>,
        routing_key: Seq<char>,
        message: MessageModel,
        received: u128,
    ) -> StateModel {
        let names = self.targets(exchange, routing_key);
        let id = message.message_id;
        self.announced(names, id, received).enqueued_all(names, (id, message))
    }

    /// The consumers to tell of a message in some queues.
    pub open spec fn notices(self, names: Seq<Seq<char>>) -> Seq<(Seq<char>, Seq<u64>)>
        decreases names.len(),
    {
        if names.len() == 0 {
            Seq::empty()
        } else {
            let before = self.notices(names.drop_last());
            if self.consumers.contains_key(names.last()) {
                before.push((names.last(), self.consumers[names.last()]))
            } else {
                before
            }
        }
    }

    /// Whether a queued message is still to be delivered.
    pub open spec fn deliverable(self, id: Seq<char>) -> bool {
        self.message_status.contains_key(id) && self.message_status[id].acknowledged_time is None
    }

    /// The messages of a queue that are still to be delivered, oldest first.
    pub open spec fn pending(self, queue: Seq<char>) -> Seq<QueuedModel> {
        if self.queues.contains_key(queue) {
            self.queues[queue].filter(|e: QueuedModel| self.deliverable(e.0))
        } else {
            Seq::empty()
        }
    }

    /// After a consumer was added to a queue.
    pub open spec fn with_consumer(self, queue: Seq<char>, consumer: u64) -> StateModel {
        let declared = self.with_queue(queue);
        StateModel {
            consumers: declared.consumers.insert(queue, self.consumers_of(queue).push(consumer)),
            ..declared
        }
    }

    /// After the oldest message left a queue.
    pub open spec fn consumed(self, queue: Seq<char>, now: u128) -> StateModel {
        if self.queues.contains_key(queue) && self.queues[queue].len() > 0 {
            let id = self.queues[queue][0].0;
            StateModel { queues: self.queues.insert(queue, self.queues[queue].skip(1)), ..self }.delivered(id, now)
        } else {
            self
        }
    }

    /// After a message was handed to its receiver.
    pub open spec fn delivered(self, id: Seq<char>, now: u128) -> StateModel {
        if self.message_status.contains_key(id) {
            StateModel {
                message_status: self.message_status.insert(
                    id,
                    MessageStatus { delivered_time: Some(now), ..self.message_status[id] },
                ),
                ..self
            }
        } else {
            self
        }
    }

    /// Whether a message is recorded as held by a queue.
    pub open spec fn recorded(self, id: Seq<char>, queue: Seq<char>) -> bool {
        self.message_queues.contains_key(id) && self.message_queues[id].contains(queue)
    }

    /// Whether some queue holds a message.
    pub open spec fn queued(self, id: Seq<char>) -> bool {
        exists|q: Seq<char>| #[trigger] self.queues.contains_key(q) && in_queue(self.queues[q], id)
    }

    /// Without the messages of a set: gone from every queue, and no longer
    /// tracked.
    pub open spec fn purged(self, ids: Set<Seq<char>>) -> StateModel {
        StateModel {
            queues: self.queues.map_values(
                |held: Seq<QueuedModel>| held.filter(|e: QueuedModel| !ids.contains(e.0)),
            ),
            message_queues: self.message_queues.remove_keys(ids),
            message_status: self.message_status.remove_keys(ids),
            ..self
        }
    }

    /// After an acknowledgement.
    pub open spec fn acked(self, id: Seq<char>) -> StateModel {
        if self.message_status.contains_key(id) {
            self.purged(set![id])
        } else {
            self
        }
    }

    /// The messages that were delivered too long ago without an answer.
    pub open spec fn expired(self, now: u128, max_age: u128) -> Set<Seq<char>> {
        Set::new(
            |id: Seq<char>|
                self.message_status.contains_key(id) && is_expired(
                    self.message_status[id],
                    now,
                    max_age,
                ),
        )
    }
}

/// The queues of those bindings that carry a routing key.
pub open spec fn bound_queues(
    bindings: Seq<(Seq<char>, Seq<char>)>,
    routing_key: Seq<char>,
) -> Seq<Seq<char>>
    decreases bindings.len(),
{
    if bindings.len() == 0 {
        Seq::empty()
    } else {
        let before = bound_queues(bindings.drop_last(), routing_key);
        if bindings.last().1 == routing_key {
            before.push(bindings.last().0)
        } else {
            before
        }
    }
}

/// The ids that are not among the closed ones.
pub open spec fn still_open(ids: Seq<u64>, closed: Seq<u64>) -> Seq<u64> {
    ids.filter(|id: u64| !closed.contains(id))
}

impl StateModel {
    /// What holds of the state at all times: queues and bindings are in order, and
    /// every queued message is tracked.
    pub open spec fn sound(self) -> bool {
        self.orderly() && self.tracked_everywhere()
    }

    /// No queue holds more than its limit (at least one message) or a message
    /// twice, and an exchange's bindings are distinct and name queues that exist.
    pub open spec fn orderly(self) -> bool {
        &&& forall|q: Seq<char>| #[trigger]
            self.queues.contains_key(q) ==> self.queues[q].len() <= self.limit() && distinct_ids(
                self.queues[q],
            )
        &&& forall|e: Seq<char>| #[trigger]
            self.bindings.contains_key(e) ==> {
                &&& self.exchanges.contains(e)
                &&& self.bindings[e].no_duplicates()
                &&& forall|i: int|
                    0 <= i < self.bindings[e].len() ==> self.queues.contains_key(
                        (#[trigger] self.bindings[e][i]).0,
                    )
            }
    }

    /// Every queued message is recorded with the queue it is in, every message that
    /// is recorded with a queue has a status, and every one that has a status has a
    /// record.
    pub open spec fn tracked_everywhere(self) -> bool {
        &&& self.message_status.dom().subset_of(self.message_queues.dom())
        &&& forall|id: Seq<char>, q: Seq<char>| #[trigger]
            self.recorded(id, q) ==> self.message_status.contains_key(id)
        &&& forall|q: Seq<char>, i: int|
            self.queues.contains_key(q) && 0 <= i < self.queues[q].len() ==> self.recorded(
                (#[trigger] self.queues[q][i]).0,
                q,
            )
    }

    /// How many messages a queue holds at most.
    pub open spec fn limit(self) -> int {
        if self.max_queue_size == 0 {
            1
        } else {
            self.max_queue_size as int
        }
    }
}

/// More queues and exchanges, queues that lost their oldest message and other
/// times of messages leave a state sound.
pub proof fn lemma_grown_sound(a: StateModel, b: StateModel)
    requires
        a.sound(),
        b.bindings == a.bindings,
        b.max_queue_size == a.max_queue_size,
        b.message_queues == a.message_queues,
        b.message_status.dom() == a.message_status.dom(),
        a.exchanges.subset_of(b.exchanges),
        a.queues.dom().subset_of(b.queues.dom()),
        forall|q: Seq<char>| #[trigger]
            b.queues.contains_key(q) ==> b.queues[q].len() == 0 || (a.queues.contains_key(q) && (
            b.queues[q] == a.queues[q] || (a.queues[q].len() > 0 && b.queues[q]
                == a.queues[q].skip(1)))),
    ensures
        b.sound(),
{
    assert forall|q: Seq<char>| #[trigger] b.queues.contains_key(q) implies b.queues[q].len()
        <= b.limit() && distinct_ids(b.queues[q]) by {
        if b.queues[q].len() > 0 {
            let held = a.queues[q];
            assert(distinct_ids(held));
            assert(distinct_ids(held.skip(1))) by {
                assert forall|i: int, j: int| 0 <= i < j < held.skip(1).len() implies (
                #[trigger] held.skip(1)[i]).0 != (#[trigger] held.skip(1)[j]).0 by {
                    assert(held.skip(1)[i] == held[i + 1]);
                    assert(held.skip(1)[j] == held[j + 1]);
                }
            }
        }
    }
    assert forall|e: Seq<char>| #[trigger] b.bindings.contains_key(e) implies {
        &&& b.exchanges.contains(e)
        &&& b.bindings[e].no_duplicates()
        &&& forall|i: int|
            0 <= i < b.bindings[e].len() ==> b.queues.contains_key((#[trigger] b.bindings[e][i]).0)
    } by {
        assert(a.bindings.contains_key(e));
        assert forall|i: int| 0 <= i < b.bindings[e].len() implies b.queues.contains_key(
            (#[trigger] b.bindings[e][i]).0,
        ) by {
            assert(a.queues.dom().contains(a.bindings[e][i].0));
        }
    }
    assert forall|q: Seq<char>, i: int|
        b.queues.contains_key(q) && 0 <= i < b.queues[q].len() implies b.recorded(
        (#[trigger] b.queues[q][i]).0,
        q,
    ) by {
        if b.queues[q] == a.queues[q] {
            assert(a.recorded(a.queues[q][i].0, q));
        } else {
            assert(b.queues[q][i] == a.queues[q][i + 1]);
            assert(a.recorded(a.queues[q][i + 1].0, q));
        }
    }
    assert forall|id: Seq<char>, q: Seq<char>| #[trigger]
        b.recorded(id, q) implies b.message_status.contains_key(id) by {
        assert(a.recorded(id, q));
        assert(a.message_status.dom().contains(id));
    }
}

/// More bindings of queues that exist leave a state sound.
pub proof fn lemma_bound_sound(
    s: StateModel,
    queue: Seq<char>,
    exchange: Seq<char>,
    routing_key: Seq<char>,
)
    requires
        s.sound(),
    ensures
        s.with_binding(queue, exchange, routing_key).sound(),
{
    let b = s.with_binding(queue, exchange, routing_key);
    assert forall|q: Seq<char>, i: int|
        b.queues.contains_key(q) && 0 <= i < b.queues[q].len() implies b.recorded(
        (#[trigger] b.queues[q][i]).0,
        q,
    ) by {
        assert(s.recorded(s.queues[q][i].0, q));
    }
    assert forall|id: Seq<char>, q: Seq<char>| #[trigger]
        b.recorded(id, q) implies b.message_status.contains_key(id) by {
        assert(s.recorded(id, q));
    }
}

/// Whether a queue, if it exists, is recorded to hold a message and does not hold
/// it yet.
pub open spec fn can_take(s: StateModel, queue: Seq<char>, id: Seq<char>) -> bool {
    s.queues.contains_key(queue) ==> s.recorded(id, queue) && !in_queue(s.queues[queue], id)
}

pub proof fn lemma_enqueued_sound(s: StateModel, queue: Seq<char>, entry: QueuedModel)
    requires
        s.sound(),
        can_take(s, queue, entry.0),
    ensures
        s.enqueued(queue, entry).sound(),
        s.enqueued(queue, entry).queues.dom() == s.queues.dom(),
        s.enqueued(queue, entry).bindings == s.bindings,
        s.enqueued(queue, entry).consumers == s.consumers,
        s.enqueued(queue, entry).exchanges == s.exchanges,
        s.enqueued(queue, entry).max_queue_size == s.max_queue_size,
        s.enqueued(queue, entry).connected_clients == s.connected_clients,
        s.enqueued(queue, entry).message_queues.index_opt(entry.0) == s.message_queues.index_opt(
            entry.0,
        ),
        s.enqueued(queue, entry).message_status.index_opt(entry.0) == s.message_status.index_opt(
            entry.0,
        ),
        forall|q: Seq<char>|
            q != queue ==> #[trigger] s.enqueued(queue, entry).queues[q] == s.queues[q],
{
    let b = s.enqueued(queue, entry);
    assert(b.queues.dom() =~= s.queues.dom());
    if s.queues.contains_key(queue) {
        let held = s.queues[queue];
        let full = held.len() >= s.max_queue_size && held.len() > 0;
        let oldest = held[0].0;
        assert(distinct_ids(held));
        if full {
            assert(in_queue(held, oldest));
            assert(s.recorded(s.queues[queue][0].0, queue));
        }
        assert(distinct_ids(b.queues[queue])) by {
            let after = b.queues[queue];
            assert forall|i: int, j: int| 0 <= i < j < after.len() implies (#[trigger] after[i]).0
                != (#[trigger] after[j]).0 by {
                let shift = if full {
                    1int
                } else {
                    0
                };
                assert(after[i] == held[i + shift]);
                if j < after.len() - 1 {
                    assert(after[j] == held[j + shift]);
                } else {
                    assert(after[j] == entry);
                }
            }
        }
        assert forall|q: Seq<char>, i: int|
            b.queues.contains_key(q) && 0 <= i < b.queues[q].len() implies b.recorded(
            (#[trigger] b.queues[q][i]).0,
            q,
        ) by {
            let e = b.queues[q][i];
            if q == queue && i == b.queues[q].len() - 1 {
                assert(e == entry);
            } else {
                let k = if q == queue && full {
                    i + 1
                } else {
                    i
                };
                assert(e == s.queues[q][k]);
                assert(s.recorded(s.queues[q][k].0, q));
                if full && e.0 == oldest {
                    if q == queue {
                        assert(held[0].0 != held[k].0);
                    }
                    assert(s.message_queues[oldest].remove(queue).contains(q));
                }
            }
        }
        assert forall|id: Seq<char>, q: Seq<char>| #[trigger]
            b.recorded(id, q) implies b.message_status.contains_key(id) by {
            assert(s.recorded(id, q));
            if full && id == oldest {
                assert(s.message_queues[oldest].remove(queue).contains(q));
            }
        }
    }
}

pub proof fn lemma_enqueued_all_sound(s: StateModel, names: Seq<Seq<char>>, entry: QueuedModel)
    requires
        s.sound(),
        names.no_duplicates(),
        forall|i: int| 0 <= i < names.len() ==> can_take(s, #[trigger] names[i], entry.0),
    ensures
        s.enqueued_all(names, entry).sound(),
        s.enqueued_all(names, entry).queues.dom() == s.queues.dom(),
        s.enqueued_all(names, entry).bindings == s.bindings,
        s.enqueued_all(names, entry).consumers == s.consumers,
        s.enqueued_all(names, entry).exchanges == s.exchanges,
        s.enqueued_all(names, entry).max_queue_size == s.max_queue_size,
        s.enqueued_all(names, entry).connected_clients == s.connected_clients,
        s.enqueued_all(names, entry).message_queues.index_opt(entry.0)
            == s.message_queues.index_opt(entry.0),
        s.enqueued_all(names, entry).message_status.index_opt(entry.0)
            == s.message_status.index_opt(entry.0),
        forall|q: Seq<char>|
            !names.contains(q) ==> #[trigger] s.enqueued_all(names, entry).queues[q] == s.queues[q],
    decreases names.len(),
{
    if names.len() > 0 {
        let rest = names.drop_last();
        let last = names.last();
        let b = s.enqueued_all(rest, entry);
        assert forall|i: int| 0 <= i < rest.len() implies can_take(s, #[trigger] rest[i], entry.0) by {
            assert(rest[i] == names[i]);
        }
        lemma_enqueued_all_sound(s, rest, entry);
        assert(!rest.contains(last)) by {
            if rest.contains(last) {
                let j = choose|j: int| 0 <= j < rest.len() && rest[j] == last;
                assert(names[j] == names[names.len() - 1]);
            }
        }
        assert(can_take(b, last, entry.0)) by {
            assert(can_take(s, names[names.len() - 1], entry.0));
            assert(b.queues[last] == s.queues[last]);
        }
        lemma_enqueued_sound(b, last, entry);
        assert forall|q: Seq<char>| !names.contains(q) implies #[trigger] s.enqueued_all(
            names,
            entry,
        ).queues[q] == s.queues[q] by {
            assert(names[names.len() - 1] == last);
            if rest.contains(q) {
                let j = choose|j: int| 0 <= j < rest.len() && rest[j] == q;
                assert(names[j] == q);
            }
            assert(b.queues[q] == s.queues[q]);
        }
    }
}

/// The queues under a routing key are distinct, and are those bound under it.
pub proof fn lemma_bound_queues(bindings: Seq<(Seq<char>, Seq<char>)>, key: Seq<char>)
    requires
        bindings.no_duplicates(),
    ensures
        bound_queues(bindings, key).no_duplicates(),
        forall|q: Seq<char>| #[trigger]
            bound_queues(bindings, key).contains(q) <==> bindings.contains((q, key)),
    decreases bindings.len(),
{
    if bindings.len() > 0 {
        let rest = bindings.drop_last();
        let last = bindings.last();
        let before = bound_queues(rest, key);
        let after = bound_queues(bindings, key);
        assert(rest.no_duplicates());
        lemma_bound_queues(rest, key);
        assert(!rest.contains(last)) by {
            if rest.contains(last) {
                let j = choose|j: int| 0 <= j < rest.len() && rest[j] == last;
                assert(bindings[j] == bindings[bindings.len() - 1]);
            }
        }
        assert forall|q: Seq<char>| #[trigger] after.contains(q) <==> bindings.contains((q, key)) by {
            if after.contains(q) {
                let i = choose|i: int| 0 <= i < after.len() && after[i] == q;
                if i < before.len() {
                    assert(before[i] == q);
                    assert(before.contains(q));
                    let j = choose|j: int| 0 <= j < rest.len() && rest[j] == (q, key);
                    assert(bindings[j] == (q, key));
                } else {
                    assert(bindings[bindings.len() - 1] == (q, key));
                }
            }
            if bindings.contains((q, key)) {
                let j = choose|j: int| 0 <= j < bindings.len() && bindings[j] == (q, key);
                if j < rest.len() {
                    assert(rest[j] == (q, key));
                    assert(before.contains(q));
                    let i = choose|i: int| 0 <= i < before.len() && before[i] == q;
                    assert(after[i] == q);
                } else {
                    assert(after[before.len() as int] == q);
                }
            }
        }
        if last.1 == key {
            assert(!before.contains(last.0)) by {
                if before.contains(last.0) {
                    assert(rest.contains((last.0, key)));
                }
            }
        }
    }
}

/// What is known of a state to which a new message was announced.
pub proof fn lemma_announced_sound(
    s: StateModel,
    exchange: Seq<char>,
    routing_key: Seq<char>,
    id: Seq<char>,
    received: u128,
)
    requires
        s.sound(),
        !s.message_status.contains_key(id),
    ensures
        ({
            let names = s.targets(exchange, routing_key);
            let after = s.announced(names, id, received);
            &&& names.no_duplicates()
            &&& after.sound()
            &&& forall|i: int| 0 <= i < names.len() ==> can_take(after, #[trigger] names[i], id)
        }),
{
    let names = s.targets(exchange, routing_key);
    let after = s.announced(names, id, received);
    lemma_bound_queues(s.bindings_of(exchange), routing_key);
    assert forall|x: Seq<char>, q: Seq<char>| #[trigger]
        after.recorded(x, q) implies after.message_status.contains_key(x) by {
        if x != id {
            assert(s.recorded(x, q));
        }
    }
    assert forall|q: Seq<char>, i: int|
        after.queues.contains_key(q) && 0 <= i < after.queues[q].len() implies after.recorded(
        (#[trigger] after.queues[q][i]).0,
        q,
    ) by {
        assert(s.recorded(s.queues[q][i].0, q));
    }
    assert forall|i: int| 0 <= i < names.len() implies can_take(after, #[trigger] names[i], id) by {
        let q = names[i];
        assert(names.contains(q));
        if s.queues.contains_key(q) && in_queue(s.queues[q], id) {
            let j = choose|j: int| 0 <= j < s.queues[q].len() && (#[trigger] s.queues[q][j]).0 == id;
            assert(s.recorded(s.queues[q][j].0, q));
        }
    }
}

/// Publishing a message whose identifier is not in use leaves a state sound.
pub proof fn lemma_published_sound(
    s: StateModel,
    exchange: Seq<char>,
    routing_key: Seq<char>,
    message: MessageModel,
    received: u128,
)
    requires
        s.sound(),
        !s.message_status.contains_key(message.message_id),
    ensures
        s.published(exchange, routing_key, message, received).sound(),
        s.published(exchange, routing_key, message, received).consumers == s.consumers,
{
    let names = s.targets(exchange, routing_key);
    let id = message.message_id;
    lemma_announced_sound(s, exchange, routing_key, id, received);
    lemma_enqueued_all_sound(s.announced(names, id, received), names, (id, message));
}

proof fn lemma_filter_distinct(held: Seq<QueuedModel>, p: spec_fn(QueuedModel) -> bool)
    requires
        distinct_ids(held),
    ensures
        distinct_ids(held.filter(p)),
    decreases held.len(),
{
    reveal(Seq::filter);
    if held.len() > 0 {
        let rest = held.drop_last();
        let last = held.last();
        let kept = rest.filter(p);
        assert(distinct_ids(rest));
        lemma_filter_distinct(rest, p);
        lemma_filter_members(rest, p);
        lemma_filter_push(rest, last, p);
        assert(rest.push(last) =~= held);
        let after = held.filter(p);
        assert forall|i: int, j: int| 0 <= i < j < after.len() implies (#[trigger] after[i]).0 != (
        #[trigger] after[j]).0 by {
            assert(after[i] == kept[i]);
            if j < kept.len() {
                assert(after[j] == kept[j]);
            } else {
                assert(kept.contains(kept[i]));
                let k = choose|k: int| 0 <= k < rest.len() && rest[k] == kept[i];
                assert(held[k].0 != held[held.len() - 1].0);
            }
        }
    }
}

pub proof fn lemma_purged_sound(s: StateModel, ids: Set<Seq<char>>)
    requires
        s.sound(),
    ensures
        s.purged(ids).sound(),
{
    let after = s.purged(ids);
    let p = |e: QueuedModel| !ids.contains(e.0);
    assert(after.queues.dom() =~= s.queues.dom());
    assert forall|q: Seq<char>| #[trigger] after.queues.contains_key(q) implies after.queues[q].len()
        <= after.limit() && distinct_ids(after.queues[q]) by {
        lemma_filter_members(s.queues[q], p);
        lemma_filter_distinct(s.queues[q], p);
    }
    assert forall|id: Seq<char>, q: Seq<char>| #[trigger]
        after.recorded(id, q) implies after.message_status.contains_key(id) by {
        assert(s.recorded(id, q));
    }
    assert forall|q: Seq<char>, i: int|
        after.queues.contains_key(q) && 0 <= i < after.queues[q].len() implies after.recorded(
        (#[trigger] after.queues[q][i]).0,
        q,
    ) by {
        let held = s.queues[q];
        lemma_filter_members(held, p);
        assert(held.filter(p).contains(after.queues[q][i]));
        let k = choose|k: int| 0 <= k < held.len() && held[k] == after.queues[q][i];
        assert(s.recorded(s.queues[q][k].0, q));
    }
}

/// Purging one more message.
pub proof fn lemma_purged_one_more(s: StateModel, ids: Set<Seq<char>>, id: Seq<char>)
    ensures
        s.purged(ids).purged(set![id]) == s.purged(ids.insert(id)),
{
    let a = s.purged(ids).purged(set![id]);
    let b = s.purged(ids.insert(id));
    assert(a.queues =~= b.queues) by {
        assert forall|q: Seq<char>| #[trigger] a.queues.contains_key(q) implies a.queues[q]
            == b.queues[q] by {
            lemma_filter_twice(
                s.queues[q],
                |e: QueuedModel| !ids.contains(e.0),
                |e: QueuedModel| !set![id].contains(e.0),
                |e: QueuedModel| !ids.insert(id).contains(e.0),
            );
        }
    }
    assert(a.message_queues =~= b.message_queues);
    assert(a.message_status =~= b.message_status);
}

pub proof fn lemma_purged_none(s: StateModel)
    ensures
        s.purged(Set::empty()) == s,
{
    let after = s.purged(Set::empty());
    let none = Set::<Seq<char>>::empty();
    assert(after.queues =~= s.queues) by {
        assert forall|q: Seq<char>| #[trigger] after.queues.contains_key(q) implies after.queues[q]
            == s.queues[q] by {
            lemma_filter_all(s.queues[q], |e: QueuedModel| !none.contains(e.0));
        }
    }
    assert(after.message_queues =~= s.message_queues);
    assert(after.message_status =~= s.message_status);
}

/// The answer to a message whose identifier is in use.
pub open spec fn duplicate_error(id: Seq<char>) -> Seq<char> {
    "Duplicate message "@ + id + " ignored"@
}

/// The answer to a message whose metadata could not be stored.
pub open spec fn metadata_error(cause: Seq<char>) -> Seq<char> {
    "Failed to save metadata: "@ + cause
}

/// The answer to a message that no binding leads anywhere.
pub open spec fn unbound_error(exchange: Seq<char>, routing_key: Seq<char>) -> Seq<char> {
    "No queues bound to exchange '"@ + exchange + "' with routing key '"@ + routing_key + "'"@
}

pub proof fn lemma_notices_agree(a: StateModel, b: StateModel, names: Seq<Seq<char>>)
    requires
        a.consumers == b.consumers,
    ensures
        a.notices(names) == b.notices(names),
    decreases names.len(),
{
    if names.len() > 0 {
        lemma_notices_agree(a, b, names.drop_last());
    }
}

/// The bindings of one exchange, each with the exchange's name.
pub open spec fn of_exchange(exchange: Seq<char>, bindings: Seq<(Seq<char>, Seq<char>)>) -> Seq<
    (Seq<char>, Seq<char>, Seq<char>),
> {
    Seq::new(bindings.len(), |i: int| (exchange, bindings[i].0, bindings[i].1))
}

/// The bindings of some exchanges, one exchange after the other.
pub open spec fn listed_bindings(s: StateModel, order: Seq<Seq<char>>) -> Seq<
    (Seq<char>, Seq<char>, Seq<char>),
>
    decreases order.len(),
{
    if order.len() == 0 {
        Seq::empty()
    } else {
        listed_bindings(s, order.drop_last()) + of_exchange(order.last(), s.bindings[order.last()])
    }
}

/// One more, from zero again after the largest number.
pub open spec fn counted_up(n: usize) -> usize {
    if n == usize::MAX {
        0
    } else {
        (n + 1) as usize
    }
}

/// One less, from the largest number again after zero.
pub open spec fn counted_down(n: usize) -> usize {
    if n == 0 {
        usize::MAX
    } else {
        (n - 1) as usize
    }
}

impl StateModel {
    /// How many messages each queue holds.
    pub open spec fn queue_sizes(self) -> Map<Seq<char>, nat> {
        self.queues.map_values(|held: Seq<QueuedModel>| held.len())
    }

    /// How many consumers each queue has.
    pub open spec fn consumer_counts(self) -> Map<Seq<char>, nat> {
        self.consumers.map_values(|ids: Seq<u64>| ids.len())
    }
}

impl StateModel {
    /// The consumers without those known to be gone, and without queues that
    /// have none left.
    pub open spec fn without_consumers(self, closed: Seq<u64>) -> Map<Seq<char>, Seq<u64>> {
        Map::new(
            |q: Seq<char>|
                self.consumers.contains_key(q) && still_open(self.consumers[q], closed).len() > 0,
            |q: Seq<char>| still_open(self.consumers[q], closed),
        )
    }

    /// The queues without one message in those of a list.
    pub open spec fn purged_in(self, id: Seq<char>, names: Seq<Seq<char>>) -> Map<
        Seq<char>,
        Seq<QueuedModel>,
    > {
        self.queues.map_entries(
            |queue: Seq<char>, held: Seq<QueuedModel>|
                if names.contains(queue) {
                    held.filter(|e: QueuedModel| e.0 != id)
                } else {
                    held
                },
        )
    }

    /// The consumers without those known to be gone from the queues of a list.
    pub open spec fn without_consumers_in(self, closed: Seq<u64>, names: Seq<Seq<char>>) -> Map<
        Seq<char>,
        Seq<u64>,
    > {
        Map::new(
            |q: Seq<char>|
                self.consumers.contains_key(q) && (names.contains(q) ==> still_open(
                    self.consumers[q],
                    closed,
                ).len() > 0),
            |q: Seq<char>|
                if names.contains(q) {
                    still_open(self.consumers[q], closed)
                } else {
                    self.consumers[q]
                },
        )
    }
}

} // verus!
