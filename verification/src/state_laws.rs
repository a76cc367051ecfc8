//! What holds of the broker's state across operations.

use crate::seqs::{lemma_filter_agree, lemma_filter_members, lemma_filter_twice};
use crate::state_model::{
    can_take, in_queue, lemma_announced_sound, lemma_bound_queues, lemma_enqueued_all_sound,
    lemma_published_sound, listed_bindings, of_exchange, still_open, MessageModel, QueuedModel,
    StateModel,
};
use vstd::prelude::*;

verus! {

/// A routing key leads to each queue once, and only to queues bound under it.
pub proof fn law_targets_are_the_bound_queues(s: StateModel, exchange: Seq<char>, key: Seq<char>)
    requires
        s.sound(),
    ensures
        s.targets(exchange, key).no_duplicates(),
        forall|q: Seq<char>| #[trigger]
            s.targets(exchange, key).contains(q) <==> s.bindings_of(exchange).contains((q, key)),
        forall|q: Seq<char>| #[trigger]
            s.targets(exchange, key).contains(q) ==> s.queues.contains_key(q),
{
    lemma_bound_queues(s.bindings_of(exchange), key);
    assert forall|q: Seq<char>| #[trigger] s.targets(exchange, key).contains(q) implies s.queues.contains_key(
        q,
    ) by {
        let bound = s.bindings_of(exchange);
        let j = choose|j: int| 0 <= j < bound.len() && bound[j] == (q, key);
        assert(s.bindings.contains_key(exchange));
        assert(s.queues.contains_key(s.bindings[exchange][j].0));
    }
}

/// What a queue holds after a message was put at its end.
pub open spec fn appended(held: Seq<QueuedModel>, max_queue_size: usize, entry: QueuedModel) -> Seq<
    QueuedModel,
> {
    if held.len() >= max_queue_size && held.len() > 0 {
        held.skip(1).push(entry)
    } else {
        held.push(entry)
    }
}

proof fn lemma_enqueued_all_queues(s: StateModel, names: Seq<Seq<char>>, entry: QueuedModel)
    requires
        names.no_duplicates(),
    ensures
        s.enqueued_all(names, entry).queues.dom() == s.queues.dom(),
        s.enqueued_all(names, entry).max_queue_size == s.max_queue_size,
        forall|q: Seq<char>| #[trigger]
            s.queues.contains_key(q) ==> s.enqueued_all(names, entry).queues[q] == (
            if names.contains(q) {
                appended(s.queues[q], s.max_queue_size, entry)
            } else {
                s.queues[q]
            }),
    decreases names.len(),
{
    let after = s.enqueued_all(names, entry);
    if names.len() > 0 {
        let rest = names.drop_last();
        let last = names.last();
        assert(rest.no_duplicates());
        lemma_enqueued_all_queues(s, rest, entry);
        assert(!rest.contains(last)) by {
            if rest.contains(last) {
                let j = choose|j: int| 0 <= j < rest.len() && rest[j] == last;
                assert(names[j] == names[names.len() - 1]);
            }
        }
        assert(after.queues.dom() =~= s.queues.dom());
        assert forall|q: Seq<char>| #[trigger] s.queues.contains_key(q) implies after.queues[q] == (
        if names.contains(q) {
            appended(s.queues[q], s.max_queue_size, entry)
        } else {
            s.queues[q]
        }) by {
            assert(rest.push(last) =~= names);
            if names.contains(q) && q != last {
                let j = choose|j: int| 0 <= j < names.len() && names[j] == q;
                assert(rest[j] == q);
            }
            if rest.contains(q) {
                let j = choose|j: int| 0 <= j < rest.len() && rest[j] == q;
                assert(names[j] == q);
            }
            if q == last {
                assert(names[names.len() - 1] == q);
            }
        }
    }
}

/// A published message stands once, and last, in every queue bound under its
/// routing key; no other queue changes. A queue below its limit keeps all it
/// held, and a full one loses its oldest message only.
pub proof fn law_publish_appends_to_each_bound_queue(
    s: StateModel,
    exchange: Seq<char>,
    key: Seq<char>,
    message: MessageModel,
    received: u128,
)
    requires
        s.sound(),
    ensures
        ({
            let after = s.published(exchange, key, message, received);
            let entry = (message.message_id, message);
            &&& after.queues.dom() == s.queues.dom()
            &&& forall|q: Seq<char>| #[trigger]
                s.queues.contains_key(q) ==> after.queues[q] == (if s.bindings_of(exchange).contains(
                    (q, key),
                ) {
                    appended(s.queues[q], s.max_queue_size, entry)
                } else {
                    s.queues[q]
                })
        }),
{
    let names = s.targets(exchange, key);
    law_targets_are_the_bound_queues(s, exchange, key);
    lemma_enqueued_all_queues(
        s.announced(names, message.message_id, received),
        names,
        (message.message_id, message),
    );
    assert forall|q: Seq<char>| #[trigger] s.queues.contains_key(q) implies s.published(
        exchange,
        key,
        message,
        received,
    ).queues[q] == (if s.bindings_of(exchange).contains((q, key)) {
        appended(s.queues[q], s.max_queue_size, (message.message_id, message))
    } else {
        s.queues[q]
    }) by {
        assert(names.contains(q) <==> s.bindings_of(exchange).contains((q, key)));
    }
}

proof fn lemma_new_message_tracked(
    s: StateModel,
    exchange: Seq<char>,
    key: Seq<char>,
    message: MessageModel,
    received: u128,
)
    requires
        s.sound(),
        !s.message_status.contains_key(message.message_id),
    ensures
        ({
            let after = s.published(exchange, key, message, received);
            let id = message.message_id;
            &&& after.message_status.contains_key(id)
            &&& after.message_status[id] == s.announced(
                s.targets(exchange, key),
                id,
                received,
            ).message_status[id]
        }),
{
    let names = s.targets(exchange, key);
    let id = message.message_id;
    let base = s.announced(names, id, received);
    lemma_announced_sound(s, exchange, key, id, received);
    lemma_enqueued_all_sound(base, names, (id, message));
    assert(base.message_status.index_opt(id) == Some(base.message_status[id]));
}

/// A consumer that registers on a queue after a message was published to it is
/// handed that message.
pub proof fn law_published_message_is_pending(
    s: StateModel,
    exchange: Seq<char>,
    key: Seq<char>,
    message: MessageModel,
    received: u128,
    queue: Seq<char>,
)
    requires
        s.sound(),
        !s.message_status.contains_key(message.message_id),
        s.bindings_of(exchange).contains((queue, key)),
    ensures
        s.published(exchange, key, message, received).pending(queue).contains(
            (message.message_id, message),
        ),
{
    let after = s.published(exchange, key, message, received);
    let entry = (message.message_id, message);
    law_targets_are_the_bound_queues(s, exchange, key);
    assert(s.targets(exchange, key).contains(queue));
    assert(s.queues.contains_key(queue));
    law_publish_appends_to_each_bound_queue(s, exchange, key, message, received);
    let held = after.queues[queue];
    assert(held.last() == entry);
    assert(held.contains(entry));
    lemma_filter_members(held, |e: QueuedModel| after.deliverable(e.0));
    lemma_new_message_tracked(s, exchange, key, message, received);
    assert(after.deliverable(message.message_id));
    assert(after.queues.dom().contains(queue));
}

/// A message that was published is refused when it is published again, until it
/// is acknowledged.
pub proof fn law_published_message_is_a_duplicate_until_acknowledged(
    s: StateModel,
    exchange: Seq<char>,
    key: Seq<char>,
    message: MessageModel,
    received: u128,
)
    requires
        s.sound(),
        !s.message_status.contains_key(message.message_id),
    ensures
        ({
            let after = s.published(exchange, key, message, received);
            &&& after.message_status.contains_key(message.message_id)
            &&& !after.acked(message.message_id).message_status.contains_key(message.message_id)
        }),
{
    lemma_new_message_tracked(s, exchange, key, message, received);
}

/// Every message that lies in a queue is tracked: it has a status, it is recorded
/// with that queue, and it lies there once.
pub proof fn law_queued_messages_are_tracked(s: StateModel, queue: Seq<char>, i: int)
    requires
        s.sound(),
        s.queues.contains_key(queue),
        0 <= i < s.queues[queue].len(),
    ensures
        s.message_status.contains_key(s.queues[queue][i].0),
        s.recorded(s.queues[queue][i].0, queue),
        forall|j: int|
            0 <= j < s.queues[queue].len() && j != i ==> (#[trigger] s.queues[queue][j]).0
                != s.queues[queue][i].0,
{
    assert(s.recorded(s.queues[queue][i].0, queue));
}

proof fn lemma_purged_not_queued(s: StateModel, ids: Set<Seq<char>>, id: Seq<char>)
    requires
        ids.contains(id),
    ensures
        !s.purged(ids).queued(id),
{
    let after = s.purged(ids);
    if after.queued(id) {
        let q = choose|q: Seq<char>| #[trigger] after.queues.contains_key(q) && in_queue(
            after.queues[q],
            id,
        );
        let held = after.queues[q];
        let i = choose|i: int| 0 <= i < held.len() && (#[trigger] held[i]).0 == id;
        lemma_filter_members(s.queues[q], |e: QueuedModel| !ids.contains(e.0));
        assert(held.contains(held[i]));
    }
}

/// A message that was acknowledged is gone from every queue, has no status and is
/// recorded with no queue. One that was tracked has no record at all.
pub proof fn law_acknowledged_message_is_in_no_queue(s: StateModel, id: Seq<char>)
    requires
        s.sound(),
    ensures
        !s.acked(id).queued(id),
        !s.acked(id).message_status.contains_key(id),
        forall|q: Seq<char>| !(#[trigger] s.acked(id).recorded(id, q)),
        s.message_status.contains_key(id) ==> !s.acked(id).message_queues.contains_key(id),
{
    if s.message_status.contains_key(id) {
        lemma_purged_not_queued(s, set![id], id);
    } else {
        if s.queued(id) {
            let q = choose|q: Seq<char>| #[trigger] s.queues.contains_key(q) && in_queue(
                s.queues[q],
                id,
            );
            let i = choose|i: int| 0 <= i < s.queues[q].len() && (#[trigger] s.queues[q][i]).0 == id;
            assert(s.recorded(s.queues[q][i].0, q));
        }
    }
}

/// Acknowledging a message leaves every other one where it was.
pub proof fn law_acknowledgement_keeps_other_messages(s: StateModel, id: Seq<char>, q: Seq<char>)
    requires
        s.queues.contains_key(q),
    ensures
        s.acked(id).queues.contains_key(q),
        s.acked(id).queues[q].filter(|e: QueuedModel| e.0 != id) == s.queues[q].filter(
            |e: QueuedModel| e.0 != id,
        ),
        forall|other: Seq<char>|
            other != id ==> s.acked(id).message_status.index_opt(other)
                == s.message_status.index_opt(other),
        forall|other: Seq<char>|
            other != id ==> s.acked(id).message_queues.index_opt(other)
                == s.message_queues.index_opt(other),
{
    let p = |e: QueuedModel| e.0 != id;
    if s.message_status.contains_key(id) {
        lemma_filter_twice(s.queues[q], |e: QueuedModel| !set![id].contains(e.0), p, p);
    }
}

/// A second acknowledgement of the same message changes nothing.
pub proof fn law_acknowledgement_is_idempotent(s: StateModel, id: Seq<char>)
    ensures
        s.acked(id).acked(id) == s.acked(id),
{
}

/// After the expired messages were purged, no message is expired, and those that
/// were lie in no queue.
pub proof fn law_cleanup_leaves_nothing_expired(s: StateModel, now: u128, max_age: u128)
    ensures
        s.purged(s.expired(now, max_age)).expired(now, max_age) == Set::<Seq<char>>::empty(),
        forall|id: Seq<char>|
            s.expired(now, max_age).contains(id) ==> !(#[trigger] s.purged(
                s.expired(now, max_age),
            ).queued(id)),
{
    let after = s.purged(s.expired(now, max_age));
    assert forall|id: Seq<char>| s.expired(now, max_age).contains(id) implies !(
    #[trigger] after.queued(id)) by {
        lemma_purged_not_queued(s, s.expired(now, max_age), id);
    }
    assert(after.expired(now, max_age) =~= Set::<Seq<char>>::empty());
}

/// A message that was never delivered, or delivered no longer ago than
/// `max_age`, is not touched by the cleanup.
pub proof fn law_cleanup_keeps_recent_messages(
    s: StateModel,
    now: u128,
    max_age: u128,
    id: Seq<char>,
)
    requires
        s.message_status.contains_key(id),
        s.message_status[id].delivered_time is None || now - s.message_status[id].delivered_time->0
            <= max_age,
    ensures
        ({
            let after = s.purged(s.expired(now, max_age));
            &&& after.message_status.contains_key(id)
            &&& after.message_status[id] == s.message_status[id]
            &&& forall|q: Seq<char>| #[trigger]
                s.queues.contains_key(q) ==> after.queues[q].filter(|e: QueuedModel| e.0 == id)
                    == s.queues[q].filter(|e: QueuedModel| e.0 == id)
        }),
{
    let ids = s.expired(now, max_age);
    let after = s.purged(ids);
    let p = |e: QueuedModel| e.0 == id;
    assert forall|q: Seq<char>| #[trigger] s.queues.contains_key(q) implies after.queues[q].filter(p)
        == s.queues[q].filter(p) by {
        lemma_filter_twice(s.queues[q], |e: QueuedModel| !ids.contains(e.0), p, p);
    }
}

/// Declaring a queue or an exchange twice, or binding twice, is the same as
/// doing it once.
pub proof fn law_declarations_are_idempotent(
    s: StateModel,
    queue: Seq<char>,
    exchange: Seq<char>,
    key: Seq<char>,
)
    ensures
        s.with_queue(queue).with_queue(queue) == s.with_queue(queue),
        s.with_exchange(exchange).with_exchange(exchange) == s.with_exchange(exchange),
        s.with_binding(queue, exchange, key).with_binding(queue, exchange, key) == s.with_binding(
            queue,
            exchange,
            key,
        ),
{
    assert(s.with_exchange(exchange).with_exchange(exchange).exchanges =~= s.with_exchange(
        exchange,
    ).exchanges);
    let bound = s.bindings_of(exchange);
    assert(bound.push((queue, key))[bound.len() as int] == (queue, key));
}

/// A binding that was made leads messages under its key to its queue.
pub proof fn law_binding_routes(
    s: StateModel,
    queue: Seq<char>,
    exchange: Seq<char>,
    key: Seq<char>,
)
    requires
        s.sound(),
        s.queues.contains_key(queue),
        s.exchanges.contains(exchange),
    ensures
        s.with_binding(queue, exchange, key).targets(exchange, key).contains(queue),
{
    let after = s.with_binding(queue, exchange, key);
    let bound = s.bindings_of(exchange);
    assert(bound.no_duplicates());
    assert(bound.push((queue, key))[bound.len() as int] == (queue, key));
    assert(after.bindings_of(exchange).no_duplicates());
    lemma_bound_queues(after.bindings_of(exchange), key);
}

/// A message that was published and is acknowledged at once is gone from every
/// queue.
pub proof fn law_publish_and_acknowledge(
    s: StateModel,
    exchange: Seq<char>,
    key: Seq<char>,
    message: MessageModel,
    received: u128,
)
    requires
        s.sound(),
        !s.message_status.contains_key(message.message_id),
    ensures
        !s.published(exchange, key, message, received).acked(message.message_id).queued(
            message.message_id,
        ),
{
    lemma_published_sound(s, exchange, key, message, received);
    law_acknowledged_message_is_in_no_queue(
        s.published(exchange, key, message, received),
        message.message_id,
    );
}

/// Messages leave a queue in the order in which they were put into it: what
/// `consume` takes is the oldest one, and the others keep their places.
pub proof fn law_consume_takes_the_oldest(s: StateModel, queue: Seq<char>, now: u128)
    requires
        s.queues.contains_key(queue),
        s.queues[queue].len() > 0,
    ensures
        s.consumed(queue, now).queues == s.queues.insert(queue, s.queues[queue].skip(1)),
{
}

impl StateModel {
    /// Whether a message lies in a queue and is still to be delivered from it.
    pub open spec fn is_pending(self, queue: Seq<char>, entry: QueuedModel) -> bool {
        self.queues.contains_key(queue) && self.queues[queue].contains(entry) && self.deliverable(
            entry.0,
        )
    }

    /// Whether publishing under a routing key pushes a message out of a full
    /// queue.
    pub open spec fn evicts(
        self,
        exchange: Seq<char>,
        key: Seq<char>,
        queue: Seq<char>,
        id: Seq<char>,
    ) -> bool {
        self.bindings_of(exchange).contains((queue, key)) && self.queues[queue].len()
            >= self.max_queue_size && self.queues[queue].len() > 0 && self.queues[queue][0].0 == id
    }
}

/// A message that is pending is what a consumer that registers is handed.
pub proof fn law_pending_messages_are_handed_out(
    s: StateModel,
    queue: Seq<char>,
    entry: QueuedModel,
)
    requires
        s.queues.contains_key(queue),
    ensures
        s.pending(queue).contains(entry) <==> s.is_pending(queue, entry),
{
    lemma_filter_members(s.queues[queue], |e: QueuedModel| s.deliverable(e.0));
}

proof fn lemma_enqueued_all_keeps_pending(
    s: StateModel,
    names: Seq<Seq<char>>,
    new: QueuedModel,
    queue: Seq<char>,
    entry: QueuedModel,
)
    requires
        s.sound(),
        names.no_duplicates(),
        forall|i: int| 0 <= i < names.len() ==> can_take(s, #[trigger] names[i], new.0),
        new.0 != entry.0,
        s.is_pending(queue, entry),
        names.contains(queue) && s.queues[queue].len() >= s.max_queue_size ==> s.queues[queue][0].0
            != entry.0,
    ensures
        s.enqueued_all(names, new).is_pending(queue, entry),
    decreases names.len(),
{
    if names.len() > 0 {
        let rest = names.drop_last();
        let name = names.last();
        let b = s.enqueued_all(rest, new);
        let a = s.enqueued_all(names, new);
        assert(rest.no_duplicates());
        assert forall|i: int| 0 <= i < rest.len() implies can_take(s, #[trigger] rest[i], new.0) by {
            assert(rest[i] == names[i]);
        }
        assert(names[names.len() - 1] == name);
        assert(names.contains(name));
        if rest.contains(queue) {
            let j = choose|j: int| 0 <= j < rest.len() && rest[j] == queue;
            assert(names[j] == queue);
        }
        lemma_enqueued_all_keeps_pending(s, rest, new, queue, entry);
        lemma_enqueued_all_sound(s, rest, new);
        assert(!rest.contains(name)) by {
            if rest.contains(name) {
                let j = choose|j: int| 0 <= j < rest.len() && rest[j] == name;
                assert(names[j] == names[names.len() - 1]);
            }
        }
        assert(b.queues[name] == s.queues[name]);
        let i = choose|i: int| 0 <= i < b.queues[queue].len() && b.queues[queue][i] == entry;
        assert(b.recorded(b.queues[queue][i].0, queue));
        if b.queues.contains_key(name) {
            let held = b.queues[name];
            let full = held.len() >= b.max_queue_size && held.len() > 0;
            if name == queue {
                if full {
                    assert(held[0].0 != entry.0);
                    assert(a.queues[queue][i - 1] == entry);
                } else {
                    assert(a.queues[queue][i] == entry);
                }
            } else if full && held[0].0 == entry.0 {
                assert(b.message_queues[entry.0].remove(name).contains(queue));
            }
        }
    }
}

/// No message is lost: one that is pending stays pending while queues, exchanges,
/// bindings and consumers come, while messages are delivered, and while others are
/// acknowledged or expire.
pub proof fn law_pending_message_stays_pending(
    s: StateModel,
    queue: Seq<char>,
    entry: QueuedModel,
    name: Seq<char>,
    exchange: Seq<char>,
    key: Seq<char>,
    consumer: u64,
    other: Seq<char>,
    ids: Set<Seq<char>>,
    now: u128,
)
    requires
        s.is_pending(queue, entry),
        other != entry.0,
        !ids.contains(entry.0),
    ensures
        s.with_queue(name).is_pending(queue, entry),
        s.with_exchange(exchange).is_pending(queue, entry),
        s.with_binding(name, exchange, key).is_pending(queue, entry),
        s.with_consumer(name, consumer).is_pending(queue, entry),
        s.delivered(other, now).is_pending(queue, entry),
        s.delivered(entry.0, now).is_pending(queue, entry),
        s.acked(other).is_pending(queue, entry),
        s.purged(ids).is_pending(queue, entry),
{
    lemma_purged_keeps_pending(s, ids, queue, entry);
    lemma_purged_keeps_pending(s, set![other], queue, entry);
}

proof fn lemma_purged_keeps_pending(
    s: StateModel,
    ids: Set<Seq<char>>,
    queue: Seq<char>,
    entry: QueuedModel,
)
    requires
        s.is_pending(queue, entry),
        !ids.contains(entry.0),
    ensures
        s.purged(ids).is_pending(queue, entry),
{
    lemma_filter_members(s.queues[queue], |e: QueuedModel| !ids.contains(e.0));
}

/// Publishing a message whose identifier is not in use keeps a pending message
/// pending in its queue, unless it pushes that message out of that queue. That
/// another queue loses it does not matter.
pub proof fn law_publishing_keeps_pending_messages(
    s: StateModel,
    queue: Seq<char>,
    entry: QueuedModel,
    exchange: Seq<char>,
    key: Seq<char>,
    message: MessageModel,
    received: u128,
)
    requires
        s.sound(),
        s.is_pending(queue, entry),
        !s.message_status.contains_key(message.message_id),
        !s.evicts(exchange, key, queue, entry.0),
    ensures
        s.published(exchange, key, message, received).is_pending(queue, entry),
{
    let names = s.targets(exchange, key);
    let id = message.message_id;
    let base = s.announced(names, id, received);
    law_targets_are_the_bound_queues(s, exchange, key);
    lemma_announced_sound(s, exchange, key, id, received);
    assert(base.is_pending(queue, entry));
    lemma_enqueued_all_keeps_pending(base, names, (id, message), queue, entry);
}

/// Consuming from another queue keeps a pending message pending, and so does
/// consuming from its own while it is not the oldest there.
pub proof fn law_consuming_keeps_pending_messages(
    s: StateModel,
    queue: Seq<char>,
    entry: QueuedModel,
    name: Seq<char>,
    now: u128,
)
    requires
        s.is_pending(queue, entry),
        name == queue ==> s.queues[queue][0] != entry,
    ensures
        s.consumed(name, now).is_pending(queue, entry),
{
    if name == queue {
        let held = s.queues[queue];
        let i = choose|i: int| 0 <= i < held.len() && held[i] == entry;
        assert(held.skip(1)[i - 1] == entry);
    }
}

/// The cleanup drops the messages that were delivered longer ago than allowed and
/// never acknowledged, and no other: those leave every queue, their status and their
/// record, and all others stay as they are, in their order.
pub proof fn law_cleanup_drops_overdue_messages_only(s: StateModel, now: u128, max_age: u128)
    ensures
        ({
            let after = s.purged(s.expired(now, max_age));
            let overdue = |id: Seq<char>|
                {
                    &&& s.message_status.contains_key(id)
                    &&& s.message_status[id].acknowledged_time is None
                    &&& s.message_status[id].delivered_time is Some
                    &&& now - s.message_status[id].delivered_time->0 > max_age
                };
            &&& forall|id: Seq<char>| #[trigger]
                s.expired(now, max_age).contains(id) <==> overdue(id)
            &&& forall|id: Seq<char>|
                #![trigger after.message_status.index_opt(id)]
                after.message_status.index_opt(id) == (if overdue(id) {
                    None
                } else {
                    s.message_status.index_opt(id)
                })
            &&& forall|id: Seq<char>|
                #![trigger after.message_queues.index_opt(id)]
                after.message_queues.index_opt(id) == (if overdue(id) {
                    None
                } else {
                    s.message_queues.index_opt(id)
                })
            &&& after.queues.dom() == s.queues.dom()
            &&& forall|q: Seq<char>| #[trigger]
                s.queues.contains_key(q) ==> after.queues[q] == s.queues[q].filter(
                    |e: QueuedModel| !overdue(e.0),
                )
            &&& after.bindings == s.bindings
            &&& after.exchanges == s.exchanges
            &&& after.consumers == s.consumers
        }),
{
    let ids = s.expired(now, max_age);
    let after = s.purged(ids);
    let overdue = |id: Seq<char>|
        {
            &&& s.message_status.contains_key(id)
            &&& s.message_status[id].acknowledged_time is None
            &&& s.message_status[id].delivered_time is Some
            &&& now - s.message_status[id].delivered_time->0 > max_age
        };
    assert forall|id: Seq<char>| #[trigger] ids.contains(id) <==> overdue(id) by {}
    assert(after.queues.dom() =~= s.queues.dom());
    assert forall|q: Seq<char>| #[trigger] s.queues.contains_key(q) implies after.queues[q]
        == s.queues[q].filter(|e: QueuedModel| !overdue(e.0)) by {
        lemma_filter_agree(
            s.queues[q],
            |e: QueuedModel| !ids.contains(e.0),
            |e: QueuedModel| !overdue(e.0),
        );
    }
}

/// Consumers that are gone are taken off their queues; all others stay, in their
/// order. A queue without consumers is no longer listed after a cleanup of all.
pub proof fn law_only_closed_consumers_are_dropped(s: StateModel, closed: Seq<u64>, queue: Seq<char>)
    requires
        s.consumers.contains_key(queue),
    ensures
        ({
            let kept = s.consumers[queue].filter(|c: u64| !closed.contains(c));
            let after = s.without_consumers(closed);
            &&& still_open(s.consumers[queue], closed) == kept
            &&& forall|c: u64| #[trigger]
                kept.contains(c) <==> s.consumers[queue].contains(c) && !closed.contains(c)
            &&& after.contains_key(queue) <==> exists|c: u64| #[trigger]
                s.consumers[queue].contains(c) && !closed.contains(c)
            &&& after.contains_key(queue) ==> after[queue] == kept
            &&& forall|q: Seq<char>| #[trigger]
                after.contains_key(q) ==> s.consumers.contains_key(q)
        }),
{
    let p = |c: u64| !closed.contains(c);
    let kept = s.consumers[queue].filter(p);
    lemma_filter_members(s.consumers[queue], p);
    lemma_filter_agree(s.consumers[queue], |id: u64| !closed.contains(id), p);
    if kept.len() > 0 {
        assert(kept.contains(kept[0]));
    }
    if exists|c: u64| #[trigger] s.consumers[queue].contains(c) && !closed.contains(c) {
        let c = choose|c: u64| #[trigger] s.consumers[queue].contains(c) && !closed.contains(c);
        assert(kept.contains(c));
    }
}

/// A consumer that registers becomes the last one of its queue, and the consumers of
/// other queues stay.
pub proof fn law_registered_consumer_is_the_last(s: StateModel, queue: Seq<char>, consumer: u64)
    ensures
        ({
            let after = s.with_consumer(queue, consumer);
            &&& after.consumers.contains_key(queue)
            &&& after.consumers[queue] == (if s.consumers.contains_key(queue) {
                s.consumers[queue] + seq![consumer]
            } else {
                seq![consumer]
            })
            &&& forall|q: Seq<char>|
                q != queue ==> after.consumers.index_opt(q) == #[trigger] s.consumers.index_opt(q)
            &&& after.queues.contains_key(queue)
        }),
{
    let after = s.with_consumer(queue, consumer);
    assert(s.consumers_of(queue).push(consumer) =~= s.consumers_of(queue) + seq![consumer]);
    assert(Seq::<u64>::empty() + seq![consumer] =~= seq![consumer]);
}

/// A delivery is noted with its time on its message alone; what else is known of it,
/// and of others, stays.
pub proof fn law_delivery_is_noted_on_its_message(s: StateModel, id: Seq<char>, now: u128)
    ensures
        ({
            let after = s.delivered(id, now);
            &&& after.message_status.dom() == s.message_status.dom()
            &&& s.message_status.contains_key(id) ==> {
                &&& after.message_status[id].delivered_time == Some(now)
                &&& after.message_status[id].sent_time == s.message_status[id].sent_time
                &&& after.message_status[id].acknowledged_time
                    == s.message_status[id].acknowledged_time
            }
            &&& forall|other: Seq<char>|
                other != id ==> after.message_status.index_opt(other)
                    == #[trigger] s.message_status.index_opt(other)
            &&& after == (StateModel { message_status: after.message_status, ..s })
        }),
{
    assert(s.delivered(id, now).message_status.dom() =~= s.message_status.dom());
}

/// Taking the oldest message off a queue leaves the rest of it, all other queues and
/// all other messages alone, and notes the delivery.
pub proof fn law_consuming_takes_one_message(s: StateModel, queue: Seq<char>, now: u128)
    requires
        s.queues.contains_key(queue),
        s.queues[queue].len() > 0,
    ensures
        ({
            let after = s.consumed(queue, now);
            let oldest = s.queues[queue][0];
            &&& s.queues[queue] == seq![oldest] + after.queues[queue]
            &&& after.queues == s.queues.insert(queue, after.queues[queue])
            &&& s.message_status.contains_key(oldest.0) ==> after.message_status
                == s.message_status.insert(
                oldest.0,
                after.message_status[oldest.0],
            ) && after.message_status[oldest.0].delivered_time == Some(now)
            &&& !s.message_status.contains_key(oldest.0) ==> after.message_status
                == s.message_status
            &&& after == (StateModel {
                queues: after.queues,
                message_status: after.message_status,
                ..s
            })
        }),
{
    assert(s.queues[queue] =~= seq![s.queues[queue][0]] + s.queues[queue].skip(1));
}

/// A list of all bindings names each binding of each exchange with the exchange, and
/// nothing else; it is as long as all bindings together.
pub proof fn law_listed_bindings_are_all_bindings(s: StateModel, order: Seq<Seq<char>>)
    requires
        order.to_set() == s.bindings.dom(),
    ensures
        forall|e: Seq<char>, q: Seq<char>, k: Seq<char>|
            #![trigger listed_bindings(s, order).contains((e, q, k))]
            listed_bindings(s, order).contains((e, q, k)) <==> s.bindings.contains_key(e)
                && s.bindings[e].contains((q, k)),
        listed_bindings(s, order).len() == order.fold_left(
            0int,
            |n: int, e: Seq<char>| n + s.bindings[e].len(),
        ),
{
    lemma_listed(s, order);
    assert forall|e: Seq<char>, q: Seq<char>, k: Seq<char>|
        #![trigger listed_bindings(s, order).contains((e, q, k))]
        listed_bindings(s, order).contains((e, q, k)) <==> s.bindings.contains_key(e)
            && s.bindings[e].contains((q, k)) by {
        assert(order.to_set().contains(e) <==> s.bindings.dom().contains(e));
        assert(order.contains(e) <==> s.bindings.contains_key(e));
    }
}

proof fn lemma_listed(s: StateModel, order: Seq<Seq<char>>)
    ensures
        forall|e: Seq<char>, q: Seq<char>, k: Seq<char>|
            #![trigger listed_bindings(s, order).contains((e, q, k))]
            listed_bindings(s, order).contains((e, q, k)) <==> order.contains(e)
                && s.bindings[e].contains((q, k)),
        listed_bindings(s, order).len() == order.fold_left(
            0int,
            |n: int, e: Seq<char>| n + s.bindings[e].len(),
        ),
    decreases order.len(),
{
    if order.len() > 0 {
        let rest = order.drop_last();
        let last = order.last();
        let before = listed_bindings(s, rest);
        let own = of_exchange(last, s.bindings[last]);
        let all = listed_bindings(s, order);
        lemma_listed(s, rest);
        assert forall|e: Seq<char>, q: Seq<char>, k: Seq<char>|
            #![trigger all.contains((e, q, k))]
            all.contains((e, q, k)) <==> order.contains(e) && s.bindings[e].contains((q, k)) by {
            if all.contains((e, q, k)) {
                let i = choose|i: int| 0 <= i < all.len() && all[i] == (e, q, k);
                if i < before.len() {
                    assert(before[i] == (e, q, k));
                    assert(before.contains((e, q, k)));
                    let j = choose|j: int| 0 <= j < rest.len() && rest[j] == e;
                    assert(order[j] == e);
                } else {
                    let j = i - before.len();
                    assert(own[j] == (e, q, k));
                    assert(s.bindings[last][j] == (q, k));
                    assert(order[order.len() - 1] == e);
                }
            }
            if order.contains(e) && s.bindings[e].contains((q, k)) {
                if e == last {
                    let j = choose|j: int|
                        0 <= j < s.bindings[e].len() && s.bindings[e][j] == (q, k);
                    assert(own[j] == (e, q, k));
                    assert(all[before.len() + j] == (e, q, k));
                } else {
                    let j = choose|j: int| 0 <= j < order.len() && order[j] == e;
                    assert(rest[j] == e);
                    assert(before.contains((e, q, k)));
                    let i = choose|i: int| 0 <= i < before.len() && before[i] == (e, q, k);
                    assert(all[i] == (e, q, k));
                }
            }
        }
    }
}

/// The tables of sizes name every queue with the number of its messages, and every
/// queue that has consumers with their number.
pub proof fn law_sizes_are_those_of_the_queues(s: StateModel, queue: Seq<char>)
    ensures
        s.queue_sizes().contains_key(queue) <==> s.queues.contains_key(queue),
        s.queues.contains_key(queue) ==> s.queue_sizes()[queue] == s.queues[queue].len(),
        s.consumer_counts().contains_key(queue) <==> s.consumers.contains_key(queue),
        s.consumers.contains_key(queue) ==> s.consumer_counts()[queue] == s.consumers[queue].len(),
{
}

proof fn lemma_enqueued_all_records(
    s: StateModel,
    names: Seq<Seq<char>>,
    entry: QueuedModel,
    id: Seq<char>,
)
    requires
        s.sound(),
        names.no_duplicates(),
        forall|i: int| 0 <= i < names.len() ==> can_take(s, #[trigger] names[i], entry.0),
        id != entry.0,
        s.message_status.contains_key(id),
        exists|q: Seq<char>| s.recorded(id, q),
    ensures
        ({
            let t = s.enqueued_all(names, entry);
            let pushes_out = |q: Seq<char>|
                names.contains(q) && s.queues.contains_key(q) && 0 < s.queues[q].len()
                    && s.max_queue_size <= s.queues[q].len() && s.queues[q][0].0 == id;
            &&& forall|q: Seq<char>| #[trigger]
                t.recorded(id, q) <==> s.recorded(id, q) && !pushes_out(q)
            &&& t.message_status.contains_key(id) <==> exists|q: Seq<char>| t.recorded(id, q)
            &&& t.message_status.contains_key(id) ==> t.message_status[id] == s.message_status[id]
        }),
    decreases names.len(),
{
    let t = s.enqueued_all(names, entry);
    let pushes_out = |q: Seq<char>|
        names.contains(q) && s.queues.contains_key(q) && 0 < s.queues[q].len() && s.max_queue_size
            <= s.queues[q].len() && s.queues[q][0].0 == id;
    if names.len() > 0 {
        let rest = names.drop_last();
        let last = names.last();
        let b = s.enqueued_all(rest, entry);
        assert forall|i: int| 0 <= i < rest.len() implies can_take(s, #[trigger] rest[i], entry.0) by {
            assert(rest[i] == names[i]);
        }
        assert(rest.no_duplicates());
        assert(!rest.contains(last)) by {
            if rest.contains(last) {
                let j = choose|j: int| 0 <= j < rest.len() && rest[j] == last;
                assert(names[j] == names[names.len() - 1]);
            }
        }
        assert(rest.push(last) =~= names);
        assert forall|q: Seq<char>| #[trigger] names.contains(q) <==> rest.contains(q) || q == last by {
            if names.contains(q) && q != last {
                let j = choose|j: int| 0 <= j < names.len() && names[j] == q;
                assert(rest[j] == q);
            }
            if rest.contains(q) {
                let j = choose|j: int| 0 <= j < rest.len() && rest[j] == q;
                assert(names[j] == q);
            }
            assert(names[names.len() - 1] == last);
        }
        lemma_enqueued_all_records(s, rest, entry, id);
        lemma_enqueued_all_sound(s, rest, entry);
        assert(b.queues[last] == s.queues[last]);
        let held = b.queues[last];
        let full = b.queues.contains_key(last) && held.len() >= b.max_queue_size && held.len() > 0;
        if full && held[0].0 == id {
            assert(b.recorded(b.queues[last][0].0, last));
            let left = b.message_queues[id].remove(last);
            assert(t.message_queues[id] == left);
            assert forall|q: Seq<char>| #[trigger] t.recorded(id, q) <==> s.recorded(id, q)
                && !pushes_out(q) by {
                assert(b.recorded(id, q) <==> b.message_queues[id].contains(q));
            }
            if exists|q: Seq<char>| t.recorded(id, q) {
                let q = choose|q: Seq<char>| t.recorded(id, q);
                assert(left.contains(q));
            } else {
                assert(left =~= Set::<Seq<char>>::empty()) by {
                    assert forall|q: Seq<char>| !left.contains(q) by {
                        assert(!t.recorded(id, q));
                    }
                }
            }
        } else {
            assert forall|q: Seq<char>| #[trigger] t.recorded(id, q) <==> s.recorded(id, q)
                && !pushes_out(q) by {
                assert(t.recorded(id, q) <==> b.recorded(id, q));
            }
            if exists|q: Seq<char>| b.recorded(id, q) {
                let q = choose|q: Seq<char>| b.recorded(id, q);
                assert(t.recorded(id, q));
            }
            if exists|q: Seq<char>| t.recorded(id, q) {
                let q = choose|q: Seq<char>| t.recorded(id, q);
                assert(b.recorded(id, q));
            }
        }
    } else {
        assert forall|q: Seq<char>| #[trigger] t.recorded(id, q) <==> s.recorded(id, q)
            && !pushes_out(q) by {}
    }
}

/// A message that a full queue loses is no longer recorded with that queue, and is no
/// longer tracked once no queue holds it: it may be published again then. As long as
/// another queue is recorded to hold it, it keeps its status.
pub proof fn law_message_pushed_out_of_every_queue_is_forgotten(
    s: StateModel,
    exchange: Seq<char>,
    key: Seq<char>,
    message: MessageModel,
    received: u128,
    id: Seq<char>,
)
    requires
        s.sound(),
        !s.message_status.contains_key(message.message_id),
        s.message_status.contains_key(id),
        exists|q: Seq<char>|
            s.message_queues.contains_key(id) && #[trigger] s.message_queues[id].contains(q),
    ensures
        ({
            let t = s.published(exchange, key, message, received);
            let pushes_out = |q: Seq<char>|
                s.bindings.contains_key(exchange) && s.bindings[exchange].contains((q, key))
                    && 0 < s.queues[q].len() && s.max_queue_size <= s.queues[q].len()
                    && s.queues[q][0].0 == id;
            &&& forall|q: Seq<char>| #[trigger]
                t.recorded(id, q) <==> s.recorded(id, q) && !pushes_out(q)
            &&& t.message_status.contains_key(id) <==> exists|q: Seq<char>| #[trigger]
                s.recorded(id, q) && !pushes_out(q)
            &&& t.message_status.contains_key(id) ==> t.message_status[id] == s.message_status[id]
        }),
{
    let names = s.targets(exchange, key);
    let new = message.message_id;
    let base = s.announced(names, new, received);
    let entry = (new, message);
    let t = s.published(exchange, key, message, received);
    law_targets_are_the_bound_queues(s, exchange, key);
    lemma_announced_sound(s, exchange, key, new, received);
    let q0 = choose|q: Seq<char>|
        s.message_queues.contains_key(id) && #[trigger] s.message_queues[id].contains(q);
    assert(base.recorded(id, q0));
    lemma_enqueued_all_records(base, names, entry, id);
    assert forall|q: Seq<char>| base.recorded(id, q) == #[trigger] s.recorded(id, q) by {}
    let pushes_out = |q: Seq<char>|
        s.bindings.contains_key(exchange) && s.bindings[exchange].contains((q, key)) && 0
            < s.queues[q].len() && s.max_queue_size <= s.queues[q].len() && s.queues[q][0].0 == id;
    assert forall|q: Seq<char>| #[trigger] t.recorded(id, q) <==> s.recorded(id, q) && !pushes_out(
        q,
    ) by {
        assert(s.recorded(id, q) == base.recorded(id, q));
        assert(names.contains(q) <==> s.bindings_of(exchange).contains((q, key)));
    }
    if t.message_status.contains_key(id) {
        let q = choose|q: Seq<char>| t.recorded(id, q);
        assert(s.recorded(id, q) && !pushes_out(q));
    }
    if exists|q: Seq<char>| #[trigger] s.recorded(id, q) && !pushes_out(q) {
        let q = choose|q: Seq<char>| #[trigger] s.recorded(id, q) && !pushes_out(q);
        assert(t.recorded(id, q));
    }
}

} // verus!
