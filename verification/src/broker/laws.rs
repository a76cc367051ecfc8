//! What the engine's operations do, told by its queues, exchanges and unanswered
//! messages before and after them.

use crate::broker::exchange::ExchangeModel;
use crate::broker::message::StatusModel;
use crate::broker::queue::{is_other, QueueModel};
use crate::broker::state::{is_stale, EngineModel, SendOutcome};
use crate::seqs::{lemma_filter_agree, lemma_filter_push};
use vstd::prelude::*;

verus! {

/// A queue or an exchange that is declared exists from then on, as it was if it
/// existed, and empty if it did not. Nothing else changes.
pub proof fn law_declared_names_exist(s: EngineModel, name: Seq<char>)
    ensures
        ({
            let after = s.with_queue(name);
            &&& after.queues == s.queues.insert(
                name,
                if s.queues.contains_key(name) {
                    s.queues[name]
                } else {
                    QueueModel { name, messages: Seq::empty(), consumers: Seq::empty() }
                },
            )
            &&& after.exchanges == s.exchanges
            &&& after.unacknowledged == s.unacknowledged
        }),
        ({
            let after = s.with_exchange(name);
            &&& after.exchanges == s.exchanges.insert(
                name,
                if s.exchanges.contains_key(name) {
                    s.exchanges[name]
                } else {
                    ExchangeModel { name, bindings: Map::empty() }
                },
            )
            &&& after.queues == s.queues
            &&& after.unacknowledged == s.unacknowledged
        }),
{
    if s.queues.contains_key(name) {
        assert(s.queues =~= s.queues.insert(name, s.queues[name]));
    }
    if s.exchanges.contains_key(name) {
        assert(s.exchanges =~= s.exchanges.insert(name, s.exchanges[name]));
    }
}

/// A binding stands behind those that the exchange has under its routing key, and
/// leaves those under other keys and of other exchanges alone. A routing key leads
/// to the queues that were bound under it, all of them in that order, and nowhere
/// where there are none.
pub proof fn law_routing_follows_the_bindings(
    s: EngineModel,
    exchange: Seq<char>,
    queue: Seq<char>,
    key: Seq<char>,
    other: Seq<char>,
)
    requires
        s.queues.contains_key(queue),
        s.exchanges.contains_key(exchange),
        other != key,
    ensures
        ({
            let before = s.exchanges[exchange].bindings;
            let after = s.with_binding(exchange, queue, key);
            let bound = if before.contains_key(key) {
                before[key]
            } else {
                Seq::empty()
            };
            &&& after.routed(exchange, key) == Ok::<Seq<Seq<char>>, Seq<char>>(bound.push(queue))
            &&& after.routed(exchange, other) == s.routed(exchange, other)
            &&& s.routed(exchange, other) is Ok <==> before.contains_key(other)
                && before[other].len() > 0
            &&& s.routed(exchange, other) is Ok ==> s.routed(exchange, other)->Ok_0
                == before[other]
            &&& forall|e: Seq<char>|
                e != exchange ==> after.exchanges.index_opt(e) == #[trigger] s.exchanges.index_opt(
                    e,
                )
            &&& after.queues == s.queues
            &&& after.unacknowledged == s.unacknowledged
        }),
{
}

/// A message on its way through its queues is filed at the end of each of them that
/// exists and has no consumer, once for each time that it is named, until one with
/// a consumer comes: the longest waiting consumer of that queue is taken out of its
/// line and asked, and only that one. No other queue changes. A message that was
/// filed waits for its acknowledgement, and the others that do go on waiting.
pub proof fn law_message_is_filed_until_a_consumer_is_met(
    s: EngineModel,
    targets: Seq<Seq<char>>,
    at: int,
    message: StatusModel,
)
    requires
        0 <= at <= targets.len(),
    ensures
        ({
            let (after, stop, asked) = s.run(targets, at, message);
            &&& at <= stop <= targets.len()
            &&& asked is None ==> stop == targets.len()
            &&& asked matches Some(c) ==> {
                &&& stop < targets.len()
                &&& s.queues.contains_key(targets[stop])
                &&& s.queues[targets[stop]].consumers.len() > 0
                &&& c == s.queues[targets[stop]].consumers[0]
            }
            &&& forall|k: int|
                at <= k < stop && s.queues.contains_key(#[trigger] targets[k])
                    ==> s.queues[targets[k]].consumers.len() == 0
            &&& after.queues.dom() == s.queues.dom()
            &&& forall|q: Seq<char>| #[trigger]
                s.queues.contains_key(q) ==> {
                    let times = targets.subrange(at, stop).filter(|t: Seq<char>| t == q).len();
                    &&& after.queues[q].name == s.queues[q].name
                    &&& after.queues[q].messages == s.queues[q].messages + Seq::new(
                        times,
                        |i: int| message,
                    )
                    &&& after.queues[q].consumers == (if asked is Some && q == targets[stop] {
                        s.queues[q].consumers.skip(1)
                    } else {
                        s.queues[q].consumers
                    })
                }
            &&& after.exchanges == s.exchanges
            &&& forall|id: u128|
                id != message.message_id ==> #[trigger] after.unacknowledged.index_opt(id)
                    == s.unacknowledged.index_opt(id)
            &&& forall|k: int|
                at <= k < stop && s.queues.contains_key(#[trigger] targets[k]) ==> {
                    &&& after.unacknowledged.contains_key(message.message_id)
                    &&& after.unacknowledged[message.message_id].1 == message
                }
        }),
    decreases targets.len() - at,
{
    let (after, stop, asked) = s.run(targets, at, message);
    if at < targets.len() {
        let name = targets[at];
        if !s.queues.contains_key(name) {
            law_message_is_filed_until_a_consumer_is_met(s, targets, at + 1, message);
        } else if s.queues[name].consumers.len() == 0 {
            let next = s.filed(name, message);
            assert(next.queues.dom() =~= s.queues.dom());
            law_message_is_filed_until_a_consumer_is_met(next, targets, at + 1, message);
            lemma_run_keeps_tracking(next, targets, at + 1, message);
            assert forall|k: int|
                at <= k < stop && s.queues.contains_key(#[trigger] targets[k]) implies s.queues[
                targets[k]].consumers.len() == 0 by {
                if k > at {
                    assert(next.queues.contains_key(targets[k]));
                }
            }
        } else {
            assert(after.queues.dom() =~= s.queues.dom());
        }
    }
    assert forall|q: Seq<char>| #[trigger] s.queues.contains_key(q) implies after.queues[q].messages
        == s.queues[q].messages + Seq::new(
        targets.subrange(at, stop).filter(|t: Seq<char>| t == q).len(),
        |i: int| message,
    ) by {
        let p = |t: Seq<char>| t == q;
        let part = targets.subrange(at, stop);
        if at == stop {
            assert(part =~= Seq::<Seq<char>>::empty());
            assert(part.filter(p) =~= Seq::<Seq<char>>::empty());
            assert(s.queues[q].messages + Seq::new(0, |i: int| message) =~= s.queues[q].messages);
        } else {
            let name = targets[at];
            let later = targets.subrange(at + 1, stop);
            assert(part =~= seq![name] + later);
            lemma_filter_cons(name, later, p);
            let times = later.filter(p).len();
            if s.queues.contains_key(name) && name == q {
                let next = s.filed(name, message);
                assert(next.queues.contains_key(q));
                assert(s.queues[q].messages.push(message) + Seq::new(times, |i: int| message)
                    =~= s.queues[q].messages + Seq::new(times + 1, |i: int| message));
            } else if s.queues.contains_key(name) {
                let next = s.filed(name, message);
                assert(next.queues.contains_key(q));
            }
        }
    }
}

proof fn lemma_filter_cons(x: Seq<char>, s: Seq<Seq<char>>, p: spec_fn(Seq<char>) -> bool)
    ensures
        (seq![x] + s).filter(p).len() == s.filter(p).len() + (if p(x) {
            1int
        } else {
            0
        }),
    decreases s.len(),
{
    if s.len() == 0 {
        assert(seq![x] + s =~= Seq::<Seq<char>>::empty().push(x));
        lemma_filter_push(Seq::<Seq<char>>::empty(), x, p);
        assert(Seq::<Seq<char>>::empty().filter(p) =~= Seq::<Seq<char>>::empty());
        assert(s =~= Seq::<Seq<char>>::empty());
    } else {
        let rest = s.drop_last();
        lemma_filter_cons(x, rest, p);
        assert(seq![x] + s =~= (seq![x] + rest).push(s.last()));
        assert(s =~= rest.push(s.last()));
        lemma_filter_push(seq![x] + rest, s.last(), p);
        lemma_filter_push(rest, s.last(), p);
    }
}

proof fn lemma_run_keeps_tracking(
    s: EngineModel,
    targets: Seq<Seq<char>>,
    at: int,
    message: StatusModel,
)
    requires
        0 <= at,
        s.unacknowledged.contains_key(message.message_id),
        s.unacknowledged[message.message_id].1 == message,
    ensures
        ({
            let after = s.run(targets, at, message).0;
            &&& after.unacknowledged.contains_key(message.message_id)
            &&& after.unacknowledged[message.message_id].1 == message
        }),
    decreases targets.len() - at,
{
    if at < targets.len() {
        if !s.queues.contains_key(targets[at]) {
            lemma_run_keeps_tracking(s, targets, at + 1, message);
        } else if s.queues[targets[at]].consumers.len() == 0 {
            lemma_run_keeps_tracking(s.filed(targets[at], message), targets, at + 1, message);
        }
    }
}

/// However offering a message to a consumer went, the message waits for its
/// acknowledgement. Where the consumer got it and wants more, it goes to the end of
/// the queue's line; where it did not get the message, that goes to the end of the
/// queue. No other queue changes, and no other message.
pub proof fn law_offer_is_settled(
    s: EngineModel,
    queue: Seq<char>,
    message: StatusModel,
    consumer: u64,
    outcome: SendOutcome,
)
    requires
        s.queues.contains_key(queue),
    ensures
        ({
            let after = s.resolved(queue, message, consumer, outcome);
            let q = s.queues[queue];
            &&& after.unacknowledged == s.unacknowledged.insert(
                message.message_id,
                (queue, message),
            )
            &&& after.queues.dom() == s.queues.dom()
            &&& forall|other: Seq<char>|
                other != queue ==> #[trigger] after.queues[other] == s.queues[other]
            &&& after.queues[queue].name == q.name
            &&& after.queues[queue].messages == (if outcome == SendOutcome::Failed {
                q.messages + seq![message]
            } else {
                q.messages
            })
            &&& after.queues[queue].consumers == (if outcome == SendOutcome::Sent {
                q.consumers + seq![consumer]
            } else {
                q.consumers
            })
            &&& after.exchanges == s.exchanges
        }),
{
    let after = s.resolved(queue, message, consumer, outcome);
    let q = s.queues[queue];
    assert(after.queues.dom() =~= s.queues.dom());
    assert(q.messages.push(message) =~= q.messages + seq![message]);
    assert(q.consumers.push(consumer) =~= q.consumers + seq![consumer]);
}

/// Fetching takes the oldest message alone off its queue, and that message waits
/// for its acknowledgement from then on.
pub proof fn law_fetch_takes_the_oldest_message_only(s: EngineModel, queue: Seq<char>)
    requires
        s.queues.contains_key(queue),
        s.queues[queue].messages.len() > 0,
    ensures
        ({
            let oldest = s.queues[queue].messages[0];
            let after = s.without_oldest(queue).tracking(queue, oldest);
            &&& s.queues[queue].messages == seq![oldest] + after.queues[queue].messages
            &&& after.queues[queue].consumers == s.queues[queue].consumers
            &&& after.queues[queue].name == s.queues[queue].name
            &&& after.queues.dom() == s.queues.dom()
            &&& forall|other: Seq<char>|
                other != queue ==> #[trigger] after.queues[other] == s.queues[other]
            &&& after.unacknowledged == s.unacknowledged.insert(
                oldest.message_id,
                (queue, oldest),
            )
            &&& after.exchanges == s.exchanges
        }),
{
    let oldest = s.queues[queue].messages[0];
    let after = s.without_oldest(queue).tracking(queue, oldest);
    assert(s.queues[queue].messages =~= seq![oldest] + s.queues[queue].messages.skip(1));
    assert(after.queues.dom() =~= s.queues.dom());
}

/// An acknowledged message leaves every queue and waits no longer; all others stay
/// in their queues, in their order, and go on waiting. Consumers and exchanges
/// stay. One that does not wait for its acknowledgement changes nothing.
pub proof fn law_acknowledged_message_leaves_alone(s: EngineModel, id: u128)
    ensures
        ({
            let after = s.acknowledged(id);
            &&& !s.unacknowledged.contains_key(id) ==> after == s
            &&& after.unacknowledged == s.unacknowledged.remove(id)
            &&& after.exchanges == s.exchanges
            &&& after.queues.dom() == s.queues.dom()
            &&& s.unacknowledged.contains_key(id) ==> forall|q: Seq<char>| #[trigger]
                s.queues.contains_key(q) ==> {
                    &&& after.queues[q].messages == s.queues[q].messages.filter(
                        |m: StatusModel| m.message_id != id,
                    )
                    &&& after.queues[q].consumers == s.queues[q].consumers
                    &&& after.queues[q].name == s.queues[q].name
                }
        }),
{
    let after = s.acknowledged(id);
    assert(after.unacknowledged =~= s.unacknowledged.remove(id));
    assert(after.queues.dom() =~= s.queues.dom());
    if s.unacknowledged.contains_key(id) {
        assert forall|q: Seq<char>| #[trigger] s.queues.contains_key(q) implies after.queues[q].messages
            == s.queues[q].messages.filter(|m: StatusModel| m.message_id != id) by {
            lemma_filter_agree(
                s.queues[q].messages,
                is_other(id),
                |m: StatusModel| m.message_id != id,
            );
        }
    }
}

/// A message is tried again as it is, with one attempt more, once it has waited for
/// more than a minute; consumers wait in line.
pub proof fn law_stale_message_is_tried_as_it_is(
    s: EngineModel,
    message: StatusModel,
    queue: Seq<char>,
    consumer: u64,
    now: i64,
)
    requires
        message.attempts < u32::MAX,
        s.queues.contains_key(queue),
        s.queues[queue].consumers.len() > 0,
    ensures
        is_stale(message, now) <==> now - message.timestamp > 60,
        ({
            let next = EngineModel::again(message);
            &&& next.attempts == message.attempts + 1
            &&& next.message_id == message.message_id
            &&& next.data == message.data
            &&& next.timestamp == message.timestamp
        }),
        ({
            let q = s.queues[queue];
            let taken = s.without_next_consumer(queue);
            &&& taken.queues == s.queues.insert(queue, taken.queues[queue])
            &&& q.consumers == seq![q.consumers[0]] + taken.queues[queue].consumers
            &&& taken.queues[queue].messages == q.messages
            &&& taken.exchanges == s.exchanges
            &&& taken.unacknowledged == s.unacknowledged
            &&& s.with_consumer(queue, consumer).queues[queue].consumers == q.consumers + seq![
                consumer,
            ]
            &&& s.with_consumer(queue, consumer).queues[queue].messages == q.messages
        }),
{
    let q = s.queues[queue];
    assert(q.consumers =~= seq![q.consumers[0]] + q.consumers.skip(1));
    assert(q.consumers.push(consumer) =~= q.consumers + seq![consumer]);
}

/// A queue or an exchange that does not exist is not bound: nothing changes.
pub proof fn law_missing_names_are_not_bound(
    s: EngineModel,
    exchange: Seq<char>,
    queue: Seq<char>,
    key: Seq<char>,
)
    requires
        !s.queues.contains_key(queue) || !s.exchanges.contains_key(exchange),
    ensures
        s.with_binding(exchange, queue, key) == s,
        !s.exchanges.contains_key(exchange) ==> s.routed(exchange, key) == Err::<
            Seq<Seq<char>>,
            Seq<char>,
        >("Exchange "@ + exchange + " not found"@),
        s.exchanges.contains_key(exchange) && !s.exchanges[exchange].bindings.contains_key(key)
            ==> s.routed(exchange, key) == Err::<Seq<Seq<char>>, Seq<char>>(
            "No queues bound for routing key "@ + key,
        ),
{
}

} // verus!
