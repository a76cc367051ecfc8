//! What the requests to the broker without roles do, told by its queues, bindings,
//! consumers and message times before and after them.

use crate::basic::server::StepModel;
use crate::basic::state::{is_other, MessageModel, QueuedModel, StateModel};
use crate::protocol::{is_word, lemma_three_pieces, lemma_two_pieces};
use crate::seqs::{lemma_filter_agree, lemma_filter_push};
use crate::state::MessageStatus;
use crate::state_model::bound_queues;
use vstd::prelude::*;

verus! {

/// The commands have different names.
proof fn lemma_commands_are_distinct()
    ensures
        "declare_exchange"@ != "declare_queue"@,
        "bind"@ != "declare_queue"@,
        "bind"@ != "declare_exchange"@,
        "publish"@ != "declare_queue"@,
        "publish"@ != "declare_exchange"@,
        "publish"@ != "bind"@,
        "publish_batch"@ != "declare_queue"@,
        "publish_batch"@ != "declare_exchange"@,
        "publish_batch"@ != "bind"@,
        "publish_batch"@ != "publish"@,
        "consume"@ != "declare_queue"@,
        "consume"@ != "declare_exchange"@,
        "consume"@ != "bind"@,
        "consume"@ != "publish"@,
        "consume"@ != "publish_batch"@,
        "fetch"@ != "declare_queue"@,
        "fetch"@ != "declare_exchange"@,
        "fetch"@ != "bind"@,
        "fetch"@ != "publish"@,
        "fetch"@ != "publish_batch"@,
        "fetch"@ != "consume"@,
        "ack"@ != "declare_queue"@,
        "ack"@ != "declare_exchange"@,
        "ack"@ != "bind"@,
        "ack"@ != "publish"@,
        "ack"@ != "publish_batch"@,
        "ack"@ != "consume"@,
        "ack"@ != "fetch"@,
        "resend"@ != "declare_queue"@,
        "resend"@ != "declare_exchange"@,
        "resend"@ != "bind"@,
        "resend"@ != "publish"@,
        "resend"@ != "publish_batch"@,
        "resend"@ != "consume"@,
        "resend"@ != "fetch"@,
        "resend"@ != "ack"@,
        "register_public_key"@ != "declare_queue"@,
        "register_public_key"@ != "declare_exchange"@,
        "register_public_key"@ != "bind"@,
        "register_public_key"@ != "publish"@,
        "register_public_key"@ != "publish_batch"@,
        "register_public_key"@ != "consume"@,
        "register_public_key"@ != "fetch"@,
        "register_public_key"@ != "ack"@,
        "register_public_key"@ != "resend"@,
        "get_public_key"@ != "declare_queue"@,
        "get_public_key"@ != "declare_exchange"@,
        "get_public_key"@ != "bind"@,
        "get_public_key"@ != "publish"@,
        "get_public_key"@ != "publish_batch"@,
        "get_public_key"@ != "consume"@,
        "get_public_key"@ != "fetch"@,
        "get_public_key"@ != "ack"@,
        "get_public_key"@ != "resend"@,
        "get_public_key"@ != "register_public_key"@,
{
    reveal_strlit("declare_queue");
    reveal_strlit("declare_exchange");
    reveal_strlit("bind");
    reveal_strlit("publish");
    reveal_strlit("publish_batch");
    reveal_strlit("consume");
    reveal_strlit("fetch");
    reveal_strlit("ack");
    reveal_strlit("resend");
    reveal_strlit("register_public_key");
    reveal_strlit("get_public_key");
    assert("declare_queue"@.len() == 13);
    assert("declare_exchange"@.len() == 16);
    assert("bind"@.len() == 4);
    assert("publish"@.len() == 7);
    assert("publish_batch"@.len() == 13);
    assert("consume"@.len() == 7);
    assert("fetch"@.len() == 5);
    assert("ack"@.len() == 3);
    assert("resend"@.len() == 6);
    assert("register_public_key"@.len() == 19);
    assert("get_public_key"@.len() == 14);
    assert("publish"@[0] == 'p');
    assert("consume"@[0] == 'c');
    assert("publish_batch"@[0] == 'p');
    assert("declare_queue"@[0] == 'd');
}

/// The commands are words.
proof fn lemma_commands_are_words()
    ensures
        is_word("declare_queue"@),
        is_word("declare_exchange"@),
        is_word("bind"@),
        is_word("publish"@),
        is_word("publish_batch"@),
        is_word("consume"@),
        is_word("fetch"@),
        is_word("ack"@),
        is_word("resend"@),
        is_word("register_public_key"@),
        is_word("get_public_key"@),
{
    reveal_strlit("declare_queue");
    reveal_strlit("declare_exchange");
    reveal_strlit("bind");
    reveal_strlit("publish");
    reveal_strlit("publish_batch");
    reveal_strlit("consume");
    reveal_strlit("fetch");
    reveal_strlit("ack");
    reveal_strlit("resend");
    reveal_strlit("register_public_key");
    reveal_strlit("get_public_key");
}

/// A request to fetch from a queue that holds messages is answered with the oldest
/// of them. That one alone leaves the queue, and is noted as delivered now where
/// it is tracked; all others stay where they are, and so does all else.
pub proof fn law_fetch_takes_the_oldest_message_only(
    s: StateModel,
    consumer: u64,
    queue: Seq<char>,
    now: u128,
)
    requires
        queue.len() > 0,
        s.queues.contains_key(queue),
        s.queues[queue].len() > 0,
    ensures
        ({
            let (after, step) = s.requested(consumer, "fetch"@ + " "@ + queue, now);
            let oldest = s.queues[queue][0];
            let tracked_before = s.message_status.contains_key(oldest.0);
            &&& step == StepModel::Send { entry: oldest, known: tracked_before }
            &&& after.queues.dom() == s.queues.dom()
            &&& s.queues[queue] == seq![oldest] + after.queues[queue]
            &&& forall|q: Seq<char>|
                q != queue && #[trigger] s.queues.contains_key(q) ==> after.queues[q]
                    == s.queues[q]
            &&& forall|id: Seq<char>|
                id != oldest.0 ==> after.message_status.index_opt(id)
                    == #[trigger] s.message_status.index_opt(id)
            &&& after.message_status.contains_key(oldest.0) <==> tracked_before
            &&& tracked_before ==> {
                let before = s.message_status[oldest.0];
                let noted = after.message_status[oldest.0];
                &&& noted.delivered_time == Some(now)
                &&& noted.sent_time == before.sent_time
                &&& noted.acknowledged_time == before.acknowledged_time
            }
            &&& after.bindings == s.bindings
            &&& after.exchanges == s.exchanges
            &&& after.consumers == s.consumers
            &&& after.connected_clients == s.connected_clients
        }),
{
    lemma_commands_are_distinct();
    lemma_commands_are_words();
    lemma_two_pieces("fetch"@, queue);
    let after = s.requested(consumer, "fetch"@ + " "@ + queue, now).0;
    assert(s.queues[queue] =~= seq![s.queues[queue][0]] + s.queues[queue].skip(1));
    assert(after.queues.dom() =~= s.queues.dom());
}

/// Fetching again and again from a queue gives its messages one after the other,
/// in the order in which they lie there: the second request gives the second
/// message.
pub proof fn law_fetches_go_through_the_queue_in_order(
    s: StateModel,
    first: u64,
    second: u64,
    queue: Seq<char>,
    now: u128,
    later: u128,
)
    requires
        queue.len() > 0,
        s.queues.contains_key(queue),
        s.queues[queue].len() >= 2,
    ensures
        ({
            let (between, one) = s.requested(first, "fetch"@ + " "@ + queue, now);
            let (after, two) = between.requested(second, "fetch"@ + " "@ + queue, later);
            &&& one matches StepModel::Send { entry, known } && entry == s.queues[queue][0]
            &&& two matches StepModel::Send { entry, known } && entry == s.queues[queue][1]
            &&& after.queues == s.queues.insert(queue, s.queues[queue].skip(2))
        }),
{
    let between = s.requested(first, "fetch"@ + " "@ + queue, now).0;
    law_fetch_takes_the_oldest_message_only(s, first, queue, now);
    assert(between.queues.contains_key(queue));
    assert(s.queues[queue][1] == between.queues[queue][0]);
    law_fetch_takes_the_oldest_message_only(between, second, queue, later);
    let after = between.requested(second, "fetch"@ + " "@ + queue, later).0;
    assert(after.queues[queue] =~= s.queues[queue].skip(2));
    assert forall|q: Seq<char>| #[trigger] s.queues.contains_key(q) && q != queue implies after.queues[q]
        == s.queues[q] by {
        assert(between.queues.contains_key(q));
    }
    assert(after.queues =~= s.queues.insert(queue, s.queues[queue].skip(2)));
}

/// A request to fetch from a queue that is empty or does not exist changes
/// nothing.
pub proof fn law_fetch_from_an_empty_queue_changes_nothing(
    s: StateModel,
    consumer: u64,
    queue: Seq<char>,
    now: u128,
)
    requires
        queue.len() > 0,
        s.queues.contains_key(queue) ==> s.queues[queue].len() == 0,
    ensures
        s.requested(consumer, "fetch"@ + " "@ + queue, now) == (
            s,
            StepModel::Reply("No messages\n"@),
        ),
{
    lemma_commands_are_distinct();
    lemma_commands_are_words();
    lemma_two_pieces("fetch"@, queue);
}

/// An acknowledged message leaves every queue and has no status any more; all
/// other messages stay in their queues, in their order, with their statuses. One
/// that is not tracked changes nothing, and is confirmed all the same.
pub proof fn law_acknowledged_message_leaves_alone(
    s: StateModel,
    consumer: u64,
    id: Seq<char>,
    now: u128,
)
    requires
        id.len() > 0,
    ensures
        ({
            let (after, step) = s.requested(consumer, "ack"@ + " "@ + id, now);
            let known = s.message_status.contains_key(id);
            &&& step == StepModel::Acknowledged {
                message_id: id,
                known,
                reply: "ACK_CONFIRMED "@ + id + "\n"@,
            }
            &&& !known ==> after == s
            &&& known ==> {
                &&& after.queues.dom() == s.queues.dom()
                &&& forall|q: Seq<char>| #[trigger]
                    s.queues.contains_key(q) ==> after.queues[q] == s.queues[q].filter(
                        |e: QueuedModel| e.0 != id,
                    )
            }
            &&& after.message_status == s.message_status.remove(id)
            &&& after.bindings == s.bindings
            &&& after.exchanges == s.exchanges
            &&& after.consumers == s.consumers
            &&& after.connected_clients == s.connected_clients
        }),
{
    lemma_commands_are_distinct();
    lemma_commands_are_words();
    lemma_two_pieces("ack"@, id);
    let after = s.requested(consumer, "ack"@ + " "@ + id, now).0;
    assert(after.message_status =~= s.message_status.remove(id));
    if s.message_status.contains_key(id) {
        assert(after.queues.dom() =~= s.queues.dom());
        assert forall|q: Seq<char>| #[trigger] s.queues.contains_key(q) implies after.queues[q]
            == s.queues[q].filter(|e: QueuedModel| e.0 != id) by {
            lemma_filter_agree(s.queues[q], is_other(id), |e: QueuedModel| e.0 != id);
        }
    }
}

/// A client that subscribes to a queue becomes its last consumer, and the queue
/// exists from then on; what it holds stays, and so does all else.
pub proof fn law_subscriber_becomes_the_last_consumer(
    s: StateModel,
    consumer: u64,
    queue: Seq<char>,
    now: u128,
)
    requires
        queue.len() > 0,
    ensures
        ({
            let (after, step) = s.requested(consumer, "consume"@ + " "@ + queue, now);
            &&& step == StepModel::Reply("Subscribed to queue\n"@)
            &&& after.consumers == s.consumers.insert(
                queue,
                (if s.consumers.contains_key(queue) {
                    s.consumers[queue]
                } else {
                    Seq::empty()
                }).push(consumer),
            )
            &&& after.queues == s.queues.insert(
                queue,
                if s.queues.contains_key(queue) {
                    s.queues[queue]
                } else {
                    Seq::empty()
                },
            )
            &&& after == (StateModel {
                queues: after.queues,
                consumers: after.consumers,
                ..s
            })
        }),
{
    lemma_commands_are_distinct();
    lemma_commands_are_words();
    lemma_two_pieces("consume"@, queue);
    let after = s.requested(consumer, "consume"@ + " "@ + queue, now).0;
    if s.queues.contains_key(queue) {
        assert(after.queues =~= s.queues.insert(queue, s.queues[queue]));
    }
}

/// A queue or an exchange that is declared exists from then on; a queue keeps what
/// it held. Nothing else changes.
pub proof fn law_declared_names_exist(s: StateModel, consumer: u64, name: Seq<char>, now: u128)
    requires
        name.len() > 0,
    ensures
        ({
            let (after, step) = s.requested(consumer, "declare_queue"@ + " "@ + name, now);
            &&& step == StepModel::Reply("Queue declared\n"@)
            &&& after.queues == s.queues.insert(
                name,
                if s.queues.contains_key(name) {
                    s.queues[name]
                } else {
                    Seq::empty()
                },
            )
            &&& after == (StateModel { queues: after.queues, ..s })
        }),
        ({
            let (after, step) = s.requested(consumer, "declare_exchange"@ + " "@ + name, now);
            &&& step == StepModel::Reply("Exchange declared\n"@)
            &&& forall|e: Seq<char>| #[trigger]
                after.exchanges.contains(e) <==> s.exchanges.contains(e) || e == name
            &&& after == (StateModel { exchanges: after.exchanges, ..s })
        }),
{
    lemma_commands_are_distinct();
    lemma_commands_are_words();
    lemma_two_pieces("declare_queue"@, name);
    lemma_two_pieces("declare_exchange"@, name);
    let after = s.requested(consumer, "declare_queue"@ + " "@ + name, now).0;
    if s.queues.contains_key(name) {
        assert(after.queues =~= s.queues.insert(name, s.queues[name]));
    }
}

/// A binding that is asked for stands behind those that the exchange has, where the
/// queue and the exchange exist. Nothing else changes.
pub proof fn law_bind_adds_one_binding(
    s: StateModel,
    consumer: u64,
    queue: Seq<char>,
    exchange: Seq<char>,
    key: Seq<char>,
    now: u128,
)
    requires
        is_word(queue),
        is_word(exchange),
    ensures
        ({
            let arguments = queue + " "@ + (exchange + " "@ + key);
            let (after, step) = s.requested(consumer, "bind"@ + " "@ + arguments, now);
            let made = s.queues.contains_key(queue) && s.exchanges.contains(exchange);
            &&& step == StepModel::Reply("Queue bound\n"@)
            &&& made && s.bindings.contains_key(exchange) ==> after.bindings == s.bindings.insert(
                exchange,
                s.bindings[exchange].push((queue, key)),
            )
            &&& made && !s.bindings.contains_key(exchange) ==> after.bindings == s.bindings.insert(
                exchange,
                seq![(queue, key)],
            )
            &&& !made ==> after.bindings == s.bindings
            &&& after == (StateModel { bindings: after.bindings, ..s })
        }),
{
    lemma_commands_are_distinct();
    lemma_commands_are_words();
    lemma_two_pieces("bind"@, queue + " "@ + (exchange + " "@ + key));
    lemma_three_pieces(queue, exchange, key);
    assert(Seq::<(Seq<char>, Seq<char>)>::empty().push((queue, key)) =~= seq![(queue, key)]);
}

/// The requests that publish are read whole and change nothing yet, and those that
/// look something up hand on what they name.
pub proof fn law_other_requests_hand_on_their_arguments(
    s: StateModel,
    consumer: u64,
    exchange: Seq<char>,
    key: Seq<char>,
    rest: Seq<char>,
    now: u128,
)
    requires
        is_word(exchange),
        is_word(key),
        rest.len() > 0,
    ensures
        s.requested(consumer, "publish"@ + " "@ + (exchange + " "@ + (key + " "@ + rest)), now) == (
            s,
            StepModel::Publish { exchange, routing_key: key, json: rest },
        ),
        s.requested(
            consumer,
            "publish_batch"@ + " "@ + (exchange + " "@ + (key + " "@ + rest)),
            now,
        ) == (s, StepModel::PublishBatch { exchange, routing_key: key, json: rest }),
        s.requested(consumer, "resend"@ + " "@ + rest, now) == (s, StepModel::FindSender(rest)),
        s.requested(consumer, "register_public_key"@ + " "@ + rest, now) == (
            s,
            StepModel::SaveKey(rest),
        ),
        s.requested(consumer, "get_public_key"@ + " "@ + rest, now) == (
            s,
            StepModel::FindKey(rest),
        ),
{
    lemma_commands_are_distinct();
    lemma_commands_are_words();
    lemma_three_pieces(exchange, key, rest);
    lemma_two_pieces("publish"@, exchange + " "@ + (key + " "@ + rest));
    lemma_two_pieces("publish_batch"@, exchange + " "@ + (key + " "@ + rest));
    lemma_two_pieces("resend"@, rest);
    lemma_two_pieces("register_public_key"@, rest);
    lemma_two_pieces("get_public_key"@, rest);
}

/// A queue comes as often among those of a routing key as it is bound under it.
proof fn lemma_bound_as_often(
    bindings: Seq<(Seq<char>, Seq<char>)>,
    key: Seq<char>,
    queue: Seq<char>,
)
    ensures
        bound_queues(bindings, key).filter(|q: Seq<char>| q == queue).len() == bindings.filter(
            |b: (Seq<char>, Seq<char>)| b == (queue, key),
        ).len(),
    decreases bindings.len(),
{
    let p = |q: Seq<char>| q == queue;
    let r = |b: (Seq<char>, Seq<char>)| b == (queue, key);
    if bindings.len() == 0 {
        assert(bound_queues(bindings, key).filter(p) =~= Seq::<Seq<char>>::empty());
        assert(bindings.filter(r) =~= Seq::<(Seq<char>, Seq<char>)>::empty());
    } else {
        let rest = bindings.drop_last();
        lemma_bound_as_often(rest, key, queue);
        lemma_filter_push(rest, bindings.last(), r);
        assert(rest.push(bindings.last()) =~= bindings);
        lemma_filter_push(bound_queues(rest, key), bindings.last().0, p);
    }
}

proof fn lemma_enqueued_as_often(
    s: StateModel,
    names: Seq<Seq<char>>,
    entry: QueuedModel,
    queue: Seq<char>,
)
    requires
        s.queues.contains_key(queue),
    ensures
        ({
            let after = s.enqueued_all(names, entry);
            let times = names.filter(|q: Seq<char>| q == queue).len();
            &&& after.queues.contains_key(queue)
            &&& after.queues[queue] == s.queues[queue] + Seq::new(times, |i: int| entry)
        }),
    decreases names.len(),
{
    let p = |q: Seq<char>| q == queue;
    if names.len() == 0 {
        assert(names.filter(p) =~= Seq::<Seq<char>>::empty());
        assert(s.queues[queue] =~= s.queues[queue] + Seq::new(0, |i: int| entry));
    } else {
        let rest = names.drop_last();
        lemma_enqueued_as_often(s, rest, entry, queue);
        lemma_filter_push(rest, names.last(), p);
        assert(rest.push(names.last()) =~= names);
        let times = rest.filter(p).len();
        assert((s.queues[queue] + Seq::new(times, |i: int| entry)).push(entry) =~= s.queues[queue]
            + Seq::new(times + 1, |i: int| entry));
    }
}

proof fn lemma_enqueued_all_keeps(s: StateModel, names: Seq<Seq<char>>, entry: QueuedModel)
    ensures
        ({
            let after = s.enqueued_all(names, entry);
            &&& after.queues.dom() == s.queues.dom()
            &&& after == (StateModel { queues: after.queues, ..s })
        }),
    decreases names.len(),
{
    if names.len() > 0 {
        let rest = names.drop_last();
        lemma_enqueued_all_keeps(s, rest, entry);
        assert(s.enqueued_all(names, entry).queues.dom() =~= s.queues.dom());
    }
}

/// A published message stands behind all that a queue held, once for each binding
/// of that queue to the exchange under the routing key; queues without such a
/// binding stay as they are. The message is tracked from then on as received now,
/// neither delivered nor acknowledged; nothing else changes.
pub proof fn law_published_message_stands_last_in_the_bound_queues(
    s: StateModel,
    exchange: Seq<char>,
    key: Seq<char>,
    message: MessageModel,
    now: u128,
)
    ensures
        ({
            let after = s.published(exchange, key, message, now);
            let bound = if s.bindings.contains_key(exchange) {
                s.bindings[exchange]
            } else {
                Seq::empty()
            };
            &&& after.queues.dom() == s.queues.dom()
            &&& forall|q: Seq<char>| #[trigger]
                s.queues.contains_key(q) ==> after.queues[q] == s.queues[q] + Seq::new(
                    bound.filter(|b: (Seq<char>, Seq<char>)| b == (q, key)).len(),
                    |i: int| (message.message_id, message),
                )
            &&& after.message_status == s.message_status.insert(
                message.message_id,
                MessageStatus {
                    sent_time: Some(now),
                    delivered_time: None,
                    acknowledged_time: None,
                },
            )
            &&& after == (StateModel {
                queues: after.queues,
                message_status: after.message_status,
                ..s
            })
        }),
{
    let after = s.published(exchange, key, message, now);
    let names = s.targets(exchange, key);
    let entry = (message.message_id, message);
    let bound = s.bindings_of(exchange);
    lemma_enqueued_all_keeps(s, names, entry);
    assert forall|q: Seq<char>| #[trigger] s.queues.contains_key(q) implies after.queues[q]
        == s.queues[q] + Seq::new(
        bound.filter(|b: (Seq<char>, Seq<char>)| b == (q, key)).len(),
        |i: int| entry,
    ) by {
        lemma_enqueued_as_often(s, names, entry, q);
        lemma_bound_as_often(bound, key, q);
    }
}

proof fn lemma_notices(s: StateModel, names: Seq<Seq<char>>, queue: Seq<char>)
    ensures
        ({
            let told = s.notices(names);
            let times = told.filter(|t: (Seq<char>, Seq<u64>)| t.0 == queue).len();
            &&& forall|i: int|
                0 <= i < told.len() ==> {
                    &&& s.queues.contains_key((#[trigger] told[i]).0)
                    &&& s.consumers.contains_key(told[i].0)
                    &&& told[i].1 == s.consumers[told[i].0]
                }
            &&& times == (if s.queues.contains_key(queue) && s.consumers.contains_key(queue) {
                names.filter(|q: Seq<char>| q == queue).len()
            } else {
                0
            })
        }),
    decreases names.len(),
{
    let p = |q: Seq<char>| q == queue;
    let r = |t: (Seq<char>, Seq<u64>)| t.0 == queue;
    if names.len() == 0 {
        assert(names.filter(p) =~= Seq::<Seq<char>>::empty());
        assert(s.notices(names).filter(r) =~= Seq::<(Seq<char>, Seq<u64>)>::empty());
    } else {
        let rest = names.drop_last();
        let name = names.last();
        lemma_notices(s, rest, queue);
        lemma_filter_push(rest, name, p);
        assert(rest.push(name) =~= names);
        lemma_filter_push(s.notices(rest), (name, s.consumers[name]), r);
        let before = s.notices(rest);
        let told = s.notices(names);
        assert forall|i: int| 0 <= i < told.len() implies {
            &&& s.queues.contains_key((#[trigger] told[i]).0)
            &&& s.consumers.contains_key(told[i].0)
            &&& told[i].1 == s.consumers[told[i].0]
        } by {
            if i < before.len() {
                assert(told[i] == before[i]);
            }
        }
    }
}

/// A message that is published is announced to all consumers of every queue that
/// is bound to the exchange under its routing key, once for each binding, and to
/// nobody else.
pub proof fn law_every_consumer_of_a_bound_queue_is_told(
    s: StateModel,
    exchange: Seq<char>,
    key: Seq<char>,
    queue: Seq<char>,
)
    ensures
        ({
            let told = s.notices(s.targets(exchange, key));
            let bound = if s.bindings.contains_key(exchange) {
                s.bindings[exchange]
            } else {
                Seq::empty()
            };
            &&& told.filter(|t: (Seq<char>, Seq<u64>)| t.0 == queue).len() == (
            if s.queues.contains_key(queue) && s.consumers.contains_key(queue) {
                bound.filter(|b: (Seq<char>, Seq<char>)| b == (queue, key)).len()
            } else {
                0
            })
            &&& forall|i: int|
                0 <= i < told.len() ==> {
                    &&& s.consumers.contains_key((#[trigger] told[i]).0)
                    &&& told[i].1 == s.consumers[told[i].0]
                }
        }),
{
    lemma_notices(s, s.targets(exchange, key), queue);
    lemma_bound_as_often(s.bindings_of(exchange), key, queue);
}

} // verus!
