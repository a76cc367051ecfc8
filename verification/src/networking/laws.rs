//! What the requests of the plain-text protocol say and do, told by their texts and
//! by the engine's queues before and after them.

use crate::broker::state::EngineModel;
use crate::networking::client_handler::{handled, Reaction};
use crate::networking::protocol_parser::{meaning, RequestModel};
use crate::protocol::{is_word, lemma_first_blank};
use crate::text::pieces;
use vstd::prelude::*;

verus! {

/// A word without blanks is one piece.
proof fn lemma_one_piece(a: Seq<char>, n: nat)
    requires
        n >= 1,
        is_word(a),
    ensures
        pieces(a, n) == seq![a],
{
    crate::text::lemma_first_at_bounds(a, ' ');
    let at = crate::text::first_at(a, ' ');
    if at < a.len() {
        assert(a[at] == ' ');
        assert(crate::text::is_space(' '));
    }
}

/// A word is cut off from what stands behind it, which is cut further.
proof fn lemma_word_first(a: Seq<char>, rest: Seq<char>, n: nat)
    requires
        n >= 2,
        is_word(a),
    ensures
        pieces(a + " "@ + rest, n) == seq![a] + pieces(rest, (n - 1) as nat),
{
    lemma_first_blank(a, rest);
    reveal_strlit(" ");
    assert(crate::text::first_at(a + " "@ + rest, ' ') < (a + " "@ + rest).len());
}

/// A request is understood by its words: a queue or an exchange to declare, a binding,
/// a message to publish, a queue to consume or to fetch from, a message to acknowledge.
pub proof fn law_requests_are_understood(
    exchange: Seq<char>,
    queue: Seq<char>,
    key: Seq<char>,
    json: Seq<char>,
)
    requires
        is_word(exchange),
        is_word(queue),
        is_word(key),
        json.len() > 0,
    ensures
        meaning(pieces("DECLARE"@ + " "@ + ("QUEUE"@ + " "@ + queue), 4))
            == RequestModel::DeclareQueue(queue),
        meaning(pieces("DECLARE"@ + " "@ + ("EXCHANGE"@ + " "@ + exchange), 4))
            == RequestModel::DeclareExchange(exchange),
        meaning(pieces("BIND"@ + " "@ + (exchange + " "@ + (queue + " "@ + key)), 4)) == (
        RequestModel::Bind { exchange_name: exchange, queue_name: queue, routing_key: key }),
        meaning(pieces("PUBLISH"@ + " "@ + (exchange + " "@ + (key + " "@ + json)), 4)) == (
        RequestModel::PublishJson { exchange_name: exchange, routing_key: key, json }),
        meaning(pieces("CONSUME"@ + " "@ + queue, 4)) == RequestModel::Consume(queue),
        meaning(pieces("FETCH"@ + " "@ + queue, 4)) == RequestModel::Fetch(queue),
        meaning(pieces("ACK"@ + " "@ + queue, 4)) == RequestModel::Ack(queue),
{
    reveal_strlit("DECLARE");
    reveal_strlit("QUEUE");
    reveal_strlit("EXCHANGE");
    reveal_strlit("BIND");
    reveal_strlit("PUBLISH");
    reveal_strlit("CONSUME");
    reveal_strlit("FETCH");
    reveal_strlit("ACK");
    assert("DECLARE"@[0] == 'D' && "DECLARE"@.len() == 7);
    assert("PUBLISH"@[0] == 'P' && "PUBLISH"@.len() == 7);
    assert("CONSUME"@[0] == 'C' && "CONSUME"@.len() == 7);
    assert("BIND"@.len() == 4);
    assert("FETCH"@.len() == 5 && "FETCH"@[0] == 'F');
    assert("QUEUE"@.len() == 5 && "QUEUE"@[0] == 'Q');
    assert("EXCHANGE"@.len() == 8);
    assert("ACK"@.len() == 3);
    assert(is_word("DECLARE"@));
    assert(is_word("QUEUE"@));
    assert(is_word("EXCHANGE"@));
    assert(is_word("BIND"@));
    assert(is_word("PUBLISH"@));
    assert(is_word("CONSUME"@));
    assert(is_word("FETCH"@));
    assert(is_word("ACK"@));
    lemma_one_piece(queue, 2);
    lemma_one_piece(queue, 3);
    lemma_one_piece(exchange, 2);
    lemma_word_first("QUEUE"@, queue, 3);
    lemma_word_first("DECLARE"@, "QUEUE"@ + " "@ + queue, 4);
    lemma_word_first("EXCHANGE"@, exchange, 3);
    lemma_word_first("DECLARE"@, "EXCHANGE"@ + " "@ + exchange, 4);
    lemma_word_first(queue, key, 2);
    lemma_word_first(exchange, queue + " "@ + key, 3);
    lemma_word_first("BIND"@, exchange + " "@ + (queue + " "@ + key), 4);
    lemma_word_first(key, json, 2);
    lemma_word_first(exchange, key + " "@ + json, 3);
    lemma_word_first("PUBLISH"@, exchange + " "@ + (key + " "@ + json), 4);
    lemma_word_first("CONSUME"@, queue, 4);
    lemma_word_first("FETCH"@, queue, 4);
    lemma_word_first("ACK"@, queue, 4);
    assert(pieces(key, 1) == seq![key]);
    assert(pieces(json, 1) == seq![json]);
}

/// A request to fetch is answered with the oldest message of its queue, which alone
/// leaves the queue and waits for its acknowledgement; where there is none, nothing
/// changes.
pub proof fn law_fetch_takes_the_oldest_message_only(
    before: EngineModel,
    after: EngineModel,
    r: Reaction,
    queue: Seq<char>,
    consumer: u64,
    timestamp: i64,
)
    requires
        handled(before, after, r, RequestModel::Fetch(queue), consumer, timestamp),
    ensures
        before.queues.contains_key(queue) && before.queues[queue].messages.len() > 0 ==> {
            let oldest = before.queues[queue].messages[0];
            &&& r matches Reaction::Send(m) && m.deep_view() == oldest
            &&& before.queues[queue].messages == seq![oldest] + after.queues[queue].messages
            &&& after.queues == before.queues.insert(queue, after.queues[queue])
            &&& after.queues[queue].consumers == before.queues[queue].consumers
            &&& after.unacknowledged == before.unacknowledged.insert(
                oldest.message_id,
                (queue, oldest),
            )
            &&& after.exchanges == before.exchanges
        },
        !(before.queues.contains_key(queue) && before.queues[queue].messages.len() > 0) ==> after
            == before && (r matches Reaction::Reply(t) && t@ == "No messages\n"@),
{
    if before.queues.contains_key(queue) && before.queues[queue].messages.len() > 0 {
        let held = before.queues[queue].messages;
        assert(held =~= seq![held[0]] + held.skip(1));
    }
}

/// A client that wants to consume a queue is offered its oldest message first, where
/// there is one, which then leaves the queue alone; where there is none, it waits at
/// the end of the queue's line.
pub proof fn law_consumer_is_offered_the_oldest_message(
    before: EngineModel,
    after: EngineModel,
    r: Reaction,
    queue: Seq<char>,
    consumer: u64,
    timestamp: i64,
)
    requires
        handled(before, after, r, RequestModel::Consume(queue), consumer, timestamp),
        before.queues.contains_key(queue),
    ensures
        after.queues == before.queues.insert(queue, after.queues[queue]),
        after.exchanges == before.exchanges,
        after.unacknowledged == before.unacknowledged,
        before.queues[queue].messages.len() > 0 ==> {
            &&& r matches Reaction::Offer { queue_name, message } && queue_name@ == queue
                && message.deep_view() == before.queues[queue].messages[0]
            &&& before.queues[queue].messages == seq![before.queues[queue].messages[0]]
                + after.queues[queue].messages
            &&& after.queues[queue].consumers == before.queues[queue].consumers
        },
        before.queues[queue].messages.len() == 0 ==> {
            &&& r matches Reaction::Reply(t) && t@ == "Subscribed to queue\n"@
            &&& after.queues[queue].messages == before.queues[queue].messages
            &&& after.queues[queue].consumers == before.queues[queue].consumers + seq![consumer]
        },
{
    let q = before.queues[queue];
    if q.messages.len() > 0 {
        assert(q.messages =~= seq![q.messages[0]] + q.messages.skip(1));
    }
    assert(q.consumers.push(consumer) =~= q.consumers + seq![consumer]);
}

/// A request to publish names all queues that were bound under its routing key, in
/// their order, and hands on the message's text; the state changes only as the message
/// then goes through its queues.
pub proof fn law_publish_goes_to_all_bound_queues(
    before: EngineModel,
    after: EngineModel,
    r: Reaction,
    exchange: Seq<char>,
    key: Seq<char>,
    data: Seq<char>,
    consumer: u64,
    timestamp: i64,
)
    requires
        handled(
            before,
            after,
            r,
            RequestModel::Publish { exchange_name: exchange, routing_key: key, data },
            consumer,
            timestamp,
        ),
    ensures
        after == before,
        ({
            let known = before.exchanges.contains_key(exchange)
                && before.exchanges[exchange].bindings.contains_key(key)
                && before.exchanges[exchange].bindings[key].len() > 0;
            &&& known ==> (r matches Reaction::Publish(p) && p.next == 0 && p.targets.deep_view()
                == before.exchanges[exchange].bindings[key] && p.message.data.data@ == data
                && p.message.timestamp == timestamp && p.message.attempts == 0)
            &&& !known ==> r is Reply
        }),
{
}

/// The other requests: a declared name exists, a binding is added, an acknowledged
/// message goes, and each is answered by its confirmation.
pub proof fn law_other_requests_are_confirmed(
    before: EngineModel,
    after: EngineModel,
    r: Reaction,
    request: RequestModel,
    consumer: u64,
    timestamp: i64,
)
    requires
        handled(before, after, r, request, consumer, timestamp),
    ensures
        request matches RequestModel::DeclareQueue(name) ==> {
            &&& after == before.with_queue(name)
            &&& r matches Reaction::Reply(t) && t@ == "Queue declared\n"@
        },
        request matches RequestModel::DeclareExchange(name) ==> {
            &&& after == before.with_exchange(name)
            &&& r matches Reaction::Reply(t) && t@ == "Exchange declared\n"@
        },
        request matches RequestModel::Bind { exchange_name, queue_name, routing_key } ==> {
            &&& after == before.with_binding(exchange_name, queue_name, routing_key)
            &&& r matches Reaction::Reply(t) && t@ == "Queue "@ + queue_name
                + " bound to exchange "@ + exchange_name + " with key "@ + routing_key + "\n"@
        },
        request matches RequestModel::Ack(id) ==> {
            &&& crate::ids::uuid_in(id) matches Some(n) ==> after == before.acknowledged(n)
            &&& crate::ids::uuid_in(id) is None ==> after == before
            &&& r matches Reaction::Reply(t) && t@ == "ACK_CONFIRMED "@ + id + "\n"@
        },
        request is Unknown ==> after == before && (r matches Reaction::Reply(t) && t@
            == "Unknown command\n"@),
        request is Invalid ==> after == before && (r matches Reaction::Reply(t) && t@
            == "Invalid command format\n"@),
{
}

/// A word that is no command is not understood, and a command without what it needs is
/// invalid.
pub proof fn law_other_requests_are_refused(word: Seq<char>)
    requires
        is_word(word),
    ensures
        ({
            let known = seq![
                "DECLARE"@,
                "BIND"@,
                "PUBLISH"@,
                "CONSUME"@,
                "FETCH"@,
                "ACK"@,
            ].contains(word);
            &&& known ==> meaning(pieces(word, 4)) == RequestModel::Invalid
            &&& !known ==> meaning(pieces(word, 4)) == RequestModel::Unknown
        }),
{
    let all = seq!["DECLARE"@, "BIND"@, "PUBLISH"@, "CONSUME"@, "FETCH"@, "ACK"@];
    assert(all[0] == "DECLARE"@ && all[1] == "BIND"@ && all[2] == "PUBLISH"@ && all[3]
        == "CONSUME"@ && all[4] == "FETCH"@ && all[5] == "ACK"@);
    lemma_one_piece(word, 4);
}

} // verus!
