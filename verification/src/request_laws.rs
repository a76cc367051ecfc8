//! What the broker's requests do, told by its queues, bindings, consumers and
//! message times before and after them.

use crate::acl::{command_denial, Role};
use crate::metrics::Metrics;
use crate::seqs::{lemma_filter_agree, lemma_filter_members, lemma_filter_no_duplicates};
use crate::server::{
    arguments_of, command_of, get_key_answer, lines_of, resend_answer, screened, storage_fault,
    BatchItem, BrokerModel, Caller, Screening, StepModel,
};
use crate::state::MessageStatus;
use crate::state_laws::{
    law_publish_appends_to_each_bound_queue, law_targets_are_the_bound_queues,
};
use crate::state_model::{
    distinct_ids, lemma_announced_sound, lemma_enqueued_all_sound, MessageModel, QueuedModel,
    StateModel,
};
use crate::storage::StorageError;
use vstd::prelude::*;

verus! {

/// The commands have different names.
proof fn lemma_commands_are_distinct()
    ensures
        "declare_exchange"@ != "declare_queue"@,
        "bind"@ != "declare_queue"@,
        "bind"@ != "declare_exchange"@,
        "publish"@ != "declare_queue"@,
        "publish"@ != "declare_exchange"@,
        "publish"@ != "bind"@,
        "publish_batch"@ != "declare_queue"@,
        "publish_batch"@ != "declare_exchange"@,
        "publish_batch"@ != "bind"@,
        "publish_batch"@ != "publish"@,
        "consume"@ != "declare_queue"@,
        "consume"@ != "declare_exchange"@,
        "consume"@ != "bind"@,
        "consume"@ != "publish"@,
        "consume"@ != "publish_batch"@,
        "ack"@ != "declare_queue"@,
        "ack"@ != "declare_exchange"@,
        "ack"@ != "bind"@,
        "ack"@ != "publish"@,
        "ack"@ != "publish_batch"@,
        "ack"@ != "consume"@,
        "resend"@ != "declare_queue"@,
        "resend"@ != "declare_exchange"@,
        "resend"@ != "bind"@,
        "resend"@ != "publish"@,
        "resend"@ != "publish_batch"@,
        "resend"@ != "consume"@,
        "resend"@ != "ack"@,
        "register_public_key"@ != "declare_queue"@,
        "register_public_key"@ != "declare_exchange"@,
        "register_public_key"@ != "bind"@,
        "register_public_key"@ != "publish"@,
        "register_public_key"@ != "publish_batch"@,
        "register_public_key"@ != "consume"@,
        "register_public_key"@ != "ack"@,
        "get_public_key"@ != "declare_queue"@,
        "get_public_key"@ != "declare_exchange"@,
        "get_public_key"@ != "bind"@,
        "get_public_key"@ != "publish"@,
        "get_public_key"@ != "publish_batch"@,
        "get_public_key"@ != "consume"@,
        "get_public_key"@ != "ack"@,
        "heartbeat"@ != "declare_queue"@,
        "heartbeat"@ != "declare_exchange"@,
        "heartbeat"@ != "bind"@,
        "heartbeat"@ != "publish"@,
        "heartbeat"@ != "publish_batch"@,
        "heartbeat"@ != "consume"@,
        "heartbeat"@ != "ack"@,
        "register_public_key"@ != "resend"@,
        "get_public_key"@ != "resend"@,
        "get_public_key"@ != "register_public_key"@,
        "heartbeat"@ != "resend"@,
        "heartbeat"@ != "register_public_key"@,
        "heartbeat"@ != "get_public_key"@,
{
    reveal_strlit("declare_queue");
    reveal_strlit("declare_exchange");
    reveal_strlit("bind");
    reveal_strlit("publish");
    reveal_strlit("publish_batch");
    reveal_strlit("consume");
    reveal_strlit("ack");
    reveal_strlit("resend");
    reveal_strlit("register_public_key");
    reveal_strlit("get_public_key");
    reveal_strlit("heartbeat");
    assert("declare_queue"@.len() == 13);
    assert("declare_exchange"@.len() == 16);
    assert("bind"@.len() == 4);
    assert("publish"@.len() == 7);
    assert("publish_batch"@.len() == 13);
    assert("consume"@.len() == 7);
    assert("ack"@.len() == 3);
    assert("resend"@.len() == 6);
    assert("register_public_key"@.len() == 19);
    assert("get_public_key"@.len() == 14);
    assert("heartbeat"@.len() == 9);
    assert("publish"@[0] == 'p');
    assert("consume"@[0] == 'c');
    assert("publish_batch"@[0] == 'p');
    assert("declare_queue"@[0] == 'd');
}

/// What a list of notices holds, one for each name that has consumers.
proof fn lemma_notices(s: StateModel, names: Seq<Seq<char>>)
    requires
        names.no_duplicates(),
    ensures
        forall|i: int|
            0 <= i < s.notices(names).len() ==> {
                let told = #[trigger] s.notices(names)[i];
                &&& names.contains(told.0)
                &&& s.consumers.contains_key(told.0)
                &&& told.1 == s.consumers[told.0]
            },
        forall|q: Seq<char>| #[trigger]
            names.contains(q) && s.consumers.contains_key(q) ==> s.notices(names).contains(
                (q, s.consumers[q]),
            ),
        forall|i: int, j: int|
            0 <= i < j < s.notices(names).len() ==> (#[trigger] s.notices(names)[i]).0 != (
            #[trigger] s.notices(names)[j]).0,
    decreases names.len(),
{
    if names.len() > 0 {
        let rest = names.drop_last();
        let last = names.last();
        let before = s.notices(rest);
        let after = s.notices(names);
        assert(rest.no_duplicates());
        lemma_notices(s, rest);
        assert(!rest.contains(last)) by {
            if rest.contains(last) {
                let j = choose|j: int| 0 <= j < rest.len() && rest[j] == last;
                assert(names[j] == names[names.len() - 1]);
            }
        }
        assert(names[names.len() - 1] == last);
        assert forall|i: int| 0 <= i < after.len() implies {
            let told = #[trigger] after[i];
            &&& names.contains(told.0)
            &&& s.consumers.contains_key(told.0)
            &&& told.1 == s.consumers[told.0]
        } by {
            if i < before.len() {
                assert(after[i] == before[i]);
                let k = choose|k: int| 0 <= k < rest.len() && rest[k] == before[i].0;
                assert(names[k] == before[i].0);
            }
        }
        assert forall|q: Seq<char>| #[trigger]
            names.contains(q) && s.consumers.contains_key(q) implies after.contains(
            (q, s.consumers[q]),
        ) by {
            if q == last {
                assert(after.last() == (q, s.consumers[q]));
            } else {
                let k = choose|k: int| 0 <= k < names.len() && names[k] == q;
                assert(rest[k] == q);
                assert(rest.contains(q));
                assert(before.contains((q, s.consumers[q])));
                let i = choose|i: int| 0 <= i < before.len() && before[i] == (q, s.consumers[q]);
                assert(after[i] == (q, s.consumers[q]));
            }
        }
        assert forall|i: int, j: int| 0 <= i < j < after.len() implies (#[trigger] after[i]).0 != (
        #[trigger] after[j]).0 by {
            assert(after[i] == before[i]);
            if j < before.len() {
                assert(after[j] == before[j]);
            } else {
                assert(rest.contains(before[i].0));
            }
        }
    }
}

/// A message that is published is announced to all consumers of every queue that
/// is bound to the exchange under its routing key, once for each queue, and to
/// nobody else.
pub proof fn law_every_consumer_of_a_bound_queue_is_told(
    s: StateModel,
    exchange: Seq<char>,
    key: Seq<char>,
)
    requires
        s.sound(),
    ensures
        ({
            let told = s.notices(s.targets(exchange, key));
            &&& forall|q: Seq<char>| #[trigger]
                s.consumers.contains_key(q) ==> (told.contains((q, s.consumers[q])) <==> (
                s.bindings.contains_key(exchange) && s.bindings[exchange].contains((q, key))))
            &&& forall|i: int|
                0 <= i < told.len() ==> {
                    &&& s.consumers.contains_key((#[trigger] told[i]).0)
                    &&& told[i].1 == s.consumers[told[i].0]
                }
            &&& forall|i: int, j: int|
                0 <= i < j < told.len() ==> (#[trigger] told[i]).0 != (#[trigger] told[j]).0
        }),
{
    let names = s.targets(exchange, key);
    let told = s.notices(names);
    law_targets_are_the_bound_queues(s, exchange, key);
    lemma_notices(s, names);
    assert forall|q: Seq<char>| #[trigger] s.consumers.contains_key(q) implies (told.contains(
        (q, s.consumers[q]),
    ) <==> (s.bindings.contains_key(exchange) && s.bindings[exchange].contains((q, key)))) by {
        if told.contains((q, s.consumers[q])) {
            let i = choose|i: int| 0 <= i < told.len() && told[i] == (q, s.consumers[q]);
            assert(names.contains(told[i].0));
        }
        if s.bindings.contains_key(exchange) && s.bindings[exchange].contains((q, key)) {
            assert(names.contains(q));
        }
    }
}

/// A request to consume a queue is answered with every message that lies there
/// unacknowledged, each once and in the order of the queue, and with nothing else.
/// The client becomes the queue's last consumer; what the queues hold and what is
/// known of their messages stays.
pub proof fn law_consume_delivers_all_that_waits(
    broker: BrokerModel,
    caller: Caller,
    queue: Seq<char>,
    now: u128,
)
    requires
        broker.state.sound(),
        queue.len() > 0,
    ensures
        ({
            let s = broker.state;
            let (after, step) = broker.executed(caller, "consume"@, queue, now);
            let held = if s.queues.contains_key(queue) {
                s.queues[queue]
            } else {
                Seq::empty()
            };
            &&& step matches StepModel::Deliver(handed) && {
                &&& forall|e: QueuedModel| #[trigger]
                    handed.contains(e) <==> held.contains(e) && s.message_status.contains_key(e.0)
                        && s.message_status[e.0].acknowledged_time is None
                &&& forall|i: int, j: int|
                    0 <= i < j < handed.len() ==> (#[trigger] handed[i]).0 != (
                    #[trigger] handed[j]).0
                &&& handed == held.filter(
                    |e: QueuedModel|
                        s.message_status.contains_key(e.0)
                            && s.message_status[e.0].acknowledged_time is None,
                )
            }
            &&& after.state.consumers == s.consumers.insert(
                queue,
                (if s.consumers.contains_key(queue) {
                    s.consumers[queue]
                } else {
                    Seq::empty()
                }).push(caller.consumer),
            )
            &&& after.state.queues == s.queues.insert(queue, held)
            &&& after.state.message_status == s.message_status
            &&& after.state.message_queues == s.message_queues
            &&& after.state.bindings == s.bindings
            &&& after.state.exchanges == s.exchanges
            &&& after.state.connected_clients == s.connected_clients
            &&& after.state.max_queue_size == s.max_queue_size
            &&& after.metrics == broker.metrics
            &&& after.connections == broker.connections
            &&& after.beats == broker.beats
        }),
{
    lemma_commands_are_distinct();
    let s = broker.state;
    let (after, step) = broker.executed(caller, "consume"@, queue, now);
    let held = if s.queues.contains_key(queue) {
        s.queues[queue]
    } else {
        Seq::empty()
    };
    let p = |e: QueuedModel|
        s.message_status.contains_key(e.0) && s.message_status[e.0].acknowledged_time is None;
    lemma_filter_members(held, p);
    assert(distinct_ids(held));
    lemma_filter_ids(held, p);
    if s.queues.contains_key(queue) {
        lemma_filter_agree(held, |e: QueuedModel| s.deliverable(e.0), p);
    } else {
        assert(held.filter(p) =~= Seq::<QueuedModel>::empty());
    }
    assert(after.state.queues =~= s.queues.insert(queue, held));
}

/// A queue that is declared exists from then on, with what it held before, if it
/// existed, and empty if it did not. All other queues stay, and so does all else.
pub proof fn law_declared_queue_exists(
    broker: BrokerModel,
    caller: Caller,
    queue: Seq<char>,
    now: u128,
)
    requires
        queue.len() > 0,
        caller.role == Role::Admin || (caller.role == Role::Receiver && crate::text::has_prefix(
            queue,
            caller.cn + "_"@,
        )),
    ensures
        ({
            let s = broker.state;
            let (after, step) = broker.executed(caller, "declare_queue"@, queue, now);
            &&& step == StepModel::Reply("Queue declared\n"@)
            &&& after.state.queues == s.queues.insert(
                queue,
                if s.queues.contains_key(queue) {
                    s.queues[queue]
                } else {
                    Seq::empty()
                },
            )
            &&& after == (BrokerModel {
                state: StateModel { queues: after.state.queues, ..s },
                ..broker
            })
        }),
{
    lemma_commands_are_distinct();
    crate::acl::law_receiver_is_confined_to_its_queues(caller.cn, queue);
    let s = broker.state;
    let after = broker.executed(caller, "declare_queue"@, queue, now).0;
    if s.queues.contains_key(queue) {
        assert(s.queues =~= s.queues.insert(queue, s.queues[queue]));
    }
}

/// An exchange that is declared exists from then on, beside those that did before;
/// nothing else changes.
pub proof fn law_declared_exchange_exists(
    broker: BrokerModel,
    caller: Caller,
    exchange: Seq<char>,
    now: u128,
)
    requires
        exchange.len() > 0,
    ensures
        ({
            let (after, step) = broker.executed(caller, "declare_exchange"@, exchange, now);
            &&& step == StepModel::Reply("Exchange declared\n"@)
            &&& forall|e: Seq<char>| #[trigger]
                after.state.exchanges.contains(e) <==> broker.state.exchanges.contains(e) || e
                    == exchange
            &&& after == (BrokerModel {
                state: StateModel { exchanges: after.state.exchanges, ..broker.state },
                ..broker
            })
        }),
{
    lemma_commands_are_distinct();
}

/// A binding that is asked for stands behind those that the exchange has, unless it
/// is there already; it is made only between a queue and an exchange that exist.
/// The bindings of other exchanges stay, and so does all else.
pub proof fn law_bind_adds_one_binding(
    broker: BrokerModel,
    caller: Caller,
    queue: Seq<char>,
    exchange: Seq<char>,
    key: Seq<char>,
    now: u128,
)
    requires
        crate::protocol::is_word(queue),
        crate::protocol::is_word(exchange),
        caller.role == Role::Admin || (caller.role == Role::Receiver && crate::text::has_prefix(
            queue,
            caller.cn + "_"@,
        ) && crate::text::has_prefix(key, caller.cn)),
    ensures
        ({
            let s = broker.state;
            let arguments = queue + " "@ + (exchange + " "@ + key);
            let (after, step) = broker.executed(caller, "bind"@, arguments, now);
            let known = s.bindings.contains_key(exchange);
            let made = s.queues.contains_key(queue) && s.exchanges.contains(exchange) && !(known
                && s.bindings[exchange].contains((queue, key)));
            &&& step == StepModel::Reply("Queue bound\n"@)
            &&& made && known ==> after.state.bindings == s.bindings.insert(
                exchange,
                s.bindings[exchange].push((queue, key)),
            )
            &&& made && !known ==> after.state.bindings == s.bindings.insert(
                exchange,
                seq![(queue, key)],
            )
            &&& !made ==> after.state.bindings == s.bindings
            &&& after == (BrokerModel {
                state: StateModel { bindings: after.state.bindings, ..s },
                ..broker
            })
        }),
{
    lemma_commands_are_distinct();
    crate::acl::law_receiver_is_confined_to_its_queues(caller.cn, queue);
    crate::protocol::lemma_three_pieces(queue, exchange, key);
    reveal_strlit("queue");
    reveal_strlit("exchange");
    reveal_strlit("routing_key");
    assert("routing_key"@.len() == 11);
    assert("queue"@.len() == 5);
    assert("exchange"@.len() == 8);
    assert(Seq::<(Seq<char>, Seq<char>)>::empty().push((queue, key)) =~= seq![(queue, key)]);
}

/// A receiver that declares or binds a queue whose name does not begin with its
/// own, or binds under a routing key that does not, is refused and changes
/// nothing.
pub proof fn law_foreign_resources_are_refused(
    broker: BrokerModel,
    caller: Caller,
    queue: Seq<char>,
    exchange: Seq<char>,
    key: Seq<char>,
    now: u128,
)
    requires
        crate::protocol::is_word(queue),
        crate::protocol::is_word(exchange),
        caller.role == Role::Receiver,
    ensures
        ({
            let refused = (
                broker,
                StepModel::Reply("Access denied: resource access denied for this role\n"@),
            );
            let own = crate::text::has_prefix(queue, caller.cn + "_"@);
            let own_key = crate::text::has_prefix(key, caller.cn);
            &&& !own ==> broker.executed(caller, "declare_queue"@, queue, now) == refused
            &&& !(own && own_key) ==> broker.executed(
                caller,
                "bind"@,
                queue + " "@ + (exchange + " "@ + key),
                now,
            ) == refused
        }),
{
    lemma_commands_are_distinct();
    crate::acl::law_receiver_is_confined_to_its_queues(caller.cn, queue);
    crate::protocol::lemma_three_pieces(queue, exchange, key);
    reveal_strlit("queue");
    reveal_strlit("exchange");
    reveal_strlit("routing_key");
    assert("routing_key"@.len() == 11);
    assert("queue"@.len() == 5);
    assert("exchange"@.len() == 8);
    reveal_strlit("Access denied: ");
    reveal_strlit("resource access denied for this role");
    reveal_strlit("\n");
    reveal_strlit("Access denied: resource access denied for this role\n");
    assert("Access denied: "@ + "resource access denied for this role"@ + "\n"@
        =~= "Access denied: resource access denied for this role\n"@);
}

/// An acknowledged message leaves every queue, its status and its record; all
/// other messages stay in their queues, in their order, with their statuses and
/// records. The message is confirmed by its identifier, whether it was known or
/// not.
pub proof fn law_acknowledged_message_leaves_alone(
    broker: BrokerModel,
    caller: Caller,
    id: Seq<char>,
    now: u128,
)
    requires
        broker.state.sound(),
        id.len() > 0,
    ensures
        ({
            let s = broker.state;
            let (after, step) = broker.executed(caller, "ack"@, id, now);
            &&& step == StepModel::Acknowledged {
                message_id: id,
                known: s.message_status.contains_key(id),
                reply: "ACK_CONFIRMED "@ + id + "\n"@,
            }
            &&& after.state.queues.dom() == s.queues.dom()
            &&& forall|q: Seq<char>| #[trigger]
                s.queues.contains_key(q) ==> after.state.queues[q] == s.queues[q].filter(
                    |e: QueuedModel| e.0 != id,
                )
            &&& after.state.message_status == s.message_status.remove(id)
            &&& s.message_status.contains_key(id) ==> after.state.message_queues
                == s.message_queues.remove(id)
            &&& !s.message_status.contains_key(id) ==> after.state == s
            &&& after.state.bindings == s.bindings
            &&& after.state.exchanges == s.exchanges
            &&& after.state.consumers == s.consumers
            &&& after.state.connected_clients == s.connected_clients
            &&& after.state.max_queue_size == s.max_queue_size
            &&& after.connections == broker.connections
            &&& after.beats == broker.beats
            &&& after.metrics == (Metrics {
                messages_acked: after.metrics.messages_acked,
                ..broker.metrics
            })
            &&& after.metrics.messages_acked == (broker.metrics.messages_acked + 1)
                % 0x1_0000_0000_0000_0000
        }),
{
    lemma_commands_are_distinct();
    let s = broker.state;
    let after = broker.executed(caller, "ack"@, id, now).0.state;
    let p = |e: QueuedModel| e.0 != id;
    assert(after.queues.dom() =~= s.queues.dom());
    assert forall|q: Seq<char>| #[trigger] s.queues.contains_key(q) implies after.queues[q]
        == s.queues[q].filter(p) by {
        let held = s.queues[q];
        if s.message_status.contains_key(id) {
            lemma_filter_agree(held, |e: QueuedModel| !set![id].contains(e.0), p);
        } else {
            assert forall|i: int| 0 <= i < held.len() implies p(#[trigger] held[i]) by {
                assert(s.recorded(s.queues[q][i].0, q));
            }
            crate::seqs::lemma_filter_all(held, p);
        }
    }
    assert(after.message_status =~= s.message_status.remove(id));
    if s.message_status.contains_key(id) {
        assert(after.message_queues =~= s.message_queues.remove(id));
    }
}

/// The other requests change no queue, binding, consumer or status: they hand on
/// what they name, and a heartbeat is noted under the client's own name.
pub proof fn law_lookups_hand_on_their_argument(
    broker: BrokerModel,
    caller: Caller,
    argument: Seq<char>,
    now: u128,
)
    ensures
        argument.len() > 0 ==> broker.executed(caller, "resend"@, argument, now) == (
            broker,
            StepModel::FindSender(argument),
        ),
        argument.len() > 0 ==> broker.executed(caller, "register_public_key"@, argument, now) == (
            broker,
            StepModel::SaveKey(argument),
        ),
        argument.len() > 0 ==> broker.executed(caller, "get_public_key"@, argument, now) == (
            broker,
            StepModel::FindKey(argument),
        ),
        ({
            let (after, step) = broker.executed(caller, "heartbeat"@, argument, now);
            &&& step == StepModel::Reply("Heartbeat received\n"@)
            &&& after == (BrokerModel { beats: after.beats, ..broker })
            &&& after.beats.contains_key(caller.cn) && after.beats[caller.cn] == now
            &&& forall|c: Seq<char>|
                c != caller.cn ==> after.beats.index_opt(c) == #[trigger] broker.beats.index_opt(c)
        }),
{
    lemma_commands_are_distinct();
}

/// A request without its argument is answered by what is missing and changes
/// nothing, and so is one by a name that is no command.
pub proof fn law_incomplete_requests_change_nothing(
    broker: BrokerModel,
    caller: Caller,
    command: Seq<char>,
    now: u128,
)
    requires
        command != "heartbeat"@,
    ensures
        ({
            let (after, step) = broker.executed(caller, command, Seq::empty(), now);
            &&& after == broker
            &&& step is Reply
            &&& command == "consume"@ || command == "declare_queue"@ ==> step == StepModel::Reply(
                "Missing queue name\n"@,
            )
            &&& command == "declare_exchange"@ ==> step == StepModel::Reply(
                "Missing exchange name\n"@,
            )
            &&& command == "bind"@ || command == "publish"@ || command == "publish_batch"@ ==> step
                == StepModel::Reply("Missing parameters\n"@)
            &&& command == "ack"@ || command == "resend"@ ==> step == StepModel::Reply(
                "Missing message ID\n"@,
            )
            &&& command == "register_public_key"@ ==> step == StepModel::Reply(
                "Missing public key\n"@,
            )
            &&& command == "get_public_key"@ ==> step == StepModel::Reply("Missing client ID\n"@)
        }),
{
    lemma_commands_are_distinct();
    assert(crate::text::pieces(Seq::empty(), 3) =~= seq![Seq::<char>::empty()]);
}

/// A batch request is read like a single one: the same exchange, routing key and
/// JSON text.
pub proof fn law_publish_requests_are_read_whole(
    broker: BrokerModel,
    caller: Caller,
    exchange: Seq<char>,
    key: Seq<char>,
    json: Seq<char>,
    now: u128,
)
    requires
        crate::protocol::is_word(exchange),
        crate::protocol::is_word(key),
    ensures
        broker.executed(caller, "publish"@, exchange + " "@ + (key + " "@ + json), now) == (
            broker,
            StepModel::Publish { exchange, routing_key: key, json },
        ),
        broker.executed(caller, "publish_batch"@, exchange + " "@ + (key + " "@ + json), now) == (
            broker,
            StepModel::PublishBatch { exchange, routing_key: key, json },
        ),
{
    lemma_commands_are_distinct();
    crate::protocol::lemma_three_pieces(exchange, key, json);
}

/// A message is refused if it is tracked already, if its metadata could not be
/// stored, or if no queue is bound to the exchange under its routing key, and is
/// taken otherwise.
pub proof fn law_message_is_taken_unless(
    broker: BrokerModel,
    exchange: Seq<char>,
    key: Seq<char>,
    id: Seq<char>,
    saved: Option<Seq<char>>,
)
    requires
        broker.state.sound(),
    ensures
        broker.publish_fault(exchange, key, id, saved) is None <==> {
            let s = broker.state;
            &&& !s.message_status.contains_key(id)
            &&& saved is None
            &&& s.bindings.contains_key(exchange)
            &&& exists|q: Seq<char>| #[trigger] s.bindings[exchange].contains((q, key))
        },
        broker.state.message_status.contains_key(id) ==> broker.publish_fault(
            exchange,
            key,
            id,
            saved,
        ) == Some("Duplicate message "@ + id + " ignored"@),
        !broker.state.message_status.contains_key(id) ==> (saved matches Some(cause)
            ==> broker.publish_fault(exchange, key, id, saved) == Some(
            "Failed to save metadata: "@ + cause,
        )),
        !broker.state.message_status.contains_key(id) && saved is None && !(
        broker.state.bindings.contains_key(exchange) && exists|q: Seq<char>| #[trigger]
            broker.state.bindings[exchange].contains((q, key))) ==> broker.publish_fault(
            exchange,
            key,
            id,
            saved,
        ) == Some(
            "No queues bound to exchange '"@ + exchange + "' with routing key '"@ + key + "'"@,
        ),
{
    let s = broker.state;
    let names = s.targets(exchange, key);
    law_targets_are_the_bound_queues(s, exchange, key);
    if names.len() > 0 {
        assert(names.contains(names[0]));
        assert(s.bindings[exchange].contains((names[0], key)));
    }
    if s.bindings.contains_key(exchange) && exists|q: Seq<char>| #[trigger]
        s.bindings[exchange].contains((q, key)) {
        let q = choose|q: Seq<char>| #[trigger] s.bindings[exchange].contains((q, key));
        assert(s.bindings_of(exchange).contains((q, key)));
        assert(names.contains(q));
    }
}

/// A message that is taken stands last in every queue that is bound to the
/// exchange under its routing key. Such a queue keeps what it held, or all but its
/// oldest message where it was full; no other queue changes. The message is
/// tracked from then on as received now, neither delivered nor acknowledged, and
/// recorded with just those queues.
pub proof fn law_taken_message_stands_last_in_the_bound_queues(
    broker: BrokerModel,
    exchange: Seq<char>,
    key: Seq<char>,
    message: MessageModel,
    now: u128,
)
    requires
        broker.state.sound(),
        !broker.state.message_status.contains_key(message.message_id),
    ensures
        ({
            let s = broker.state;
            let id = message.message_id;
            let after = broker.with_message(exchange, key, message, now);
            let t = after.state;
            &&& t.queues.dom() == s.queues.dom()
            &&& forall|q: Seq<char>| #[trigger]
                s.queues.contains_key(q) ==> if s.bindings.contains_key(exchange)
                    && s.bindings[exchange].contains((q, key)) {
                    if 0 < s.queues[q].len() && s.max_queue_size <= s.queues[q].len() {
                        t.queues[q] == s.queues[q].skip(1) + seq![(id, message)]
                    } else {
                        t.queues[q] == s.queues[q] + seq![(id, message)]
                    }
                } else {
                    t.queues[q] == s.queues[q]
                }
            &&& t.message_status.contains_key(id)
            &&& t.message_status[id] == (MessageStatus {
                sent_time: Some(now),
                delivered_time: None,
                acknowledged_time: None,
            })
            &&& t.message_queues.contains_key(id)
            &&& forall|q: Seq<char>| #[trigger]
                t.message_queues[id].contains(q) <==> s.bindings.contains_key(exchange)
                    && s.bindings[exchange].contains((q, key))
            &&& t.bindings == s.bindings
            &&& t.exchanges == s.exchanges
            &&& t.consumers == s.consumers
            &&& t.connected_clients == s.connected_clients
            &&& t.max_queue_size == s.max_queue_size
            &&& after.connections == broker.connections
            &&& after.beats == broker.beats
            &&& after.metrics == (Metrics {
                messages_published: after.metrics.messages_published,
                ..broker.metrics
            })
            &&& after.metrics.messages_published == (broker.metrics.messages_published + 1)
                % 0x1_0000_0000_0000_0000
        }),
{
    let s = broker.state;
    let id = message.message_id;
    let t = broker.with_message(exchange, key, message, now).state;
    let names = s.targets(exchange, key);
    let base = s.announced(names, id, now);
    law_targets_are_the_bound_queues(s, exchange, key);
    law_publish_appends_to_each_bound_queue(s, exchange, key, message, now);
    lemma_announced_sound(s, exchange, key, id, now);
    lemma_enqueued_all_sound(base, names, (id, message));
    assert(base.message_status.index_opt(id) == Some(base.message_status[id]));
    assert(base.message_queues.index_opt(id) == Some(base.message_queues[id]));
    assert(t.message_queues[id] == names.to_set());
    assert forall|q: Seq<char>| #[trigger] s.queues.contains_key(q) implies if s.bindings.contains_key(
        exchange,
    ) && s.bindings[exchange].contains((q, key)) {
        if 0 < s.queues[q].len() && s.max_queue_size <= s.queues[q].len() {
            t.queues[q] == s.queues[q].skip(1) + seq![(id, message)]
        } else {
            t.queues[q] == s.queues[q] + seq![(id, message)]
        }
    } else {
        t.queues[q] == s.queues[q]
    } by {
        assert(s.queues[q].skip(1).push((id, message)) =~= s.queues[q].skip(1) + seq![
            (id, message),
        ]);
        assert(s.queues[q].push((id, message)) =~= s.queues[q] + seq![(id, message)]);
    }
    assert forall|q: Seq<char>| #[trigger] t.message_queues[id].contains(q) <==> (
    s.bindings.contains_key(exchange) && s.bindings[exchange].contains((q, key))) by {
        assert(names.contains(q) <==> s.bindings_of(exchange).contains((q, key)));
    }
}

/// A message of a batch is taken or refused as one that comes alone: a taken one
/// changes the broker in the same way and is acknowledged by its identifier, and a
/// refused one changes nothing and is answered by an error that names it.
pub proof fn law_batch_treats_a_message_as_if_alone(
    broker: BrokerModel,
    exchange: Seq<char>,
    key: Seq<char>,
    item: BatchItem,
)
    ensures
        ({
            let id = item.message.message_id;
            let (after, answer) = broker.in_batch(exchange, key, item);
            match broker.publish_fault(exchange, key, id, item.fault) {
                None => after == broker.with_message(exchange, key, item.message, item.now)
                    && answer == "ACK "@ + id,
                Some(fault) => after == broker && answer == "Error: "@ + fault + " for message "@
                    + id,
            }
        }),
{
}

/// A text cut at its line ends: the lines that end, and what stands behind the
/// last of them.
pub open spec fn cut(text: Seq<char>) -> (Seq<Seq<char>>, Seq<char>)
    decreases text.len(),
{
    if text.len() == 0 {
        (Seq::empty(), Seq::empty())
    } else {
        let (ended, rest) = cut(text.drop_last());
        if text.last() == '\n' {
            (ended.push(rest), Seq::empty())
        } else {
            (ended, rest.push(text.last()))
        }
    }
}

/// A text without a line end extends the line that it is appended to.
proof fn lemma_cut_append(text: Seq<char>, more: Seq<char>)
    requires
        !more.contains('\n'),
    ensures
        cut(text + more) == (cut(text).0, cut(text).1 + more),
    decreases more.len(),
{
    if more.len() == 0 {
        assert(text + more =~= text);
        assert(cut(text).1 + more =~= cut(text).1);
    } else {
        let fewer = more.drop_last();
        assert(!fewer.contains('\n')) by {
            if fewer.contains('\n') {
                let j = choose|j: int| 0 <= j < fewer.len() && fewer[j] == '\n';
                assert(more[j] == '\n');
            }
        }
        assert(more[more.len() - 1] != '\n');
        lemma_cut_append(text, fewer);
        assert((text + more).drop_last() =~= text + fewer);
        assert((text + more).last() == more.last());
        assert((cut(text).1 + fewer).push(more.last()) =~= cut(text).1 + more);
    }
}

/// A line end closes the line that it is appended to.
proof fn lemma_cut_line_end(text: Seq<char>)
    ensures
        cut(text + "\n"@) == (cut(text).0.push(cut(text).1), Seq::<char>::empty()),
{
    reveal_strlit("\n");
    assert((text + "\n"@).drop_last() =~= text);
    assert((text + "\n"@).last() == '\n');
}

proof fn lemma_cut_lines(answers: Seq<Seq<char>>)
    requires
        answers.len() >= 1,
        forall|i: int| 0 <= i < answers.len() ==> !(#[trigger] answers[i]).contains('\n'),
    ensures
        cut(lines_of(answers)) == (answers.drop_last(), answers.last()),
    decreases answers.len(),
{
    let last = answers.last();
    assert(!answers[answers.len() - 1].contains('\n'));
    if answers.len() == 1 {
        let none = Seq::<char>::empty();
        assert(none + last =~= last);
        lemma_cut_append(none, last);
        assert(answers.drop_last() =~= Seq::<Seq<char>>::empty());
    } else {
        let rest = answers.drop_last();
        assert forall|i: int| 0 <= i < rest.len() implies !(#[trigger] rest[i]).contains('\n') by {
            assert(rest[i] == answers[i]);
        }
        lemma_cut_lines(rest);
        let before = lines_of(rest) + "\n"@;
        lemma_cut_line_end(lines_of(rest));
        lemma_cut_append(before, last);
        assert(rest.drop_last().push(rest.last()) =~= rest);
        assert(Seq::<char>::empty() + last =~= last);
    }
}

/// The answer to a batch, cut at its line ends, gives back the answers to its
/// messages: all of them, in their order, and nothing behind them.
pub proof fn law_batch_reply_is_cut_into_its_answers(answers: Seq<Seq<char>>)
    requires
        answers.len() >= 1,
        forall|i: int| 0 <= i < answers.len() ==> !(#[trigger] answers[i]).contains('\n'),
    ensures
        cut(lines_of(answers) + "\n"@) == (answers, Seq::<char>::empty()),
{
    lemma_cut_lines(answers);
    lemma_cut_line_end(lines_of(answers));
    assert(answers.drop_last().push(answers.last()) =~= answers);
}

/// Whatever its answers hold, the answer to a batch is each of them followed by a
/// line end, one after the other.
pub proof fn law_batch_reply_ends_every_answer(answers: Seq<Seq<char>>)
    requires
        answers.len() >= 1,
    ensures
        lines_of(answers) + "\n"@ == answers.map_values(|a: Seq<char>| a + seq!['\n']).flatten(),
    decreases answers.len(),
{
    reveal_strlit("\n");
    let f = |a: Seq<char>| a + seq!['\n'];
    let rest = answers.drop_last();
    let all = answers.map_values(f);
    assert(all =~= rest.map_values(f).push(f(answers.last())));
    rest.map_values(f).lemma_flatten_push(f(answers.last()));
    assert("\n"@ =~= seq!['\n']);
    if answers.len() == 1 {
        assert(rest.map_values(f) =~= Seq::<Seq<char>>::empty());
        assert(Seq::<Seq<char>>::empty().flatten() =~= Seq::<char>::empty());
        assert(lines_of(answers) + "\n"@ =~= all.flatten());
    } else {
        law_batch_reply_ends_every_answer(rest);
        assert(lines_of(answers) + "\n"@ =~= (lines_of(rest) + "\n"@) + f(answers.last()));
    }
}

/// A filter of a queue without repetitions has none either.
proof fn lemma_filter_ids(held: Seq<QueuedModel>, p: spec_fn(QueuedModel) -> bool)
    requires
        distinct_ids(held),
    ensures
        distinct_ids(held.filter(p)),
{
    let kept = held.filter(p);
    assert(held.no_duplicates());
    lemma_filter_no_duplicates(held, p);
    lemma_filter_members(held, p);
    assert forall|i: int, j: int| 0 <= i < j < kept.len() implies (#[trigger] kept[i]).0 != (
    #[trigger] kept[j]).0 by {
        assert(kept.contains(kept[i]));
        assert(kept.contains(kept[j]));
        let a = choose|a: int| 0 <= a < held.len() && held[a] == kept[i];
        let b = choose|b: int| 0 <= b < held.len() && held[b] == kept[j];
        assert(kept[i] != kept[j]);
        if a < b {
            assert(held[a].0 != held[b].0);
        } else {
            assert(held[b].0 != held[a].0);
        }
    }
}

/// A client that is admitted is counted: among the clients, among the connections of
/// its address and of its name, and among those that were accepted so far; it was heard
/// of now. Queues, messages and other clients stay as they are.
pub proof fn law_admitted_client_is_counted(
    broker: BrokerModel,
    cn: Seq<char>,
    ip: Seq<char>,
    now: u128,
)
    requires
        broker.state.connected_clients < usize::MAX,
        broker.metrics.connections_total < u64::MAX,
    ensures
        ({
            let after = broker.joined(cn, ip, now);
            &&& after.state.connected_clients == broker.state.connected_clients + 1
            &&& after.state == (StateModel {
                connected_clients: after.state.connected_clients,
                ..broker.state
            })
            &&& after.metrics.connections_total == broker.metrics.connections_total + 1
            &&& after.metrics == (Metrics {
                connections_total: after.metrics.connections_total,
                ..broker.metrics
            })
            &&& after.connections == broker.connections.opened(cn, ip)
            &&& after.beats.contains_key(cn) && after.beats[cn] == now
            &&& forall|c: Seq<char>|
                c != cn ==> after.beats.index_opt(c) == #[trigger] broker.beats.index_opt(c)
        }),
{
}

/// A client that leaves is no longer counted, and no longer watched; what it published
/// or declared, and what its queues hold, stays.
pub proof fn law_departed_client_is_no_longer_counted(
    broker: BrokerModel,
    cn: Seq<char>,
    ip: Seq<char>,
)
    requires
        broker.state.connected_clients > 0,
    ensures
        ({
            let after = broker.left(cn, ip);
            &&& after.state.connected_clients == broker.state.connected_clients - 1
            &&& after.state == (StateModel {
                connected_clients: after.state.connected_clients,
                ..broker.state
            })
            &&& after.metrics == broker.metrics
            &&& after.connections == broker.connections.released(cn, ip)
            &&& !after.beats.contains_key(cn)
            &&& forall|c: Seq<char>|
                c != cn ==> after.beats.index_opt(c) == #[trigger] broker.beats.index_opt(c)
        }),
{
}

/// A client that is turned away, and a request that comes too soon, change nothing but
/// the counter of their kind.
pub proof fn law_refusals_are_only_counted(broker: BrokerModel)
    requires
        broker.metrics.connections_rejected_conn_limit < u64::MAX,
        broker.metrics.requests_rate_limited < u64::MAX,
    ensures
        broker.turned_away() == (BrokerModel {
            metrics: Metrics {
                connections_rejected_conn_limit: (broker.metrics.connections_rejected_conn_limit
                    + 1) as u64,
                ..broker.metrics
            },
            ..broker
        }),
        broker.held_back() == (BrokerModel {
            metrics: Metrics {
                requests_rate_limited: (broker.metrics.requests_rate_limited + 1) as u64,
                ..broker.metrics
            },
            ..broker
        }),
{
}

/// The first delivery of a message is noted on it with its time and counted once; no
/// other message changes, and no queue.
pub proof fn law_first_delivery_is_noted(broker: BrokerModel, id: Seq<char>, now: u128)
    requires
        broker.state.message_status.contains_key(id),
        broker.metrics.messages_delivered < u64::MAX,
    ensures
        ({
            let s = broker.state;
            let after = broker.handed_over(id, now);
            &&& after.state.message_status == s.message_status.insert(
                id,
                MessageStatus {
                    sent_time: s.message_status[id].sent_time,
                    delivered_time: Some(now),
                    acknowledged_time: s.message_status[id].acknowledged_time,
                },
            )
            &&& after.state == (StateModel { message_status: after.state.message_status, ..s })
            &&& after.metrics.messages_delivered == broker.metrics.messages_delivered + 1
            &&& after == (BrokerModel {
                state: after.state,
                metrics: Metrics {
                    messages_delivered: after.metrics.messages_delivered,
                    ..broker.metrics
                },
                ..broker
            })
        }),
{
}

/// A resend is granted to the client that sent the message, and to nobody else; the
/// answer tells a message that is not known from one that could not be looked up.
pub proof fn law_resend_is_granted_to_the_sender_only(
    client: Seq<char>,
    found: Result<Option<String>, StorageError>,
)
    ensures
        found matches Ok(Some(sender)) ==> (sender@ == client ==> resend_answer(client, found)
            == "Resend requested\n"@) && (sender@ != client ==> resend_answer(client, found)
            == "Unauthorized resend request\n"@),
        found matches Ok(None) ==> resend_answer(client, found) == "Message ID not found\n"@,
        found is Err ==> resend_answer(client, found) == "Error retrieving message metadata\n"@,
{
}

/// A key that was found is handed out as it is: the client that asked reads it from the
/// answer's line.
pub proof fn law_found_key_is_read_from_the_answer(key: String)
    requires
        crate::protocol::is_tight(key@),
    ensures
        crate::sender::key_answer(
            crate::text::trimmed(get_key_answer(Ok(Some(key)))),
        ) == Some(key@),
{
    reveal_strlit("Public key: ");
    let line = "Public key: "@ + key@;
    assert(line[0] == 'P');
    assert(line.last() == key@.last());
    crate::protocol::lemma_trimmed_line(line);
    crate::sender::law_key_answer_round_trip(key@);
}

/// A request is passed on if and only if the client's role may use its command, with
/// what stands behind the first blank as its arguments.
pub proof fn law_request_is_passed_on_if_permitted(
    r: Screening,
    role: Role,
    command: Seq<char>,
    rest: Seq<char>,
)
    requires
        crate::protocol::is_word(command),
        screened(r, role, command + " "@ + rest),
    ensures
        r is Passed <==> command_denial(role, command) is None,
        r matches Screening::Passed { command: c, arguments: a, publishes: p } ==> c@ == command
            && a@ == rest && p == (command == "publish"@ || command == "publish_batch"@),
        r matches Screening::Refused(reply) ==> reply@ == "Access denied: "@ + command_denial(
            role,
            command,
        )->0 + " (role="@ + role.name() + ")\n"@,
{
    crate::protocol::lemma_two_pieces(command, rest);
}

/// A request without a blank is a command without arguments.
pub proof fn law_single_word_is_a_command(command: Seq<char>)
    requires
        crate::protocol::is_word(command),
    ensures
        command_of(command) == command,
        arguments_of(command) == Seq::<char>::empty(),
{
    crate::text::lemma_first_at_bounds(command, ' ');
    let at = crate::text::first_at(command, ' ');
    if at < command.len() {
        assert(command[at] == ' ');
        assert(crate::text::is_space(' '));
    }
    assert(crate::text::pieces(command, 2) =~= seq![command]);
}

/// A message whose metadata was stored has no fault on that account; one whose metadata
/// was not has the error's text.
pub proof fn law_storage_fault_is_the_error_in_words(saved: Result<(), StorageError>)
    ensures
        storage_fault(saved) is Some <==> saved is Err,
        saved matches Err(StorageError::Postgres(e)) ==> storage_fault(saved) == Some(
            "PostgreSQL error: "@ + e@,
        ),
        saved matches Err(StorageError::ChannelSend(e)) ==> storage_fault(saved) == Some(
            "Channel send error: "@ + e@,
        ),
        saved matches Err(StorageError::ChannelReceive) ==> storage_fault(saved) == Some(
            "Channel receive error"@,
        ),
        saved matches Err(StorageError::EncryptionError(e)) ==> storage_fault(saved) == Some(
            "Encryption error: "@ + e@,
        ),
{
}

} // verus!
