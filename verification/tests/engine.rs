use ciphermq::broker::engine::{BrokerEngine, Publication, Registration};
use ciphermq::broker::exchange::Exchange;
use ciphermq::broker::message::{EncryptedInputData, MessageStatus};
use ciphermq::broker::queue::Queue;
use ciphermq::broker::state::{Claim, Retry, SendOutcome, ServerState};
use ciphermq::networking::client_handler::{
    handle_command, published_reply, subscribed_reply, Reaction,
};
use ciphermq::networking::protocol_parser::{complete_publish, parse_request, Command, Parsed};

fn s(t: &str) -> String {
    t.to_string()
}

fn data(t: &str) -> EncryptedInputData {
    EncryptedInputData { data: s(t) }
}

fn status(id: u128, timestamp: i64, attempts: u32) -> MessageStatus {
    MessageStatus { message_id: id, data: data("d"), timestamp, attempts }
}

fn engine(queues: &[&str]) -> BrokerEngine {
    let mut e = BrokerEngine::new(ServerState::new());
    e.declare_exchange(s("e"));
    for q in queues {
        e.declare_queue(s(q));
        e.bind_queue(s("e"), s(q), s("k"));
    }
    e
}

fn start(e: &BrokerEngine, id: u128) -> Publication {
    e.publish_as("e", "k", data("d"), 100, id).ok().unwrap()
}

fn fetch(e: &mut BrokerEngine, q: &str) -> Option<u128> {
    e.fetch_one_message(q).map(|m| m.message_id)
}

#[test]
fn messages_without_consumers_wait_in_their_queues() {
    let mut e = engine(&["a", "b"]);
    let mut p = start(&e, 7);
    assert_eq!(e.advance(&mut p), None);
    assert_eq!(p.next, 2);
    assert_eq!(fetch(&mut e, "a"), Some(7));
    assert_eq!(fetch(&mut e, "a"), None);
    assert_eq!(fetch(&mut e, "b"), Some(7));
    assert_eq!(fetch(&mut e, "c"), None);
    assert!(e.state.unacknowledged_messages.contains_key(&7));
}

#[test]
fn publications_need_a_route() {
    let e = engine(&[]);
    let refused = |x: &str, k: &str| e.publish(x, k, data("d"), 1).err().unwrap();
    assert_eq!(refused("none", "k"), "Exchange none not found");
    assert_eq!(refused("e", "k"), "No queues bound for routing key k");
}

#[test]
fn fresh_identifiers_differ() {
    let e = engine(&["a"]);
    let a = e.publish("e", "k", data("d"), 1).ok().unwrap();
    let b = e.publish("e", "k", data("d"), 1).ok().unwrap();
    assert_ne!(a.message.message_id, b.message.message_id);
    assert_eq!(a.message.attempts, 0);
    assert_eq!(a.message.timestamp, 1);
    assert_eq!(a.message.data.data, "d");
}

#[test]
fn consumers_take_turns() {
    let mut e = engine(&["a"]);
    for c in [1, 2] {
        assert!(matches!(e.register_consumer("a", c), Ok(Registration::Waiting)));
    }
    for (id, consumer) in [(10, 1), (11, 2), (12, 1)] {
        let mut p = start(&e, id);
        assert_eq!(e.advance(&mut p), Some(consumer));
        e.settle(&mut p, consumer, SendOutcome::Sent);
        assert_eq!(e.advance(&mut p), None);
    }
    let mut p = start(&e, 13);
    assert_eq!(e.advance(&mut p), Some(2));
    e.settle(&mut p, 2, SendOutcome::Failed);
    assert_eq!(fetch(&mut e, "a"), Some(13));
    let mut p = start(&e, 14);
    assert_eq!(e.advance(&mut p), Some(1));
    e.settle(&mut p, 1, SendOutcome::SentAndClosed);
    let mut p = start(&e, 15);
    assert_eq!(e.advance(&mut p), None);
    for id in 10..16u128 {
        assert!(e.state.unacknowledged_messages.contains_key(&id));
    }
}

#[test]
fn a_new_consumer_gets_the_oldest_message_first() {
    let mut e = engine(&["a"]);
    for id in [1, 2] {
        let mut p = start(&e, id);
        e.advance(&mut p);
    }
    match e.register_consumer("a", 9) {
        Ok(Registration::Offer(m)) => {
            assert_eq!(m.message_id, 1);
            let refused = e.finish_registration("a", 9, m, SendOutcome::Failed, "closed");
            assert_eq!(
                refused.unwrap_err(),
                "Failed to send initial message to consumer: closed"
            );
        }
        _ => panic!("no offer"),
    }
    match e.register_consumer("a", 9) {
        Ok(Registration::Offer(m)) => {
            assert_eq!(m.message_id, 1);
            assert!(e.finish_registration("a", 9, m, SendOutcome::Sent, "").is_ok());
        }
        _ => panic!("no offer"),
    }
    assert_eq!(fetch(&mut e, "a"), Some(2));
    let mut p = start(&e, 3);
    assert_eq!(e.advance(&mut p), Some(9));
    assert_eq!(
        e.register_consumer("none", 9).err().unwrap(),
        "BrokerEngine: Queue none not found"
    );
}

#[test]
fn acknowledged_messages_are_gone() {
    let mut e = engine(&["a", "b"]);
    for id in [0xab, 2] {
        let mut p = start(&e, id);
        e.advance(&mut p);
    }
    e.acknowledge("no identifier");
    e.acknowledge("00000000-0000-0000-0000-000000000099");
    assert_eq!(e.state.unacknowledged_messages.len(), 2);
    e.acknowledge("00000000-0000-0000-0000-0000000000AB");
    assert_eq!(e.state.unacknowledged_messages.len(), 1);
    assert_eq!(fetch(&mut e, "a"), Some(2));
    assert_eq!(fetch(&mut e, "b"), Some(2));
    e.acknowledge_id(2);
    assert_eq!(e.state.unacknowledged_messages.len(), 0);
}

#[test]
fn messages_are_tried_again() {
    let mut e = engine(&["a"]);
    let mut p = start(&e, 5);
    e.advance(&mut p);
    assert!(e.state.stale_messages(160).is_empty());
    let stale = e.state.stale_messages(161);
    assert_eq!(stale.len(), 1);
    assert_eq!((stale[0].0, stale[0].1.as_str()), (5, "a"));
    assert_eq!(e.state.claim(5, "b"), Claim::Changed);
    assert_eq!(e.state.claim(6, "a"), Claim::Gone);
    assert_eq!(e.state.claim(5, "a"), Claim::Taken);
    assert_eq!(e.state.claim(5, "a"), Claim::Gone);
    assert!(matches!(e.state.re_enqueue_message("a", status(5, 100, 0)), Retry::Enqueued));
    assert!(e.state.unacknowledged_messages.contains_key(&5));
    // The copy that was never fetched stays where it was.
    assert_eq!(fetch(&mut e, "a"), Some(5));
    let again = e.fetch_one_message("a").unwrap();
    assert_eq!(again.attempts, 1);
}

#[test]
fn messages_are_not_tried_for_ever() {
    let mut e = engine(&["a"]);
    assert!(matches!(e.state.re_enqueue_message("a", status(5, 1, 5)), Retry::Dropped));
    assert!(matches!(e.state.re_enqueue_message("none", status(5, 1, 0)), Retry::NoQueue));
    assert_eq!(fetch(&mut e, "a"), None);
    e.register_consumer("a", 3).ok();
    match e.state.re_enqueue_message("a", status(5, 1, 4)) {
        Retry::Offer { consumer, message } => {
            assert_eq!(consumer, 3);
            assert_eq!(message.attempts, 5);
            e.state.resolve("a", &message, consumer, SendOutcome::Failed);
        }
        _ => panic!("no offer"),
    }
    assert_eq!(fetch(&mut e, "a"), Some(5));
}

#[test]
fn times_far_apart_do_not_overflow() {
    let mut e = engine(&["a"]);
    let mut p = e.publish_as("e", "k", data("d"), i64::MIN, 1).ok().unwrap();
    e.advance(&mut p);
    assert_eq!(e.state.stale_messages(i64::MAX).len(), 1);
    assert_eq!(e.state.stale_messages(i64::MIN).len(), 0);
}

#[test]
fn exchanges_keep_their_bindings_in_order() {
    let mut x = Exchange::new(s("x"));
    assert_eq!(x.name, "x");
    assert!(x.queues_for("k").is_empty());
    x.bind(s("k"), s("a"));
    x.bind(s("l"), s("c"));
    x.bind(s("k"), s("a"));
    assert_eq!(x.queues_for("k"), vec![s("a"), s("a")]);
    assert_eq!(x.queues_for("l"), vec![s("c")]);
}

#[test]
fn queues_drop_every_copy() {
    let mut q = Queue::new(s("q"));
    for id in [1, 2, 1, 3] {
        q.push(status(id, 0, 0));
    }
    q.push_front(status(4, 0, 0));
    q.drop_message(1);
    let mut left = Vec::new();
    while let Some(m) = q.pop() {
        left.push(m.message_id);
    }
    assert_eq!(left, vec![4, 2, 3]);
    assert_eq!(q.next_consumer(), None);
}

fn parsed(t: &str) -> Command {
    match parse_request(t) {
        Parsed::Done(c) => c,
        Parsed::PublishJson { exchange_name, routing_key, json } => {
            complete_publish(exchange_name, routing_key, Some(data(&json)))
        }
    }
}

#[test]
fn requests_are_parsed() {
    assert!(matches!(parsed("DECLARE QUEUE q\n"), Command::DeclareQueue(n) if n == "q"));
    assert!(matches!(parsed("DECLARE EXCHANGE x y"), Command::DeclareExchange(n) if n == "x"));
    assert!(matches!(parsed("DECLARE QUEUE"), Command::Invalid));
    assert!(matches!(parsed("DECLARE TABLE t"), Command::Invalid));
    assert!(matches!(
        parsed("BIND e q k with blanks"),
        Command::Bind { exchange_name, queue_name, routing_key }
            if exchange_name == "e" && queue_name == "q" && routing_key == "k with blanks"
    ));
    assert!(matches!(parsed("BIND e q"), Command::Invalid));
    assert!(matches!(parsed("BIND e  k"), Command::Invalid));
    assert!(matches!(
        parsed("PUBLISH e k {\"data\": \"x\"}"),
        Command::Publish { exchange_name, message, .. }
            if exchange_name == "e" && message.data == "{\"data\": \"x\"}"
    ));
    assert!(matches!(parsed("PUBLISH e k"), Command::Invalid));
    assert!(matches!(complete_publish(s("e"), s("k"), None), Command::Invalid));
    assert!(matches!(parsed("CONSUME q"), Command::Consume(n) if n == "q"));
    assert!(matches!(parsed("CONSUME"), Command::Invalid));
    assert!(matches!(parsed("FETCH q"), Command::Fetch(n) if n == "q"));
    assert!(matches!(parsed("FETCH"), Command::Invalid));
    assert!(matches!(parsed("ACK 1"), Command::Ack(n) if n == "1"));
    assert!(matches!(parsed("ACK"), Command::Invalid));
    assert!(matches!(parsed("declare queue q"), Command::Unknown));
    assert!(matches!(parsed(""), Command::Unknown));
}

fn said(e: &mut BrokerEngine, t: &str) -> String {
    match handle_command(e, parsed(t), 1, 100) {
        Reaction::Reply(t) => t,
        _ => panic!("not a reply"),
    }
}

#[test]
fn requests_are_answered() {
    let mut e = BrokerEngine::new(ServerState::new());
    assert_eq!(said(&mut e, "DECLARE QUEUE q"), "Queue declared\n");
    assert_eq!(said(&mut e, "DECLARE EXCHANGE e"), "Exchange declared\n");
    assert_eq!(said(&mut e, "BIND e q k"), "Queue q bound to exchange e with key k\n");
    assert_eq!(said(&mut e, "FETCH q"), "No messages\n");
    assert_eq!(said(&mut e, "PUBLISH x k {}"), "Error: Exchange x not found\n");
    match handle_command(&mut e, parsed("PUBLISH e k {}"), 1, 100) {
        Reaction::Publish(mut p) => assert_eq!(e.advance(&mut p), None),
        _ => panic!("not published"),
    }
    assert!(matches!(handle_command(&mut e, parsed("FETCH q"), 1, 100), Reaction::Send(_)));
    assert_eq!(said(&mut e, "CONSUME q"), "Subscribed to queue\n");
    assert_eq!(
        said(&mut e, "CONSUME x"),
        "Error registering consumer: BrokerEngine: Queue x not found\n"
    );
    assert_eq!(said(&mut e, "ACK anything"), "ACK_CONFIRMED anything\n");
    assert_eq!(said(&mut e, "hello"), "Unknown command\n");
    assert_eq!(said(&mut e, "ACK"), "Invalid command format\n");
    assert_eq!(subscribed_reply(&Ok(())), "Subscribed to queue\n");
}

#[test]
fn identifiers_are_written_with_hyphens() {
    assert_eq!(
        published_reply(0x0123_4567_89ab_cdef_fedc_ba98_7654_3210),
        "ACK 01234567-89ab-cdef-fedc-ba9876543210\n"
    );
    assert_eq!(published_reply(0), "ACK 00000000-0000-0000-0000-000000000000\n");
}
