use ciphermq::acl::{AclManager, Role};
use ciphermq::config::RateLimitConfig;
use ciphermq::heartbeat::HeartbeatMonitor;
use ciphermq::metrics::Metrics;
use ciphermq::rate_limiter::{RateLimitResult, RateLimiter};
use ciphermq::server::{
    batch_reply, delivery_line, get_key_reply, invalid_batch_reply, invalid_message_reply,
    resend_reply, save_key_reply, unrecognized_reply, Admission, Broker, DeliveryAttempt,
    DeliveryStep, Screening, Session, Step, WriteOutcome,
};
use ciphermq::state::{EncryptedInputData, ServerState};
use ciphermq::storage::StorageError;

fn names(list: &[&str]) -> Vec<String> {
    list.iter().map(|s| s.to_string()).collect()
}

fn broker(enabled: bool, per_ip: usize, per_cn: usize) -> Broker {
    Broker {
        state: ServerState::new(100),
        metrics: Metrics::new(),
        limiter: RateLimiter::new(&RateLimitConfig {
            enabled,
            max_connections_per_ip: per_ip,
            max_connections_per_cn: per_cn,
        }),
        heartbeats: HeartbeatMonitor::new(60),
        acl: AclManager::new(names(&["s"]), names(&["r"]), names(&["a"])),
    }
}

fn session(cn: &str, role: Role) -> Session {
    Session { client_id: cn.to_string(), ip: "1.2.3.4".to_string(), role, consumer: 42 }
}

fn message(id: &str) -> EncryptedInputData {
    EncryptedInputData {
        message_id: id.to_string(),
        receiver_client_id: "r".to_string(),
        enc_session_key: "k".to_string(),
        nonce: "n".to_string(),
        ciphertext: "c".to_string(),
    }
}

fn request(broker: &mut Broker, s: &Session, line: &str) -> Step {
    match broker.screen(s, line.as_bytes(), 5) {
        Screening::Refused(reply) => Step::Reply(reply),
        Screening::Passed { command, arguments, .. } => {
            broker.execute(s, &command, &arguments, RateLimitResult::Allowed, 5)
        }
    }
}

fn reply(broker: &mut Broker, s: &Session, line: &str) -> String {
    match request(broker, s, line) {
        Step::Reply(text) => text,
        _ => panic!("not a reply"),
    }
}

#[test]
fn clients_are_admitted_by_name_and_limit() {
    let mut b = broker(true, 3, 2);
    assert_eq!(b.connect("stranger", "1.2.3.4", 1), Admission::Unrecognized);
    assert_eq!(b.state.get_client_count(), 0);
    assert_eq!(b.connect("s", "1.2.3.4", 1), Admission::Admitted(Role::Sender));
    assert_eq!(b.connect("s", "1.2.3.4", 1), Admission::Admitted(Role::Sender));
    assert_eq!(b.connect("s", "1.2.3.4", 1), Admission::LimitReached);
    assert_eq!(b.connect("r", "1.2.3.4", 1), Admission::Admitted(Role::Receiver));
    assert_eq!(b.connect("a", "1.2.3.4", 1), Admission::LimitReached);
    assert_eq!(b.connect("a", "5.6.7.8", 1), Admission::Admitted(Role::Admin));
    assert_eq!(b.metrics.connections_total, 4);
    assert_eq!(b.metrics.connections_rejected_conn_limit, 2);
    assert_eq!(b.state.get_client_count(), 4);
    assert!(b.heartbeats.is_alive("s", 1));
    assert_eq!(unrecognized_reply(), "Access denied: unrecognized client identity\n");
}

#[test]
fn a_departure_makes_room() {
    let mut b = broker(true, 1, 1);
    assert_eq!(b.connect("s", "1.2.3.4", 1), Admission::Admitted(Role::Sender));
    assert_eq!(b.connect("s", "1.2.3.4", 1), Admission::LimitReached);
    b.disconnect(&session("s", Role::Sender));
    assert_eq!(b.state.get_client_count(), 0);
    assert!(!b.heartbeats.is_alive("s", 1));
    assert_eq!(b.limiter.connection_stats(), (vec![], vec![]));
    assert_eq!(b.connect("s", "1.2.3.4", 1), Admission::Admitted(Role::Sender));
}

#[test]
fn limits_can_be_switched_off() {
    let mut b = broker(false, 1, 1);
    for _ in 0..5 {
        assert_eq!(b.connect("s", "1.2.3.4", 1), Admission::Admitted(Role::Sender));
    }
}

#[test]
fn commands_need_the_right_role() {
    let mut b = broker(false, 0, 0);
    let s = session("s", Role::Sender);
    assert_eq!(
        reply(&mut b, &s, "declare_queue s_queue\n"),
        "Access denied: command not permitted for this role (role=sender)\n"
    );
    assert_eq!(
        reply(&mut b, &session("x", Role::Unknown), "ack 1\n"),
        "Access denied: unknown role — access denied (role=unknown)\n"
    );
    // A denial is not a rate limit.
    assert_eq!(b.metrics.requests_rate_limited, 0);
    assert!(b.heartbeats.is_alive("s", 5));
}

#[test]
fn requests_are_trimmed_and_cut_at_the_first_blank() {
    let mut b = broker(false, 0, 0);
    match b.screen(&session("a", Role::Admin), b"  publish_batch  x y \r\n", 1) {
        Screening::Passed { command, arguments, publishes } => {
            assert_eq!(command, "publish_batch");
            assert_eq!(arguments, " x y");
            assert!(publishes);
        }
        Screening::Refused(_) => panic!("refused"),
    }
    match b.screen(&session("a", Role::Admin), b"heartbeat", 1) {
        Screening::Passed { command, arguments, publishes } => {
            assert_eq!(command, "heartbeat");
            assert_eq!(arguments, "");
            assert!(!publishes);
        }
        Screening::Refused(_) => panic!("refused"),
    }
}

#[test]
fn bytes_that_are_no_text_are_replaced() {
    let mut b = broker(false, 0, 0);
    match b.screen(&session("a", Role::Admin), b"fet\xffch q\n", 1) {
        Screening::Passed { command, .. } => assert_eq!(command, "fet\u{fffd}ch"),
        Screening::Refused(_) => panic!("refused"),
    }
    assert_eq!(reply(&mut b, &session("a", Role::Admin), "\n"), "Unknown command\n");
}

#[test]
fn requests_can_be_rate_limited() {
    let mut b = broker(true, 0, 0);
    let s = session("r", Role::Receiver);
    let step = b.execute(&s, "declare_queue", "r_queue", RateLimitResult::RateLimited, 1);
    assert!(matches!(step, Step::Reply(t) if t == "Rate limited\n"));
    assert_eq!(b.metrics.requests_rate_limited, 1);
    assert_eq!(b.state.queue_status().len(), 0);
}

#[test]
fn receivers_declare_their_own_resources() {
    let mut b = broker(false, 0, 0);
    let s = session("r", Role::Receiver);
    assert_eq!(reply(&mut b, &s, "declare_queue"), "Missing queue name\n");
    assert_eq!(reply(&mut b, &s, "declare_queue r_queue"), "Queue declared\n");
    assert_eq!(
        reply(&mut b, &s, "declare_queue other_queue"),
        "Access denied: resource access denied for this role\n"
    );
    assert_eq!(reply(&mut b, &s, "declare_exchange"), "Missing exchange name\n");
    assert_eq!(reply(&mut b, &s, "declare_exchange e"), "Exchange declared\n");
    assert_eq!(reply(&mut b, &s, "bind r_queue e"), "Missing parameters\n");
    assert_eq!(
        reply(&mut b, &s, "bind x_queue e r_key"),
        "Access denied: resource access denied for this role\n"
    );
    assert_eq!(
        reply(&mut b, &s, "bind r_queue e x_key"),
        "Access denied: resource access denied for this role\n"
    );
    assert_eq!(b.state.binding_list().len(), 0);
    assert_eq!(reply(&mut b, &s, "bind r_queue e r_key"), "Queue bound\n");
    assert_eq!(b.state.binding_list().len(), 1);
    assert_eq!(reply(&mut b, &s, "heartbeat"), "Heartbeat received\n");
    assert_eq!(reply(&mut b, &s, "consume"), "Missing queue name\n");
    assert_eq!(reply(&mut b, &s, "ack"), "Missing message ID\n");
    assert_eq!(reply(&mut b, &s, "resend"), "Missing message ID\n");
    assert_eq!(reply(&mut b, &s, "register_public_key"), "Missing public key\n");
    let a = session("a", Role::Admin);
    assert_eq!(reply(&mut b, &a, "get_public_key"), "Missing client ID\n");
    assert_eq!(reply(&mut b, &a, "publish e k"), "Missing parameters\n");
    assert_eq!(reply(&mut b, &a, "publish_batch e k"), "Missing parameters\n");
    assert_eq!(reply(&mut b, &a, "fetch q"), "Unknown command\n");
}

#[test]
fn a_message_goes_from_sender_to_receiver() {
    let mut b = broker(false, 0, 0);
    let r = session("r", Role::Receiver);
    let s = session("s", Role::Sender);
    reply(&mut b, &r, "declare_queue r_queue");
    reply(&mut b, &r, "declare_exchange e");
    reply(&mut b, &r, "bind r_queue e r_key");
    match request(&mut b, &s, "publish e r_key {\"a\": 1}\n") {
        Step::Publish { exchange, routing_key, json } => {
            assert_eq!(exchange, "e");
            assert_eq!(routing_key, "r_key");
            assert_eq!(json, "{\"a\": 1}");
        }
        _ => panic!("not a publication"),
    }
    let p = b.publish("e", "r_key", message("m1"), Ok(()), 6);
    assert_eq!(p.reply, "ACK m1\n");
    assert!(p.notices.is_empty());
    assert_eq!(b.metrics.messages_published, 1);
    match request(&mut b, &r, "consume r_queue\n") {
        Step::Deliver(pending) => {
            assert_eq!(pending.len(), 1);
            assert_eq!(pending[0].0, "m1");
        }
        _ => panic!("no delivery"),
    }
    let p = b.publish("e", "r_key", message("m2"), Ok(()), 6);
    assert_eq!(p.notices, vec![("r_queue".to_string(), vec![42])]);
    assert!(b.delivered("m1", 8));
    assert!(!b.delivered("m1", 9));
    assert_eq!(b.metrics.messages_delivered, 1);
    match request(&mut b, &r, "ack m1\n") {
        Step::Acknowledged { message_id, known, reply } => {
            assert_eq!(message_id, "m1");
            assert!(known);
            assert_eq!(reply, "ACK_CONFIRMED m1\n");
        }
        _ => panic!("no acknowledgement"),
    }
    match request(&mut b, &r, "ack m1\n") {
        Step::Acknowledged { known, reply, .. } => {
            assert!(!known);
            assert_eq!(reply, "ACK_CONFIRMED m1\n");
        }
        _ => panic!("no acknowledgement"),
    }
    assert_eq!(b.metrics.messages_acked, 2);
}

#[test]
fn counters_only_go_up() {
    let mut b = broker(true, 1, 1);
    let s = session("s", Role::Sender);
    let mut before = b.metrics.connections_total;
    b.connect("s", "1.2.3.4", 1);
    assert_eq!(b.metrics.connections_total, before + 1);
    before = b.metrics.connections_rejected_conn_limit;
    b.connect("s", "1.2.3.4", 1);
    assert_eq!(b.metrics.connections_rejected_conn_limit, before + 1);
    b.publish("e", "k", message("m1"), Ok(()), 2);
    let published = b.metrics.messages_published;
    // A refused duplicate and a departure take nothing back.
    b.publish("e", "k", message("m1"), Ok(()), 3);
    b.disconnect(&s);
    assert!(b.metrics.messages_published >= published);
    assert_eq!(b.metrics.connections_total, 1);
    assert_eq!(b.metrics.connections_rejected_conn_limit, 1);
}

#[test]
fn refused_publications_say_why() {
    let mut b = broker(false, 0, 0);
    let p = b.publish("e", "k", message("m"), Ok(()), 1);
    assert_eq!(p.reply, "Error: No queues bound to exchange 'e' with routing key 'k'\n");
    let p = b.publish("e", "k", message("m"), Err(StorageError::ChannelReceive), 1);
    assert_eq!(p.reply, "Error: Failed to save metadata: Channel receive error\n");
    let p = b.publish_in_batch("e", "k", message("m"), Ok(()), 1);
    assert_eq!(
        p.reply,
        "Error: No queues bound to exchange 'e' with routing key 'k' for message m"
    );
    b.state.declare_queue("q");
    b.state.declare_exchange("e");
    b.state.bind_queue("q", "e", "k");
    assert_eq!(b.publish_in_batch("e", "k", message("m"), Ok(()), 1).reply, "ACK m");
    assert_eq!(
        b.publish_in_batch("e", "k", message("m"), Ok(()), 1).reply,
        "Error: Duplicate message m ignored for message m"
    );
    assert_eq!(b.metrics.messages_published, 1);
}

#[test]
fn requests_that_need_the_database_are_passed_on() {
    let mut b = broker(false, 0, 0);
    let a = session("a", Role::Admin);
    assert!(matches!(request(&mut b, &a, "resend m"), Step::FindSender(t) if t == "m"));
    assert!(matches!(request(&mut b, &a, "register_public_key K"), Step::SaveKey(t) if t == "K"));
    assert!(matches!(request(&mut b, &a, "get_public_key r"), Step::FindKey(t) if t == "r"));
    assert!(matches!(
        request(&mut b, &a, "publish_batch e k []"),
        Step::PublishBatch { json, .. } if json == "[]"
    ));
}

#[test]
fn database_answers_become_replies() {
    let found = |s: &str| Ok(Some(s.to_string()));
    assert_eq!(resend_reply("s", &found("s")), "Resend requested\n");
    assert_eq!(resend_reply("s", &found("t")), "Unauthorized resend request\n");
    assert_eq!(resend_reply("s", &Ok(None)), "Message ID not found\n");
    assert_eq!(
        resend_reply("s", &Err(StorageError::ChannelReceive)),
        "Error retrieving message metadata\n"
    );
    assert_eq!(save_key_reply(&Ok(())), "Public key registered\n");
    assert_eq!(
        save_key_reply(&Err(StorageError::Postgres("down".to_string()))),
        "Error: Failed to save public key: PostgreSQL error: down\n"
    );
    assert_eq!(get_key_reply(&found("K")), "Public key: K\n");
    assert_eq!(get_key_reply(&Ok(None)), "Public key not found\n");
    assert_eq!(
        get_key_reply(&Err(StorageError::ChannelSend("x".to_string()))),
        "Error: Failed to get public key: Channel send error: x\n"
    );
    assert_eq!(invalid_message_reply("bad"), "Invalid message format: bad\n");
    assert_eq!(invalid_batch_reply("bad"), "Invalid batch format: bad\n");
    assert_eq!(delivery_line("m", "{}"), "Message: m {}\n");
}

#[test]
fn a_batch_goes_on_after_a_failure() {
    let mut b = broker(false, 0, 0);
    let r = session("r", Role::Receiver);
    reply(&mut b, &r, "declare_queue r_queue");
    reply(&mut b, &r, "declare_exchange e");
    reply(&mut b, &r, "bind r_queue e r_key");
    let mut answers = Vec::new();
    for (id, saved) in [
        ("m1", Ok(())),
        ("m1", Ok(())),
        ("m2", Err(StorageError::ChannelReceive)),
        ("m3", Ok(())),
    ] {
        answers.push(b.publish_in_batch("e", "r_key", message(id), saved, 1).reply);
    }
    assert_eq!(answers[0], "ACK m1");
    assert_eq!(answers[1], "Error: Duplicate message m1 ignored for message m1");
    assert_eq!(
        answers[2],
        "Error: Failed to save metadata: Channel receive error for message m2"
    );
    assert_eq!(answers[3], "ACK m3");
    assert_eq!(b.metrics.messages_published, 2);
    assert_eq!(b.state.queue_status()[0].1, 2);
}

#[test]
fn batch_answers_are_lines() {
    assert_eq!(batch_reply(&names(&["ACK a", "Error: x for message b"])), "ACK a\nError: x for message b\n");
    assert_eq!(batch_reply(&names(&["ACK a"])), "ACK a\n");
    assert_eq!(batch_reply(&vec![]), "\n");
}

#[test]
fn deliveries_are_retried() {
    let mut d = DeliveryAttempt::new();
    assert_eq!(d.after_write(WriteOutcome::WriteFailed), DeliveryStep::Retry);
    assert_eq!(d.after_write(WriteOutcome::FlushFailed), DeliveryStep::Retry);
    assert_eq!(d.after_write(WriteOutcome::WriteFailed), DeliveryStep::GiveUp);
    let mut d = DeliveryAttempt::new();
    assert_eq!(d.after_write(WriteOutcome::FlushFailed), DeliveryStep::Retry);
    assert_eq!(d.after_write(WriteOutcome::FlushFailed), DeliveryStep::Retry);
    assert_eq!(d.after_write(WriteOutcome::FlushFailed), DeliveryStep::Delivered);
    let mut d = DeliveryAttempt::new();
    assert_eq!(d.after_write(WriteOutcome::Flushed), DeliveryStep::Delivered);
    assert_eq!(d.retries, 0);
}
