use ciphermq::hybrid::{generate_key_pair, key_text, seal_content, DecryptError, EncryptedEnvelope};
use ciphermq::protocol::{bind_line, heartbeat_line, publish_line, request, setup_lines};
use ciphermq::receiver::{
    read_confirmation, is_registered, load_private_key, reconnects, register_key_line, Inbox, Incoming, Processed,
    ReadEvent, ReceiveStep, RecordBatch, SessionEnd, StoreEvent, StoredRecord,
};
use ciphermq::server::delivery_line;

fn envelope(public: &[u8; 32], content: &str) -> EncryptedEnvelope {
    seal_content(content, public, &[1u8; 32], &[2u8; 12]).unwrap()
}

fn record(n: usize) -> StoredRecord {
    StoredRecord { message_id: format!("m{}", n), content: "c".to_string(), timestamp_ms: n as i64 }
}

#[test]
fn the_private_key_is_loaded() {
    let (secret, public) = generate_key_pair();
    assert_eq!(load_private_key(&format!("{}\n", key_text(&secret))), Ok(secret));
    assert_eq!(load_private_key("*"), Err("Invalid Base64 in private key file"));
    assert_eq!(load_private_key("AAAA"), Err("Private key must be exactly 32 bytes"));
    assert_eq!(
        register_key_line(&format!(" {}\n", key_text(&public))).unwrap(),
        format!("register_public_key {}\n", key_text(&public))
    );
    assert_eq!(register_key_line("?"), Err("Invalid Base64 in public key file"));
    assert!(is_registered("Public key registered"));
    assert!(!is_registered("Error: no"));
}

#[test]
fn deliveries_are_understood() {
    let inbox = Inbox::new();
    let read = |line: &str| inbox.read_line(line);
    assert!(matches!(
        read(&delivery_line("m1", "{\"a\": 1}")),
        Incoming::Message { message_id, json } if message_id == "m1" && json == "{\"a\": 1}"
    ));
    assert!(matches!(
        read("Message:m1 {}\n"),
        Incoming::Message { message_id, json } if message_id == "m1" && json == "{}"
    ));
    assert!(matches!(read("Queue bound\n"), Incoming::Other));
    assert!(matches!(read("\n"), Incoming::Other));
    assert!(matches!(read("Message: \n"), Incoming::NoId));
    assert!(matches!(read("Message: m1\n"), Incoming::NoPayload));
}

#[test]
fn a_message_is_accepted_once() {
    let (secret, public) = generate_key_pair();
    let mut inbox = Inbox::new();
    let e = envelope(&public, "hello");
    assert!(matches!(
        inbox.process("m1", &e, &secret),
        Processed::Accepted(t) if t == "hello"
    ));
    assert!(matches!(
        inbox.read_line("Message: m1 {}"),
        Incoming::Duplicate(id) if id == "m1"
    ));
    assert!(matches!(inbox.read_line("Message: m2 {}"), Incoming::Message { .. }));
}

#[test]
fn a_message_that_cannot_be_read_may_come_again() {
    let (secret, public) = generate_key_pair();
    let mut inbox = Inbox::new();
    let mut e = envelope(&public, "hello");
    e.ciphertext = "*".to_string();
    assert!(matches!(
        inbox.process("m1", &e, &secret),
        Processed::Failed(DecryptError::CiphertextEncoding)
    ));
    let mut e = envelope(&public, "hello");
    e.nonce = "AAAA".to_string();
    assert!(matches!(inbox.process("m1", &e, &secret), Processed::Malformed));
    assert!(matches!(inbox.read_line("Message: m1 {}"), Incoming::Message { .. }));
}

#[test]
fn the_session_reacts_to_what_it_reads() {
    let inbox = Inbox::new();
    let line = |t: &str| ReadEvent::Line(t.to_string());
    assert!(matches!(inbox.step(&ReadEvent::Timeout, true), ReceiveStep::Continue));
    assert!(matches!(
        inbox.step(&ReadEvent::Timeout, false),
        ReceiveStep::End(SessionEnd::Stopped)
    ));
    assert!(matches!(
        inbox.step(&ReadEvent::Error, true),
        ReceiveStep::End(SessionEnd::ConnectionLost)
    ));
    assert!(matches!(
        inbox.step(&ReadEvent::Closed, true),
        ReceiveStep::End(SessionEnd::ConnectionLost)
    ));
    assert!(matches!(inbox.step(&line("Heartbeat received"), true), ReceiveStep::Continue));
    assert!(matches!(
        inbox.step(&line("Message: m {}"), true),
        ReceiveStep::Decrypt { message_id, .. } if message_id == "m"
    ));
    assert!(reconnects(SessionEnd::ConnectionLost));
    assert!(!reconnects(SessionEnd::RegistrationFailed));
    assert!(!reconnects(SessionEnd::Stopped));
}

#[test]
fn records_are_stored_in_batches() {
    let mut b = RecordBatch::new();
    for n in 0..99 {
        let (out, stop) = b.handle(StoreEvent::Received(record(n)));
        assert!(out.is_empty() && !stop);
    }
    let (out, stop) = b.handle(StoreEvent::Received(record(99)));
    assert_eq!(out.len(), 100);
    assert_eq!(out[0].message_id, "m0");
    assert_eq!(out[99].timestamp_ms, 99);
    assert!(!stop);
    b.handle(StoreEvent::Received(record(100)));
    let (out, stop) = b.handle(StoreEvent::Idle { running: true });
    assert_eq!(out.len(), 1);
    assert!(!stop);
    let (out, stop) = b.handle(StoreEvent::Idle { running: false });
    assert!(out.is_empty() && stop);
    b.handle(StoreEvent::Received(record(101)));
    let (out, stop) = b.handle(StoreEvent::Closed);
    assert_eq!(out.len(), 1);
    assert!(stop);
    assert_eq!(b.received_count(), 102);
}

#[test]
fn requests_are_lines() {
    assert_eq!(request("consume", "q"), "consume q\n");
    assert_eq!(bind_line("q", "e", "k"), "bind q e k\n");
    assert_eq!(publish_line("e", "k", "{}"), "publish e k {}\n");
    assert_eq!(heartbeat_line(), "heartbeat\n");
    assert_eq!(
        setup_lines("q", "e", "k"),
        vec!["declare_queue q\n", "declare_exchange e\n", "bind q e k\n"]
    );
}

#[test]
fn confirmations_name_their_message() {
    assert_eq!(read_confirmation("ACK_CONFIRMED m1\n"), Some("m1".to_string()));
    assert_eq!(read_confirmation("ACK m1\n"), None);
    assert_eq!(read_confirmation("Message: m1 {}\n"), None);
}
