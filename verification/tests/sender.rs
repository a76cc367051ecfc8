use base64::engine::general_purpose::STANDARD;
use base64::Engine;
use ciphermq::hybrid::{decrypt_message, generate_key_pair, key_text, EncryptedEnvelope};
use ciphermq::sender::{
    acknowledged_among, after_fetch, after_retry, backoff_secs, batch_end, drain_secs, encrypt_for_all_receivers,
    encrypt_message, ends_draining, generate_message, message_with_id, read_key_answer, routing_key_for, AckResult, Binding, DrainEvent,
    EncryptError, EncryptedMessage, FetchStep, MessageConfig, Pipeline, PlainMessage, RetryOutcome,
    RetryStep, SenderConfig,
};
use ciphermq::sender_run::{RunAction, SenderRun};

fn s(t: &str) -> String {
    t.to_string()
}

fn plain(content: &str) -> PlainMessage {
    PlainMessage { correlation_id: s("0011aabb"), sender_id: s("sender_1"), content: s(content) }
}

fn sent(id: &str) -> EncryptedMessage {
    EncryptedMessage {
        message_id: s(id),
        receiver_client_id: s("r"),
        enc_session_key: s("k"),
        nonce: s("n"),
        ciphertext: s("c"),
        sent_time: s("t"),
        routing_key: s("r_key"),
    }
}

fn envelope(m: &EncryptedMessage) -> EncryptedEnvelope {
    EncryptedEnvelope {
        enc_session_key: m.enc_session_key.clone(),
        nonce: m.nonce.clone(),
        ciphertext: m.ciphertext.clone(),
    }
}

#[test]
fn templates_are_filled_in() {
    let c = MessageConfig {
        content_template: s("{seq}/{sender_id}/{correlation_id}/{timestamp}/{env}/{env}{x}"),
        extra_fields: vec![(s("env"), s("prod {x}")), (s("x"), s("!"))],
    };
    assert_eq!(c.render("me", "id", "1.500", 7), "7/me/id/1.500/prod !/prod !!");
    assert_eq!(
        MessageConfig::default().render("me", "id", "1.5", 7),
        "me-CipherMQ Sample message with ID: id"
    );
    assert_eq!(
        MessageConfig::default_template(),
        "{sender_id}-CipherMQ Sample message with ID: {correlation_id}"
    );
}

#[test]
fn a_message_goes_by_the_start_of_its_identifier() {
    let id = 0x0123_4567_89ab_cdef_0123_4567_89ab_cdefu128;
    let m = message_with_id("me", &MessageConfig::default(), "1", 1, id);
    assert_eq!(m.correlation_id, "01234567");
    assert_eq!(m.sender_id, "me");
    assert_eq!(m.content, "me-CipherMQ Sample message with ID: 01234567");
    let a = generate_message("me", &MessageConfig::default(), "1", 1);
    let b = generate_message("me", &MessageConfig::default(), "1", 1);
    assert_eq!(a.correlation_id.len(), 8);
    assert_ne!(a.correlation_id, b.correlation_id);
}

#[test]
fn an_encrypted_message_reaches_its_receiver() {
    let (secret, public) = generate_key_pair();
    let key = format!(" {}\n", key_text(&public));
    let m = encrypt_message(&plain("hello"), &key, "receiver_1", "rk", "now").unwrap();
    assert_eq!(m.message_id, "sender_1-0011aabb-receiver_1");
    assert_eq!(m.receiver_client_id, "receiver_1");
    assert_eq!(m.routing_key, "rk");
    assert_eq!(m.sent_time, "now");
    assert_eq!(decrypt_message(&envelope(&m), &secret).unwrap().unwrap(), "hello");
    let decoded = |text: &str| STANDARD.decode(text).unwrap().len();
    assert_eq!(decoded(&m.enc_session_key), 80);
    assert_eq!(decoded(&m.nonce), 12);
    assert_eq!(decoded(&m.ciphertext), "hello".len() + 16);
    let again = encrypt_message(&plain("hello"), &key, "receiver_1", "rk", "now").unwrap();
    assert_ne!(m.ciphertext, again.ciphertext);
    assert_ne!(m.nonce, again.nonce);
}

#[test]
fn bad_keys_are_refused() {
    let refused = |key: &str| encrypt_message(&plain("x"), key, "r", "k", "t").err().unwrap();
    assert_eq!(refused("*"), EncryptError::KeyEncoding);
    assert_eq!(refused("AAAA"), EncryptError::KeyLength);
    assert_eq!(EncryptError::KeyEncoding.text(), "Bad Base64 in receiver public key");
    assert_eq!(EncryptError::KeyLength.text(), "Receiver public key must be 32 bytes");
    assert_eq!(EncryptError::ContentTooLong.text(), "ChaCha20 encrypt failed: aead::Error");
}

fn bindings() -> Vec<Binding> {
    let b = |q: &str, k: &str| Binding {
        queue_name: s(q),
        exchange_name: s("e"),
        routing_key: s(k),
    };
    vec![b("a_queue", "first"), b("b_queue", "kb"), b("a_queue", "last")]
}

#[test]
fn receivers_have_routing_keys() {
    assert_eq!(routing_key_for(&bindings(), "a"), "last");
    assert_eq!(routing_key_for(&bindings(), "b"), "kb");
    assert_eq!(routing_key_for(&bindings(), "c"), "c_key");
}

#[test]
fn every_receiver_gets_a_copy_of_its_own() {
    let (sa, pa) = generate_key_pair();
    let (sb, pb) = generate_key_pair();
    let receivers = vec![
        (s("a"), Some(format!("{}\n", key_text(&pa)))),
        (s("lost"), None),
        (s("bad"), Some(s("*"))),
        (s("b"), Some(key_text(&pb))),
    ];
    let all = encrypt_for_all_receivers(&plain("hi"), &receivers, &bindings(), "t");
    assert_eq!(all.len(), 2);
    assert_eq!(all[0].receiver_client_id, "a");
    assert_eq!(all[0].routing_key, "last");
    assert_eq!(all[1].message_id, "sender_1-0011aabb-b");
    assert_eq!(decrypt_message(&envelope(&all[0]), &sa).unwrap().unwrap(), "hi");
    assert_eq!(decrypt_message(&envelope(&all[1]), &sb).unwrap().unwrap(), "hi");
    assert!(decrypt_message(&envelope(&all[0]), &sb).unwrap().is_err());
}

#[test]
fn the_window_limits_messages_in_flight() {
    let mut p = Pipeline::new(2);
    assert!(p.can_send());
    p.begin(sent("a"));
    p.begin(sent("b"));
    assert!(!p.can_send());
    assert!(!p.is_drained());
    assert!(matches!(p.on_line("ACK a\n"), AckResult::Acked(id) if id == "a"));
    assert!(p.can_send());
    // A second acknowledgement makes no more room.
    assert!(matches!(p.on_line("ACK a\n"), AckResult::Acked(_)));
    p.begin(sent("c"));
    assert!(!p.can_send());
    p.write_failed("c");
    assert!(p.can_send());
    p.begin(sent("d"));
    assert!(!p.can_send());
    assert!(matches!(p.on_line("Error: no\n"), AckResult::ServerError(t) if t == "Error: no"));
    assert!(matches!(p.on_line(" what \n"), AckResult::Unknown(t) if t == "what"));
    p.written();
    assert_eq!(p.sent_count(), 1);
    let mut left: Vec<String> = p.unacknowledged().iter().map(|m| m.message_id.clone()).collect();
    left.sort();
    // What could not be written is kept.
    assert_eq!(left, vec![s("b"), s("c"), s("d")]);
    // It may have come through after all, which makes no more room.
    assert!(matches!(p.on_line("ACK c\n"), AckResult::Acked(_)));
    assert!(!p.can_send());
    assert_eq!(p.unacknowledged().len(), 2);
}

#[test]
fn batches_end_where_they_should() {
    assert_eq!(batch_end(0, 10, 25), 10);
    assert_eq!(batch_end(10, 10, 25), 20);
    assert_eq!(batch_end(20, 10, 25), 25);
    assert_eq!(batch_end(5, usize::MAX, 25), 25);
    assert_eq!(batch_end(15, 10, 25), 25);
}

#[test]
fn waits_double() {
    assert_eq!(backoff_secs(0), 1);
    assert_eq!(backoff_secs(1), 2);
    assert_eq!(backoff_secs(10), 1024);
    assert_eq!(backoff_secs(63), 1 << 63);
    assert_eq!(backoff_secs(64), u64::MAX);
    assert_eq!(drain_secs(30), 35);
    assert_eq!(drain_secs(u64::MAX - 2), u64::MAX);
}

#[test]
fn retries_wait_for_their_own_acknowledgement() {
    let acked = |id: &str| RetryOutcome::Answered(AckResult::Acked(s(id)));
    assert_eq!(after_retry("a", 0, 3, &acked("a")), RetryStep::Acknowledged);
    assert_eq!(after_retry("a", 0, 3, &acked("b")), RetryStep::Wait { secs: 1, last: false });
    assert_eq!(
        after_retry("a", 1, 3, &RetryOutcome::WriteFailed),
        RetryStep::Wait { secs: 2, last: false }
    );
    assert_eq!(
        after_retry("a", 2, 3, &RetryOutcome::NoAnswer),
        RetryStep::Wait { secs: 4, last: true }
    );
    let error = RetryOutcome::Answered(AckResult::IoError(s("x")));
    assert_eq!(after_retry("a", 0, 1, &error), RetryStep::Wait { secs: 1, last: true });
}

#[test]
fn keys_are_fetched_again() {
    assert_eq!(after_fetch(0, 3, Some(2)), FetchStep::Done);
    assert_eq!(after_fetch(0, 3, Some(0)), FetchStep::Wait { secs: 0, last: false });
    assert_eq!(after_fetch(1, 3, None), FetchStep::Wait { secs: 2, last: false });
    assert_eq!(after_fetch(2, 3, None), FetchStep::Wait { secs: 4, last: true });
    assert_eq!(read_key_answer("Public key: AAAA"), Some(s("AAAA")));
    assert_eq!(read_key_answer("Public key not found"), None);
    assert_eq!(read_key_answer("Error: x"), None);
}

fn config(num: usize, inflight: usize, batch: usize, retries: u32) -> SenderConfig {
    let mut c = SenderConfig::default();
    c.num_messages = num;
    c.max_inflight = inflight;
    c.batch_size = batch;
    c.max_retries = retries;
    c
}

#[test]
fn sender_defaults_are_as_documented() {
    let c = SenderConfig::default();
    assert_eq!((c.num_messages, c.max_inflight, c.max_retries), (100, 20, 3));
    assert_eq!((c.ack_timeout_secs, c.tcp_connect_timeout_secs), (30, 120));
    assert_eq!((c.batch_size, c.batch_delay_ms), (10, 10));
}

#[test]
fn a_run_sends_everything_and_tries_again() {
    let mut run = SenderRun::new(&config(3, 2, 2, 2));
    let mut written = Vec::new();
    let mut pauses = 0;
    let mut made = 0;
    loop {
        match run.next(false) {
            RunAction::Encrypt(n) => {
                made += 1;
                assert_eq!(n, made);
                run.encrypted(vec![sent(&format!("m{}", n))]);
            }
            RunAction::AwaitPermit => {
                // The oldest message is acknowledged.
                assert!(matches!(run.on_line("ACK m1"), AckResult::Acked(_)));
            }
            RunAction::Write(m) => {
                written.push(m.message_id.clone());
                run.wrote(&m.message_id, true);
            }
            RunAction::PauseBatch => pauses += 1,
            RunAction::Drain => break,
            _ => panic!("not yet"),
        }
    }
    assert_eq!(written, vec![s("m1"), s("m2"), s("m3")]);
    assert_eq!(pauses, 1);
    assert!(matches!(run.next(false), RunAction::Drain));
    let first = match run.next(true) {
        RunAction::Resend(m) => m.message_id,
        _ => panic!("nothing is sent again"),
    };
    assert_eq!(run.resent(&RetryOutcome::NoAnswer), Some(1));
    assert!(matches!(run.next(true), RunAction::Resend(m) if m.message_id == first));
    assert_eq!(run.resent(&RetryOutcome::WriteFailed), Some(2));
    let second = match run.next(true) {
        RunAction::Resend(m) => m.message_id,
        _ => panic!("nothing is sent again"),
    };
    assert_ne!(first, second);
    assert_eq!(run.resent(&RetryOutcome::Answered(AckResult::Acked(second))), None);
    assert!(matches!(run.next(true), RunAction::Finish { sent: 3, failed: 1 }));
}

#[test]
fn a_run_without_retries_gives_up_at_once() {
    let mut run = SenderRun::new(&config(1, 1, 1, 0));
    assert!(matches!(run.next(false), RunAction::Encrypt(1)));
    run.encrypted(vec![sent("a"), sent("b")]);
    assert!(matches!(run.next(false), RunAction::Write(_)));
    run.wrote("a", false);
    assert!(matches!(run.next(false), RunAction::Write(_)));
    run.wrote("b", true);
    assert!(matches!(run.next(false), RunAction::Drain));
    assert!(matches!(run.next(true), RunAction::Finish { sent: 1, failed: 2 }));
}

#[test]
fn a_message_that_could_not_be_written_is_sent_again() {
    let mut run = SenderRun::new(&config(1, 1, 1, 100));
    assert!(matches!(run.next(false), RunAction::Encrypt(1)));
    run.encrypted(vec![sent("a")]);
    assert!(matches!(run.next(false), RunAction::Write(_)));
    run.wrote("a", false);
    assert!(matches!(run.next(false), RunAction::Drain));
    for attempt in 0..99 {
        assert!(matches!(run.next(false), RunAction::Resend(m) if m.message_id == "a"));
        assert_eq!(run.resent(&RetryOutcome::WriteFailed), Some(backoff_secs(attempt)));
    }
    assert!(matches!(run.next(false), RunAction::Resend(m) if m.message_id == "a"));
    assert_eq!(run.resent(&RetryOutcome::WriteFailed), Some(u64::MAX));
    assert!(matches!(run.next(false), RunAction::Finish { sent: 0, failed: 1 }));
}

#[test]
fn an_empty_run_is_over_at_once() {
    let mut run = SenderRun::new(&config(0, 1, 1, 1));
    assert!(matches!(run.next(false), RunAction::Drain));
    assert!(matches!(run.next(false), RunAction::Finish { sent: 0, failed: 0 }));
}

#[test]
fn draining_ends_with_the_connection() {
    assert!(ends_draining(&DrainEvent::Closed));
    assert!(ends_draining(&DrainEvent::Answer(AckResult::IoError(s("x")))));
    assert!(!ends_draining(&DrainEvent::Silence));
    assert!(!ends_draining(&DrainEvent::Answer(AckResult::Acked(s("a")))));
}

#[test]
fn a_late_acknowledgement_is_found() {
    let answers = vec![AckResult::Unknown(s("a")), AckResult::Acked(s("b"))];
    assert!(acknowledged_among(&answers, "b"));
    assert!(!acknowledged_among(&answers, "a"));
    assert!(!acknowledged_among(&Vec::new(), "b"));
}
