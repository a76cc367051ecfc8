use ciphermq::acl::{AclManager, Role};
use ciphermq::config::RateLimitConfig;
use ciphermq::framing::LineBuffer;
use ciphermq::heartbeat::HeartbeatMonitor;
use ciphermq::hybrid::{generate_key_pair, key_text, EncryptedEnvelope};
use ciphermq::metrics::Metrics;
use ciphermq::protocol::{publish_line, request, setup_lines};
use ciphermq::rate_limiter::{RateLimitResult, RateLimiter};
use ciphermq::receiver::{is_registered, register_key_line, Inbox, Incoming, Processed};
use ciphermq::sender::{
    encrypt_for_all_receivers, message_with_id, read_key_answer, AckResult, Binding, MessageConfig,
    Pipeline,
};
use ciphermq::server::{
    delivery_line, get_key_reply, save_key_reply, Broker, Screening, Session, Step,
};
use ciphermq::state::{EncryptedInputData, ServerState};
use ciphermq::storage::{PublicKeyData, StorageAction, StorageCommand, StorageWorker};

fn s(t: &str) -> String {
    t.to_string()
}

fn broker() -> Broker {
    Broker {
        state: ServerState::new(10),
        metrics: Metrics::new(),
        limiter: RateLimiter::new(&RateLimitConfig::default()),
        heartbeats: HeartbeatMonitor::new(60),
        acl: AclManager::new(vec![s("sender_1")], vec![s("receiver_1")], vec![]),
    }
}

fn session(name: &str, role: Role) -> Session {
    Session { client_id: s(name), ip: s("::1"), role, consumer: 1 }
}

fn send(broker: &mut Broker, session: &Session, line: &str) -> Step {
    let mut buffer = LineBuffer::new();
    buffer.push(line.as_bytes());
    let line = buffer.next_line().expect("a line");
    match broker.screen(session, &line, 1) {
        Screening::Refused(reply) => panic!("{}", reply),
        Screening::Passed { command, arguments, .. } => {
            broker.execute(session, &command, &arguments, RateLimitResult::Allowed, 1)
        }
    }
}

#[test]
fn requests_arrive_as_they_were_sent() {
    let mut b = broker();
    let r = session("receiver_1", Role::Receiver);
    for line in setup_lines("receiver_1_queue", "exchange", "receiver_1_key") {
        assert!(matches!(send(&mut b, &r, &line), Step::Reply(_)));
    }
    assert_eq!(
        b.state.binding_list(),
        vec![(s("exchange"), s("receiver_1_queue"), s("receiver_1_key"))]
    );
    let p = session("sender_1", Role::Sender);
    match send(&mut b, &p, &publish_line("exchange", "receiver_1_key", "{\"a\": \"b c\"}")) {
        Step::Publish { exchange, routing_key, json } => {
            assert_eq!(exchange, "exchange");
            assert_eq!(routing_key, "receiver_1_key");
            assert_eq!(json, "{\"a\": \"b c\"}");
        }
        _ => panic!("not a publication"),
    }
    match send(&mut b, &p, &request("get_public_key", "receiver_1")) {
        Step::FindKey(client) => assert_eq!(client, "receiver_1"),
        _ => panic!("not a lookup"),
    }
}

#[test]
fn a_content_travels_from_end_to_end() {
    let (secret, public) = generate_key_pair();
    let mut b = broker();
    let mut storage = StorageWorker::new(vec![1u8; 32]);
    let r = session("receiver_1", Role::Receiver);
    let p = session("sender_1", Role::Sender);

    // The receiver registers its key, which is stored sealed.
    let row = match send(&mut b, &r, &register_key_line(&key_text(&public)).unwrap()) {
        Step::SaveKey(key) => {
            let data = PublicKeyData { client_id: r.client_id.clone(), public_key: key };
            match storage.handle(StorageCommand::SavePublicKey(data)) {
                StorageAction::UpsertKey(row) => row,
                _ => panic!("not stored"),
            }
        }
        _ => panic!("not a registration"),
    };
    assert!(is_registered(save_key_reply(&Ok(())).trim()));
    for line in setup_lines("receiver_1_queue", "e", "receiver_1_key") {
        send(&mut b, &r, &line);
    }

    // The sender asks for the key and encrypts with it.
    let found = storage.read_key(&row).unwrap().map(Some);
    let key = read_key_answer(get_key_reply(&found).trim()).unwrap();
    let message = message_with_id("sender_1", &MessageConfig::default(), "0", 1, 7);
    let bindings = vec![Binding {
        queue_name: s("receiver_1_queue"),
        exchange_name: s("e"),
        routing_key: s("receiver_1_key"),
    }];
    let receivers = vec![(s("receiver_1"), Some(key))];
    let sent = encrypt_for_all_receivers(&message, &receivers, &bindings, "now").remove(0);
    let mut window = Pipeline::new(1);
    window.begin(sent.clone());

    // The broker takes the message in and answers.
    let taken = EncryptedInputData {
        message_id: sent.message_id.clone(),
        receiver_client_id: sent.receiver_client_id.clone(),
        enc_session_key: sent.enc_session_key.clone(),
        nonce: sent.nonce.clone(),
        ciphertext: sent.ciphertext.clone(),
    };
    assert!(matches!(
        send(&mut b, &p, &publish_line("e", &sent.routing_key, "{}")),
        Step::Publish { .. }
    ));
    let publication = b.publish("e", &sent.routing_key, taken, Ok(()), 1);
    assert!(matches!(
        window.on_line(&publication.reply),
        AckResult::Acked(id) if id == sent.message_id
    ));
    assert!(window.is_drained());

    // The receiver is handed the message, decrypts it once and acknowledges it.
    let pending = match send(&mut b, &r, &request("consume", "receiver_1_queue")) {
        Step::Deliver(pending) => pending,
        _ => panic!("no delivery"),
    };
    let mut inbox = Inbox::new();
    let line = delivery_line(&pending[0].0, "{}");
    match inbox.read_line(&line) {
        Incoming::Message { message_id, .. } => {
            let envelope = EncryptedEnvelope {
                enc_session_key: pending[0].1.enc_session_key.clone(),
                nonce: pending[0].1.nonce.clone(),
                ciphertext: pending[0].1.ciphertext.clone(),
            };
            assert!(matches!(
                inbox.process(&message_id, &envelope, &secret),
                Processed::Accepted(text) if text == message.content
            ));
            assert!(matches!(
                send(&mut b, &r, &request("ack", &message_id)),
                Step::Acknowledged { known: true, .. }
            ));
        }
        _ => panic!("not a message"),
    }
    assert!(matches!(inbox.read_line(&line), Incoming::Duplicate(_)));
    assert_eq!(b.state.total_messages(), 0);
}

#[test]
fn refusals_reach_the_sender() {
    let mut b = broker();
    let m = EncryptedInputData {
        message_id: s("m"),
        receiver_client_id: s("r"),
        enc_session_key: s("k"),
        nonce: s("n"),
        ciphertext: s("c"),
    };
    let reply = b.publish("e", "k", m, Ok(()), 1).reply;
    let mut window = Pipeline::new(1);
    assert!(matches!(
        window.on_line(&reply),
        AckResult::ServerError(t)
            if t == "Error: No queues bound to exchange 'e' with routing key 'k'"
    ));
}
