use ciphermq::basic::server::{batch_line, publish_reply, Step};
use ciphermq::basic::state::{EncryptedInputData, ServerState};

fn message(id: &str) -> EncryptedInputData {
    EncryptedInputData {
        message_id: id.to_string(),
        receiver_client_id: "r".to_string(),
        enc_session_key: "k".to_string(),
        nonce: "n".to_string(),
        tag: "t".to_string(),
        ciphertext: "c".to_string(),
    }
}

fn reply(state: &mut ServerState, line: &str) -> String {
    match state.handle_line(3, line.as_bytes(), 9) {
        Step::Reply(t) => t,
        _ => panic!("not a reply"),
    }
}

fn bound() -> ServerState {
    let mut state = ServerState::new();
    assert_eq!(reply(&mut state, "declare_queue q\n"), "Queue declared\n");
    assert_eq!(reply(&mut state, "declare_exchange e\n"), "Exchange declared\n");
    assert_eq!(reply(&mut state, "bind q e k\n"), "Queue bound\n");
    state
}

#[test]
fn a_queue_bound_twice_gets_a_message_twice() {
    let mut state = bound();
    state.bind_queue("q", "e", "k");
    state.bind_queue("q", "missing", "k");
    state.publish("e", "k", message("m"), 1, Ok(())).unwrap();
    assert_eq!(state.consume("q", 2).unwrap().0, "m");
    assert_eq!(state.consume("q", 2).unwrap().0, "m");
    assert!(state.consume("q", 2).is_none());
}

#[test]
fn basic_publications_are_refused() {
    let mut state = bound();
    assert_eq!(
        state.publish("e", "x", message("m"), 1, Ok(())).unwrap_err(),
        "No queues bound to exchange 'e' with routing key 'x'"
    );
    assert_eq!(
        state.publish("e", "k", message("m"), 1, Err("no".to_string())).unwrap_err(),
        "Failed to save metadata: no"
    );
    let m = state.publish_metadata("e", "k", &message("m"), "s", "t".to_string()).ok().unwrap();
    assert_eq!((m.message_id.as_str(), m.client_id.as_str()), ("m", "s"));
    state.publish("e", "k", message("m"), 1, Ok(())).unwrap();
    assert_eq!(
        state.publish("e", "k", message("m"), 1, Ok(())).unwrap_err(),
        "Duplicate message m ignored"
    );
    assert!(state.publish_metadata("e", "k", &message("m"), "s", "t".to_string()).is_err());
}

#[test]
fn basic_acknowledgements_clear_every_queue() {
    let mut state = bound();
    state.declare_queue("p");
    state.bind_queue("p", "e", "k");
    state.publish("e", "k", message("a"), 1, Ok(())).unwrap();
    state.publish("e", "k", message("b"), 1, Ok(())).unwrap();
    match state.handle_line(3, b"ack a\n", 9) {
        Step::Acknowledged { message_id, known, reply } => {
            assert_eq!((message_id.as_str(), known), ("a", true));
            assert_eq!(reply, "ACK_CONFIRMED a\n");
        }
        _ => panic!("no acknowledgement"),
    }
    assert!(!state.acknowledge("a"));
    assert_eq!(state.consume("q", 1).unwrap().0, "b");
    assert_eq!(state.consume("p", 1).unwrap().0, "b");
}

#[test]
fn messages_can_be_fetched() {
    let mut state = bound();
    assert_eq!(reply(&mut state, "fetch q\n"), "No messages\n");
    state.publish("e", "k", message("m"), 1, Ok(())).unwrap();
    match state.handle_line(3, b"fetch q\n", 9) {
        Step::Send { message_id, message, known } => {
            assert_eq!(message_id, "m");
            assert_eq!(message.tag, "t");
            assert!(known);
        }
        _ => panic!("nothing sent"),
    }
    assert!(state.mark_delivered("m", 3));
    assert!(!state.mark_delivered("x", 3));
    assert_eq!(reply(&mut state, "fetch\n"), "Missing queue name\n");
}

#[test]
fn basic_consumers_are_told() {
    let mut state = bound();
    assert_eq!(reply(&mut state, "consume q\n"), "Subscribed to queue\n");
    state.register_consumer("q", 4);
    let notices = state.publish("e", "k", message("m"), 1, Ok(())).unwrap();
    assert_eq!(notices, vec![("q".to_string(), vec![3, 4])]);
    state.drop_consumers("q", &vec![3]);
    state.drop_consumers("none", &vec![3]);
    let notices = state.publish("e", "k", message("n"), 1, Ok(())).unwrap();
    assert_eq!(notices, vec![("q".to_string(), vec![4])]);
}

#[test]
fn basic_requests_need_their_arguments() {
    let mut state = ServerState::new();
    for (line, text) in [
        ("declare_queue", "Missing queue name\n"),
        ("declare_exchange", "Missing exchange name\n"),
        ("bind q e", "Missing parameters\n"),
        ("publish e k", "Missing parameters\n"),
        ("publish_batch e", "Missing parameters\n"),
        ("consume", "Missing queue name\n"),
        ("ack", "Missing message ID\n"),
        ("resend", "Missing message ID\n"),
        ("register_public_key", "Missing public key\n"),
        ("get_public_key", "Missing client ID\n"),
        ("heartbeat", "Unknown command\n"),
        ("", "Unknown command\n"),
    ] {
        assert_eq!(reply(&mut state, line), text);
    }
    assert!(matches!(
        state.handle_request(1, "publish e k {}", 1),
        Step::Publish { json, .. } if json == "{}"
    ));
    assert!(matches!(
        state.handle_request(1, "publish_batch e k []", 1),
        Step::PublishBatch { exchange, .. } if exchange == "e"
    ));
    assert!(matches!(state.handle_request(1, "resend m", 1), Step::FindSender(t) if t == "m"));
    assert!(matches!(
        state.handle_request(1, "register_public_key K", 1),
        Step::SaveKey(t) if t == "K"
    ));
    assert!(matches!(state.handle_request(1, "get_public_key r", 1), Step::FindKey(t) if t == "r"));
}

#[test]
fn basic_answers() {
    let refused = Err("no".to_string());
    assert_eq!(publish_reply("m", &Ok(vec![])), "ACK m\n");
    assert_eq!(publish_reply("m", &refused), "Error: no\n");
    assert_eq!(batch_line("m", &Ok(vec![])), "ACK m");
    assert_eq!(batch_line("m", &refused), "Error: no for message m");
}

#[test]
fn basic_clients_are_counted() {
    let mut state = ServerState::new();
    state.increment_client_count();
    state.increment_client_count();
    state.decrement_client_count();
    assert_eq!(state.client_count(), 1);
}
