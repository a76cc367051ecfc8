use ciphermq::state::{EncryptedInputData, MessageStatus, ServerState};

fn message(id: &str) -> EncryptedInputData {
    EncryptedInputData {
        message_id: id.to_string(),
        receiver_client_id: "receiver_1".to_string(),
        enc_session_key: "k".to_string(),
        nonce: "n".to_string(),
        ciphertext: format!("body of {}", id),
    }
}

fn bound(max: usize) -> ServerState {
    let mut state = ServerState::new(max);
    state.declare_queue("q1");
    state.declare_queue("q2");
    state.declare_exchange("e");
    state.bind_queue("q1", "e", "k");
    state
}

fn publish(state: &mut ServerState, id: &str) -> Result<Vec<(String, Vec<u64>)>, String> {
    state.publish("e", "k", message(id), 7, Ok(()))
}

fn ids(entries: &[(String, EncryptedInputData)]) -> Vec<String> {
    entries.iter().map(|e| e.0.clone()).collect()
}

fn length(state: &ServerState, queue: &str) -> Option<usize> {
    state.queue_status().into_iter().find(|q| q.0 == queue).map(|q| q.1)
}

#[test]
fn a_message_reaches_every_bound_queue_once() {
    let mut state = bound(10);
    state.bind_queue("q2", "e", "k");
    assert!(publish(&mut state, "a").is_ok());
    assert_eq!(length(&state, "q1"), Some(1));
    assert_eq!(length(&state, "q2"), Some(1));
    let (id, m) = state.consume("q1", 9).unwrap();
    assert_eq!(id, "a");
    assert_eq!(m.ciphertext, "body of a");
    assert_eq!(m.receiver_client_id, "receiver_1");
    assert_eq!(m.enc_session_key, "k");
    assert_eq!(m.nonce, "n");
    assert_eq!(length(&state, "q1"), Some(0));
    assert_eq!(length(&state, "q2"), Some(1));
}

#[test]
fn other_routing_keys_and_exchanges_lead_nowhere() {
    let mut state = bound(10);
    assert_eq!(
        state.publish("e", "other", message("a"), 1, Ok(())).unwrap_err(),
        "No queues bound to exchange 'e' with routing key 'other'"
    );
    assert_eq!(
        state.publish("none", "k", message("a"), 1, Ok(())).unwrap_err(),
        "No queues bound to exchange 'none' with routing key 'k'"
    );
    assert_eq!(state.total_messages(), 0);
    assert!(!state.can_deliver("a"));
}

#[test]
fn duplicates_are_refused_until_acknowledged() {
    let mut state = bound(10);
    assert!(publish(&mut state, "a").is_ok());
    assert_eq!(publish(&mut state, "a").unwrap_err(), "Duplicate message a ignored");
    assert!(state.publish_metadata("e", "k", &message("a"), "s", "t".to_string()).is_err());
    assert!(state.acknowledge("a"));
    assert!(!state.acknowledge("a"));
    assert!(publish(&mut state, "a").is_ok());
}

#[test]
fn metadata_describes_the_message() {
    let state = bound(10);
    let m = state
        .publish_metadata("e", "k", &message("a"), "sender_1", "2024".to_string())
        .ok()
        .unwrap();
    assert_eq!(m.message_id, "a");
    assert_eq!(m.client_id, "sender_1");
    assert_eq!(m.exchange_name, "e");
    assert_eq!(m.routing_key, "k");
    assert_eq!(m.sent_time, Some("2024".to_string()));
    assert_eq!(m.delivered_time, None);
    assert_eq!(m.acknowledged_time, None);
}

#[test]
fn a_message_whose_metadata_was_not_stored_is_refused() {
    let mut state = bound(10);
    let refused = state.publish("e", "k", message("a"), 1, Err("disk full".to_string()));
    assert_eq!(refused.unwrap_err(), "Failed to save metadata: disk full");
    assert_eq!(state.total_messages(), 0);
}

#[test]
fn acknowledged_messages_leave_every_queue() {
    let mut state = bound(10);
    state.bind_queue("q2", "e", "k");
    publish(&mut state, "a").unwrap();
    publish(&mut state, "b").unwrap();
    assert!(state.acknowledge("a"));
    assert_eq!(ids(&state.register_consumer("q1", 1)), vec!["b"]);
    assert_eq!(ids(&state.register_consumer("q2", 1)), vec!["b"]);
    assert!(!state.can_deliver("a"));
    assert!(state.can_deliver("b"));
}

#[test]
fn a_full_queue_loses_its_oldest_message() {
    let mut state = bound(2);
    for id in ["a", "b", "c"] {
        publish(&mut state, id).unwrap();
    }
    assert_eq!(ids(&state.register_consumer("q1", 1)), vec!["b", "c"]);
    assert!(!state.can_deliver("a"));
    assert!(publish(&mut state, "a").is_ok());
    assert_eq!(ids(&state.register_consumer("q1", 1)), vec!["c", "a"]);
}

#[test]
fn a_queue_without_room_holds_one_message() {
    let mut state = bound(0);
    publish(&mut state, "a").unwrap();
    publish(&mut state, "b").unwrap();
    assert_eq!(length(&state, "q1"), Some(1));
    assert_eq!(state.consume("q1", 1).unwrap().0, "b");
}

#[test]
fn messages_leave_in_order() {
    let mut state = bound(10);
    for id in ["a", "b", "c"] {
        publish(&mut state, id).unwrap();
    }
    assert_eq!(state.consume("q1", 1).unwrap().0, "a");
    assert_eq!(state.consume("q1", 1).unwrap().0, "b");
    assert_eq!(state.consume("q1", 1).unwrap().0, "c");
    assert!(state.consume("q1", 1).is_none());
    assert!(state.consume("nowhere", 1).is_none());
}

#[test]
fn consumers_are_told_of_messages() {
    let mut state = bound(10);
    assert!(state.register_consumer("q1", 5).is_empty());
    state.register_consumer("q1", 6);
    state.register_consumer("elsewhere", 7);
    let notices = publish(&mut state, "a").unwrap();
    assert_eq!(notices, vec![("q1".to_string(), vec![5, 6])]);
    assert_eq!(state.cleanup_consumers_for_queue("q1", &vec![5, 9]), 1);
    assert_eq!(state.cleanup_consumers_for_queue("nowhere", &vec![5]), 0);
    let notices = publish(&mut state, "b").unwrap();
    assert_eq!(notices, vec![("q1".to_string(), vec![6])]);
}

#[test]
fn dead_consumers_are_forgotten() {
    let mut state = bound(10);
    state.register_consumer("q1", 1);
    state.register_consumer("q1", 2);
    state.register_consumer("q2", 1);
    let mut stats = state.get_consumer_stats(&vec![1]);
    stats.sort();
    assert_eq!(stats, vec![("q1".to_string(), 2, 1), ("q2".to_string(), 1, 0)]);
    state.cleanup_dead_consumers(&vec![1]);
    assert_eq!(state.get_consumer_stats(&vec![]), vec![("q1".to_string(), 1, 1)]);
    assert_eq!(state.total_consumers(), 1);
}

#[test]
fn binding_twice_is_binding_once() {
    let mut state = bound(10);
    state.bind_queue("q1", "e", "k");
    state.bind_queue("missing", "e", "k");
    state.bind_queue("q1", "missing", "k");
    assert_eq!(
        state.binding_list(),
        vec![("e".to_string(), "q1".to_string(), "k".to_string())]
    );
    state.declare_queue("q1");
    state.declare_exchange("e");
    assert_eq!(state.exchange_list(), vec!["e".to_string()]);
}

#[test]
fn old_deliveries_without_an_answer_expire() {
    let mut state = bound(10);
    for id in ["a", "b", "c"] {
        publish(&mut state, id).unwrap();
    }
    assert!(state.mark_delivered("a", 100));
    assert!(!state.mark_delivered("a", 150));
    assert!(state.mark_delivered("b", 151));
    assert!(!state.mark_delivered("nothing", 1));
    assert_eq!(state.cleanup_old_messages(150, 50), Vec::<String>::new());
    assert_eq!(state.cleanup_old_messages(151, 50), vec!["a".to_string()]);
    assert_eq!(ids(&state.register_consumer("q1", 1)), vec!["b", "c"]);
    assert_eq!(state.cleanup_old_messages(151, 50), Vec::<String>::new());
    // A delivery in the future has not expired.
    assert_eq!(state.cleanup_old_messages(0, 0), Vec::<String>::new());
}

#[test]
fn eviction_from_one_queue_leaves_the_message_in_another() {
    let mut state = bound(1);
    state.declare_queue("q3");
    state.bind_queue("q3", "e", "both");
    state.bind_queue("q1", "e", "both");
    state.publish("e", "both", message("a"), 1, Ok(())).unwrap();
    publish(&mut state, "b").unwrap();
    assert_eq!(length(&state, "q3"), Some(1));
    assert!(state.can_deliver("a"));
    assert_eq!(ids(&state.register_consumer("q3", 1)), vec!["a"]);
    // It is a duplicate until the last queue has lost it.
    assert!(state.publish("e", "both", message("a"), 2, Ok(())).is_err());
    state.publish("e", "both", message("c"), 3, Ok(())).unwrap();
    assert!(!state.can_deliver("a"));
    assert_eq!(ids(&state.register_consumer("q3", 1)), vec!["c"]);
    assert!(!state.acknowledge("a"));
}

#[test]
fn an_acknowledged_message_leaves_queues_that_others_were_pushed_out_of() {
    let mut state = ServerState::new(1);
    state.declare_exchange("e");
    for (queue, key) in [("a", "k"), ("b", "k"), ("a", "l")] {
        state.declare_queue(queue);
        state.bind_queue(queue, "e", key);
    }
    state.publish("e", "k", message("m"), 1, Ok(())).unwrap();
    state.publish("e", "l", message("n"), 2, Ok(())).unwrap();
    assert!(state.publish("e", "l", message("m"), 3, Ok(())).is_err());
    assert_eq!(length(&state, "b"), Some(1));
    assert!(state.acknowledge("m"));
    assert_eq!(length(&state, "b"), Some(0));
    assert_eq!(ids(&state.register_consumer("a", 1)), vec!["n"]);
}

#[test]
fn clients_are_counted() {
    let mut state = ServerState::new(3);
    state.increment_client_count();
    state.increment_client_count();
    state.decrement_client_count();
    assert_eq!(state.get_client_count(), 1);
    state.decrement_client_count();
    state.decrement_client_count();
    assert_eq!(state.get_client_count(), usize::MAX);
    state.increment_client_count();
    assert_eq!(state.get_client_count(), 0);
    assert_eq!(state.max_queue_size(), 3);
}

#[test]
fn the_snapshot_adds_up() {
    let mut state = bound(10);
    state.bind_queue("q2", "e", "k");
    publish(&mut state, "a").unwrap();
    publish(&mut state, "b").unwrap();
    state.register_consumer("q1", 1);
    state.increment_client_count();
    let s = state.snapshot();
    assert_eq!(s.connected_clients, 1);
    assert_eq!(s.queue_count, 2);
    assert_eq!(s.total_messages, 4);
    assert_eq!(s.consumer_count, 1);
    let mut queues = state.queue_status();
    queues.sort();
    assert_eq!(queues, vec![("q1".to_string(), 2, 1), ("q2".to_string(), 2, 0)]);
}

#[test]
fn a_status_follows_its_message() {
    let mut s = MessageStatus::sent(1);
    assert_eq!(s.sent_time, Some(1));
    assert_eq!(s.delivered_time, None);
    assert!(s.can_deliver());
    s.delivered(2);
    assert_eq!(s.delivered_time, Some(2));
    assert!(s.can_deliver());
    s.acknowledged(3);
    assert_eq!(s.acknowledged_time, Some(3));
    assert!(!s.can_deliver());
}

#[test]
fn many_keys_are_found_again() {
    let mut state = ServerState::new(1000);
    for i in 0..200 {
        state.declare_queue(&format!("q{}", i));
        state.declare_exchange(&format!("e{}", i % 7));
        state.bind_queue(&format!("q{}", i), &format!("e{}", i % 7), "k");
    }
    assert_eq!(state.exchange_list().len(), 7);
    assert_eq!(state.queue_status().len(), 200);
    assert_eq!(state.binding_list().len(), 200);
    for i in 0..50 {
        let id = format!("m{}", i);
        state.publish("e3", "k", message(&id), 1, Ok(())).unwrap();
    }
    for i in (0..50).step_by(2) {
        assert!(state.acknowledge(&format!("m{}", i)));
    }
    for i in 0..50 {
        assert_eq!(state.can_deliver(&format!("m{}", i)), i % 2 == 1);
    }
}
