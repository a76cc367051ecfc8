use ciphermq::acl::AclManager;
use ciphermq::admin::{
    admin_reply, admits, banner, node_status, query_answer, AdminReply, NodeHealth, PollEvent,
    PollStep,
};
use ciphermq::config::RateLimitConfig;
use ciphermq::heartbeat::HeartbeatMonitor;
use ciphermq::metrics::Metrics;
use ciphermq::rate_limiter::RateLimiter;
use ciphermq::server::Broker;
use ciphermq::state::{EncryptedInputData, ServerState};

fn s(t: &str) -> String {
    t.to_string()
}

fn broker() -> Broker {
    let mut b = Broker {
        state: ServerState::new(100),
        metrics: Metrics::new(),
        limiter: RateLimiter::new(&RateLimitConfig::default()),
        heartbeats: HeartbeatMonitor::new(60),
        acl: AclManager::new(vec![s("s")], vec![], vec![s("a")]),
    };
    b.connect("s", "1.1.1.1", 0);
    b.connect("s", "2.2.2.2", 0);
    b.state.declare_queue("q");
    b.state.declare_exchange("e");
    b.state.bind_queue("q", "e", "k");
    b.state.register_consumer("q", 1);
    let m = EncryptedInputData {
        message_id: s("m"),
        receiver_client_id: s("r"),
        enc_session_key: s("k"),
        nonce: s("n"),
        ciphertext: s("c"),
    };
    b.publish("e", "k", m, Ok(()), 1);
    b
}

fn text(line: &str) -> String {
    match admin_reply(&broker(), line, 12) {
        AdminReply::Text(t) => t,
        _ => panic!("not a text"),
    }
}

#[test]
fn only_administrators_are_admitted() {
    let acl = AclManager::new(vec![s("s")], vec![], vec![s("a")]);
    assert!(admits(&acl, "a"));
    assert!(!admits(&acl, "s"));
    assert!(!admits(&acl, "unknown"));
    assert_eq!(banner(), "CipherMQ Admin\n");
}

#[test]
fn the_console_answers() {
    assert!(matches!(admin_reply(&broker(), " quit\n", 1), AdminReply::Close));
    assert!(matches!(admin_reply(&broker(), "exit", 1), AdminReply::Close));
    assert_eq!(text("queues\n"), "Queues: 1\nMessages: 1\nConsumers: 1\n");
    assert_eq!(text("help\n"), "Unknown command\n");
    assert!(text("metrics").contains("ciphermq_messages_published_total 1\n"));
    assert!(text("metrics").contains("ciphermq_uptime_seconds 12\n"));
    assert!(text("status").contains("Uptime:             12s\n"));
    match admin_reply(&broker(), "connections", 1) {
        AdminReply::Connections(mut by_ip, by_cn) => {
            by_ip.sort();
            assert_eq!(by_ip, vec![(s("1.1.1.1"), 1), (s("2.2.2.2"), 1)]);
            assert_eq!(by_cn, vec![(s("s"), 2)]);
        }
        _ => panic!("no connections"),
    }
    assert!(matches!(admin_reply(&broker(), "json", 1), AdminReply::Json(_)));
}

#[test]
fn the_status_describes_the_broker() {
    let n = node_status(&broker(), 3);
    assert_eq!(n.uptime_secs, 3);
    assert_eq!(n.max_queue_size, 100);
    assert_eq!(n.metrics.connections_total, 2);
    assert_eq!(n.live.connected_clients, 2);
    assert_eq!(n.live.total_messages, 1);
    assert_eq!(n.active_by_ip, 2);
    assert_eq!(n.active_by_cn, 2);
    assert_eq!(n.queues, vec![(s("q"), 1, 1)]);
    assert_eq!(n.bindings, vec![(s("e"), s("q"), s("k"))]);
    assert_eq!(n.exchanges, vec![s("e")]);
}

#[test]
fn the_client_knows_whether_the_node_answers() {
    let mut h = NodeHealth::new();
    assert!(!h.reachable);
    assert_eq!(h.polled(PollEvent::Status(s("healthy")), s("10:00:00")), PollStep::AskAgain);
    assert!(h.reachable);
    assert_eq!((h.health.as_str(), h.last_update.as_str()), ("healthy", "10:00:00"));
    assert_eq!(h.polled(PollEvent::Unreadable, s("10:00:03")), PollStep::AskAgain);
    assert!(h.reachable);
    assert_eq!(h.last_update, "10:00:00");
    assert_eq!(h.polled(PollEvent::Ended, s("10:00:06")), PollStep::Reconnect);
    assert!(!h.reachable);
    assert_eq!((h.health.as_str(), h.last_update.as_str()), ("unreachable", "10:00:06"));
    assert_eq!(query_answer("{}\n"), Ok(s("{}")));
    assert_eq!(query_answer(""), Err(s("server closed connection")));
}
