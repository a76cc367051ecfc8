use ciphermq::framing::LineBuffer;
use ciphermq::metrics::{bump, metric, Metrics, ServerSnapshot};
use ciphermq::text::{
    push_decimal, replace_all, same, split_pieces, starts_with, strip_prefix, trim,
};

#[test]
fn white_space_is_trimmed() {
    assert_eq!(trim("  a b \r\n"), "a b");
    assert_eq!(trim("\u{3000}x\u{2028}"), "x");
    assert_eq!(trim("\u{200b}x"), "\u{200b}x");
    assert_eq!(trim(" \t\n"), "");
    assert_eq!(trim(""), "");
    for c in ['\u{9}', '\u{b}', '\u{85}', '\u{a0}', '\u{1680}', '\u{2003}', '\u{202f}', '\u{205f}'] {
        let s = format!("{}x{}", c, c);
        assert_eq!(trim(&s), s.trim());
        assert_eq!(trim(&s), "x");
    }
}

#[test]
fn texts_are_cut_at_blanks() {
    assert_eq!(split_pieces("a b c d", 3), vec!["a", "b", "c d"]);
    assert_eq!(split_pieces("a b", 3), vec!["a", "b"]);
    assert_eq!(split_pieces("", 2), vec![""]);
    assert_eq!(split_pieces("a  b", 3), vec!["a", "", "b"]);
    assert_eq!(split_pieces(" a", 2), vec!["", "a"]);
    assert_eq!(split_pieces("a b", 1), vec!["a b"]);
    assert!(split_pieces("a", 0).is_empty());
    assert_eq!(split_pieces("ü ö", 2), vec!["ü", "ö"]);
}

#[test]
fn prefixes_are_found() {
    assert!(starts_with("Message: x", "Message:"));
    assert!(!starts_with("Mess", "Message:"));
    assert_eq!(strip_prefix("ACK 1", "ACK "), Some("1"));
    assert_eq!(strip_prefix("ACK", "ACK "), None);
    assert_eq!(strip_prefix("x", ""), Some("x"));
    assert!(same("a", "a"));
    assert!(!same("a", "A"));
}

#[test]
fn numbers_are_written_in_decimal() {
    for n in [0u64, 7, 10, 99, 100, 1234567890, u64::MAX] {
        let mut out = "n=".to_string();
        push_decimal(&mut out, n);
        assert_eq!(out, format!("n={}", n));
    }
}

#[test]
fn occurrences_are_replaced() {
    assert_eq!(replace_all("{a}-{a}{b}", "{a}", "x"), "x-x{b}");
    assert_eq!(replace_all("aaaa", "aa", "b"), "bb");
    assert_eq!(replace_all("aaa", "aa", "b"), "ba");
    assert_eq!(replace_all("abc", "x", "y"), "abc");
    assert_eq!(replace_all("", "x", "y"), "");
    assert_eq!(replace_all("{a}", "{a}", "{a}"), "{a}");
}

#[test]
fn lines_do_not_depend_on_chunks() {
    let mut whole = LineBuffer::new();
    whole.push(b"one\ntwo\nthr");
    assert_eq!(whole.next_line().unwrap(), b"one");
    assert_eq!(whole.next_line().unwrap(), b"two");
    assert!(whole.next_line().is_none());
    whole.push(b"ee\n\n");
    assert_eq!(whole.next_line().unwrap(), b"three");
    assert_eq!(whole.next_line().unwrap(), b"");
    assert!(whole.next_line().is_none());

    let mut pieces = LineBuffer::new();
    let mut lines = Vec::new();
    for byte in b"one\ntwo\nthree\n\n" {
        pieces.push(&[*byte]);
        while let Some(line) = pieces.next_line() {
            lines.push(line);
        }
    }
    assert_eq!(lines, vec![b"one".to_vec(), b"two".to_vec(), b"three".to_vec(), vec![]]);
}

#[test]
fn a_metric_has_three_lines() {
    let mut out = String::new();
    metric(&mut out, "n", "What it is", 3, "gauge");
    assert_eq!(out, "# HELP n What it is\n# TYPE n gauge\nn 3\n");
}

#[test]
fn counters_go_up() {
    let mut c = 1u64;
    bump(&mut c);
    assert_eq!(c, 2);
    let mut c = u64::MAX;
    bump(&mut c);
    assert_eq!(c, 0);
}

fn filled() -> Metrics {
    let mut m = Metrics::new();
    m.messages_published = 1;
    m.messages_acked = 2;
    m.messages_delivered = 3;
    m.errors_total = 4;
    m.connections_total = 5;
    m.connections_rejected_rate_limit = 6;
    m.connections_rejected_conn_limit = 7;
    m.requests_rate_limited = 8;
    m.update_snapshot(ServerSnapshot {
        connected_clients: 9,
        queue_count: 10,
        total_messages: 11,
        consumer_count: 12,
    });
    m
}

#[test]
fn metrics_are_exposed() {
    let text = filled().render_prometheus(13);
    let values: Vec<&str> = text.lines().filter(|l| !l.starts_with('#')).collect();
    assert_eq!(
        values,
        vec![
            "ciphermq_messages_published_total 1",
            "ciphermq_messages_acked_total 2",
            "ciphermq_messages_delivered_total 3",
            "ciphermq_errors_total 4",
            "ciphermq_connections_total 5",
            "ciphermq_connections_rejected_rate_limit_total 6",
            "ciphermq_connections_rejected_conn_limit_total 7",
            "ciphermq_requests_rate_limited_total 8",
            "ciphermq_connected_clients 9",
            "ciphermq_queue_count 10",
            "ciphermq_messages_in_queues 11",
            "ciphermq_consumer_count 12",
            "ciphermq_uptime_seconds 13",
        ]
    );
    assert!(text.starts_with(
        "# HELP ciphermq_messages_published_total Total messages published\n\
         # TYPE ciphermq_messages_published_total counter\n"
    ));
    assert!(text.contains("# TYPE ciphermq_uptime_seconds gauge\n"));
}

#[test]
fn the_status_page_is_laid_out() {
    assert_eq!(
        filled().render_status(13),
        "=== CipherMQ Node Status ===\nConnected clients: 9\nQueues:            10\n\
         Messages in queues: 11\nConsumers:          12\nUptime:             13s\n\
         Published:          1\nAcknowledged:       2\nRate limited:       8\n"
    );
    assert_eq!(Metrics::default(), Metrics::new());
}
