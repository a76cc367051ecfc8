//! Counters and gauges, and the texts they are shown in.

use crate::text::{decimal, push_decimal};
use vstd::prelude::*;
use vstd::string::*;

verus! {

/// Sizes of the broker's tables at some moment.
#[derive(Clone, Copy, Debug, PartialEq, Eq, Structural)]
pub struct ServerSnapshot {
    pub connected_clients: usize,
    pub queue_count: usize,
    pub total_messages: usize,
    pub consumer_count: usize,
}

impl Default for ServerSnapshot {
    fn default() -> (r: Self)
        ensures
            r == (ServerSnapshot {
                connected_clients: 0,
                queue_count: 0,
                total_messages: 0,
                consumer_count: 0,
            }),
    {
        ServerSnapshot { connected_clients: 0, queue_count: 0, total_messages: 0, consumer_count: 0 }
    }
}

/// What has happened since the broker started.
#[derive(Clone, Copy, Debug, PartialEq, Eq, Structural)]
pub struct Metrics {
    pub messages_published: u64,
    pub messages_acked: u64,
    pub messages_delivered: u64,
    pub errors_total: u64,
    pub connections_total: u64,
    pub connections_rejected_rate_limit: u64,
    pub connections_rejected_conn_limit: u64,
    pub requests_rate_limited: u64,
    pub snapshot: ServerSnapshot,
}

/// One more, from zero again after the largest number.
pub open spec fn next(n: u64) -> u64 {
    if n == u64::MAX {
        0
    } else {
        (n + 1) as u64
    }
}

/// Adds one to a counter.
pub fn bump(counter: &mut u64)
    ensures
        *final(counter) == next(*old(counter)),
{
    *counter = counter.wrapping_add(1);
}

/// One metric in the exposition format.
#[verifier::opaque]
pub open spec fn metric_text(name: Seq<char>, help: Seq<char>, value: nat, kind: Seq<char>) -> Seq<
    char,
> {
    "# HELP "@ + name + " "@ + help + "\n# TYPE "@ + name + " "@ + kind + "\n"@ + name + " "@
        + decimal(value) + "\n"@
}

/// Appends one metric in the exposition format.
pub fn metric(out: &mut String, name: &str, help: &str, value: u64, kind: &str)
    ensures
        final(out)@ == old(out)@ + metric_text(name@, help@, value as nat, kind@),
{
    proof {
        reveal(metric_text);
    }
    out.append("# HELP ");
    out.append(name);
    out.append(" ");
    out.append(help);
    out.append("\n# TYPE ");
    out.append(name);
    out.append(" ");
    out.append(kind);
    out.append("\n");
    out.append(name);
    out.append(" ");
    push_decimal(out, value);
    out.append("\n");
    assert(out@ =~= old(out)@ + metric_text(name@, help@, value as nat, kind@));
}

impl Metrics {
    /// Nothing has happened.
    pub fn new() -> (r: Self)
        ensures
            r.messages_published == 0,
            r.messages_acked == 0,
            r.messages_delivered == 0,
            r.errors_total == 0,
            r.connections_total == 0,
            r.connections_rejected_rate_limit == 0,
            r.connections_rejected_conn_limit == 0,
            r.requests_rate_limited == 0,
            r.snapshot == (ServerSnapshot {
                connected_clients: 0,
                queue_count: 0,
                total_messages: 0,
                consumer_count: 0,
            }),
    {
        Metrics {
            messages_published: 0,
            messages_acked: 0,
            messages_delivered: 0,
            errors_total: 0,
            connections_total: 0,
            connections_rejected_rate_limit: 0,
            connections_rejected_conn_limit: 0,
            requests_rate_limited: 0,
            snapshot: ServerSnapshot::default(),
        }
    }

    /// Takes over newer sizes.
    pub fn update_snapshot(&mut self, snapshot: ServerSnapshot)
        ensures
            *final(self) == (Metrics { snapshot, ..*old(self) }),
    {
        self.snapshot = snapshot;
    }

    /// The counters in the exposition format.
    pub open spec fn counters_text(&self) -> Seq<char> {
        metric_text(
            "ciphermq_messages_published_total"@,
            "Total messages published"@,
            self.messages_published as nat,
            "counter"@,
        ) + metric_text(
            "ciphermq_messages_acked_total"@,
            "Total messages acknowledged"@,
            self.messages_acked as nat,
            "counter"@,
        ) + metric_text(
            "ciphermq_messages_delivered_total"@,
            "Total messages delivered"@,
            self.messages_delivered as nat,
            "counter"@,
        ) + metric_text(
            "ciphermq_errors_total"@,
            "Total server errors"@,
            self.errors_total as nat,
            "counter"@,
        ) + metric_text(
            "ciphermq_connections_total"@,
            "Accepted client connections"@,
            self.connections_total as nat,
            "counter"@,
        ) + metric_text(
            "ciphermq_connections_rejected_rate_limit_total"@,
            "Connections rejected by rate limit"@,
            self.connections_rejected_rate_limit as nat,
            "counter"@,
        ) + metric_text(
            "ciphermq_connections_rejected_conn_limit_total"@,
            "Connections rejected by connection limit"@,
            self.connections_rejected_conn_limit as nat,
            "counter"@,
        ) + metric_text(
            "ciphermq_requests_rate_limited_total"@,
            "Requests rejected by rate limit"@,
            self.requests_rate_limited as nat,
            "counter"@,
        )
    }

    /// The gauges in the exposition format.
    pub open spec fn gauges_text(&self, uptime: nat) -> Seq<char> {
        metric_text(
            "ciphermq_connected_clients"@,
            "Current connected clients"@,
            self.snapshot.connected_clients as nat,
            "gauge"@,
        ) + metric_text(
            "ciphermq_queue_count"@,
            "Current queue count"@,
            self.snapshot.queue_count as nat,
            "gauge"@,
        ) + metric_text(
            "ciphermq_messages_in_queues"@,
            "Messages currently in queues"@,
            self.snapshot.total_messages as nat,
            "gauge"@,
        ) + metric_text(
            "ciphermq_consumer_count"@,
            "Current consumers"@,
            self.snapshot.consumer_count as nat,
            "gauge"@,
        ) + metric_text("ciphermq_uptime_seconds"@, "Server uptime"@, uptime, "gauge"@)
    }

    fn render_counters(&self) -> (r: String)
        ensures
            r@ == self.counters_text(),
    {
        let mut out = String::new();
        metric(
            &mut out,
            "ciphermq_messages_published_total",
            "Total messages published",
            self.messages_published,
            "counter",
        );
        assert(out@ =~= metric_text(
            "ciphermq_messages_published_total"@,
            "Total messages published"@,
            self.messages_published as nat,
            "counter"@,
        ));
        metric(
            &mut out,
            "ciphermq_messages_acked_total",
            "Total messages acknowledged",
            self.messages_acked,
            "counter",
        );
        metric(
            &mut out,
            "ciphermq_messages_delivered_total",
            "Total messages delivered",
            self.messages_delivered,
            "counter",
        );
        metric(
            &mut out,
            "ciphermq_errors_total",
            "Total server errors",
            self.errors_total,
            "counter",
        );
        metric(
            &mut out,
            "ciphermq_connections_total",
            "Accepted client connections",
            self.connections_total,
            "counter",
        );
        metric(
            &mut out,
            "ciphermq_connections_rejected_rate_limit_total",
            "Connections rejected by rate limit",
            self.connections_rejected_rate_limit,
            "counter",
        );
        metric(
            &mut out,
            "ciphermq_connections_rejected_conn_limit_total",
            "Connections rejected by connection limit",
            self.connections_rejected_conn_limit,
            "counter",
        );
        metric(
            &mut out,
            "ciphermq_requests_rate_limited_total",
            "Requests rejected by rate limit",
            self.requests_rate_limited,
            "counter",
        );
        out
    }

    fn render_gauges(&self, uptime_secs: u64) -> (r: String)
        ensures
            r@ == self.gauges_text(uptime_secs as nat),
    {
        let mut out = String::new();
        metric(
            &mut out,
            "ciphermq_connected_clients",
            "Current connected clients",
            self.snapshot.connected_clients as u64,
            "gauge",
        );
        assert(out@ =~= metric_text(
            "ciphermq_connected_clients"@,
            "Current connected clients"@,
            self.snapshot.connected_clients as nat,
            "gauge"@,
        ));
        metric(
            &mut out,
            "ciphermq_queue_count",
            "Current queue count",
            self.snapshot.queue_count as u64,
            "gauge",
        );
        metric(
            &mut out,
            "ciphermq_messages_in_queues",
            "Messages currently in queues",
            self.snapshot.total_messages as u64,
            "gauge",
        );
        metric(
            &mut out,
            "ciphermq_consumer_count",
            "Current consumers",
            self.snapshot.consumer_count as u64,
            "gauge",
        );
        metric(&mut out, "ciphermq_uptime_seconds", "Server uptime", uptime_secs, "gauge");
        out
    }

    /// All metrics in the exposition format.
    pub fn render_prometheus(&self, uptime_secs: u64) -> (r: String)
        ensures
            r@ == self.counters_text() + self.gauges_text(uptime_secs as nat),
    {
        let mut out = self.render_counters();
        out.append(self.render_gauges(uptime_secs).as_str());
        out
    }

    /// The status page.
    pub open spec fn status_text(&self, uptime: nat) -> Seq<char> {
        "=== CipherMQ Node Status ===\nConnected clients: "@ + decimal(
            self.snapshot.connected_clients as nat,
        ) + "\nQueues:            "@ + decimal(self.snapshot.queue_count as nat)
            + "\nMessages in queues: "@ + decimal(self.snapshot.total_messages as nat)
            + "\nConsumers:          "@ + decimal(self.snapshot.consumer_count as nat)
            + "\nUptime:             "@ + decimal(uptime) + "s\nPublished:          "@ + decimal(
            self.messages_published as nat,
        ) + "\nAcknowledged:       "@ + decimal(self.messages_acked as nat)
            + "\nRate limited:       "@ + decimal(self.requests_rate_limited as nat) + "\n"@
    }

    /// The status page.
    pub fn render_status(&self, uptime_secs: u64) -> (r: String)
        ensures
            r@ == self.status_text(uptime_secs as nat),
    {
        let mut out = "=== CipherMQ Node Status ===\nConnected clients: ".to_owned();
        push_decimal(&mut out, self.snapshot.connected_clients as u64);
        out.append("\nQueues:            ");
        push_decimal(&mut out, self.snapshot.queue_count as u64);
        out.append("\nMessages in queues: ");
        push_decimal(&mut out, self.snapshot.total_messages as u64);
        out.append("\nConsumers:          ");
        push_decimal(&mut out, self.snapshot.consumer_count as u64);
        out.append("\nUptime:             ");
        push_decimal(&mut out, uptime_secs);
        out.append("s\nPublished:          ");
        push_decimal(&mut out, self.messages_published);
        out.append("\nAcknowledged:       ");
        push_decimal(&mut out, self.messages_acked);
        out.append("\nRate limited:       ");
        push_decimal(&mut out, self.requests_rate_limited);
        out.append("\n");
        out
    }
}

impl Default for Metrics {
    fn default() -> (r: Self)
        ensures
            r.messages_published == 0,
            r.messages_acked == 0,
            r.messages_delivered == 0,
            r.errors_total == 0,
            r.connections_total == 0,
            r.connections_rejected_rate_limit == 0,
            r.connections_rejected_conn_limit == 0,
            r.requests_rate_limited == 0,
            r.snapshot == (ServerSnapshot {
                connected_clients: 0,
                queue_count: 0,
                total_messages: 0,
                consumer_count: 0,
            }),
    {
        Metrics::new()
    }
}

/// Whether a text in the exposition format has a line with a metric and its value.
pub open spec fn shows(text: Seq<char>, name: Seq<char>, value: nat) -> bool {
    exists|before: Seq<char>, behind: Seq<char>|
        text == #[trigger] (before + ("\n"@ + name + " "@ + decimal(value) + "\n"@) + behind)
}

proof fn lemma_metric_shows(name: Seq<char>, help: Seq<char>, value: nat, kind: Seq<char>)
    ensures
        shows(metric_text(name, help, value, kind), name, value),
{
    reveal(metric_text);
    reveal_strlit("\n");
    let before = "# HELP "@ + name + " "@ + help + "\n# TYPE "@ + name + " "@ + kind;
    let line = "\n"@ + name + " "@ + decimal(value) + "\n"@;
    assert(metric_text(name, help, value, kind) =~= before + line + Seq::<char>::empty());
}

/// What one of two texts shows, both of them in a row show.
proof fn lemma_shows_both(a: Seq<char>, b: Seq<char>)
    ensures
        forall|name: Seq<char>, value: nat|
            #![trigger shows(a + b, name, value)]
            shows(a, name, value) || shows(b, name, value) ==> shows(a + b, name, value),
{
    assert forall|name: Seq<char>, value: nat|
        #![trigger shows(a + b, name, value)]
        shows(a, name, value) || shows(b, name, value) implies shows(a + b, name, value) by {
        let line = "\n"@ + name + " "@ + decimal(value) + "\n"@;
        if shows(a, name, value) {
            let (x, y) = choose|before: Seq<char>, behind: Seq<char>|
                a == #[trigger] (before + line + behind);
            assert(a + b =~= x + line + (y + b));
        } else {
            let (x, y) = choose|before: Seq<char>, behind: Seq<char>|
                b == #[trigger] (before + line + behind);
            assert(a + b =~= (a + x) + line + y);
        }
    }
}

/// The exposition has a line for every counter and every gauge, with its value.
pub proof fn law_every_metric_is_shown(m: Metrics, uptime: nat)
    ensures
        ({
            let text = m.counters_text() + m.gauges_text(uptime);
            &&& shows(text, "ciphermq_messages_published_total"@, m.messages_published as nat)
            &&& shows(text, "ciphermq_messages_acked_total"@, m.messages_acked as nat)
            &&& shows(text, "ciphermq_messages_delivered_total"@, m.messages_delivered as nat)
            &&& shows(text, "ciphermq_errors_total"@, m.errors_total as nat)
            &&& shows(text, "ciphermq_connections_total"@, m.connections_total as nat)
            &&& shows(
                text,
                "ciphermq_connections_rejected_rate_limit_total"@,
                m.connections_rejected_rate_limit as nat,
            )
            &&& shows(
                text,
                "ciphermq_connections_rejected_conn_limit_total"@,
                m.connections_rejected_conn_limit as nat,
            )
            &&& shows(text, "ciphermq_requests_rate_limited_total"@, m.requests_rate_limited as nat)
            &&& shows(text, "ciphermq_connected_clients"@, m.snapshot.connected_clients as nat)
            &&& shows(text, "ciphermq_queue_count"@, m.snapshot.queue_count as nat)
            &&& shows(text, "ciphermq_messages_in_queues"@, m.snapshot.total_messages as nat)
            &&& shows(text, "ciphermq_consumer_count"@, m.snapshot.consumer_count as nat)
            &&& shows(text, "ciphermq_uptime_seconds"@, uptime)
        }),
{
    let t0 = metric_text(
        "ciphermq_messages_published_total"@,
        "Total messages published"@,
        m.messages_published as nat,
        "counter"@,
    );
    lemma_metric_shows(
        "ciphermq_messages_published_total"@,
        "Total messages published"@,
        m.messages_published as nat,
        "counter"@,
    );
    let t1 = metric_text(
        "ciphermq_messages_acked_total"@,
        "Total messages acknowledged"@,
        m.messages_acked as nat,
        "counter"@,
    );
    lemma_metric_shows(
        "ciphermq_messages_acked_total"@,
        "Total messages acknowledged"@,
        m.messages_acked as nat,
        "counter"@,
    );
    let t2 = metric_text(
        "ciphermq_messages_delivered_total"@,
        "Total messages delivered"@,
        m.messages_delivered as nat,
        "counter"@,
    );
    lemma_metric_shows(
        "ciphermq_messages_delivered_total"@,
        "Total messages delivered"@,
        m.messages_delivered as nat,
        "counter"@,
    );
    let t3 = metric_text(
        "ciphermq_errors_total"@,
        "Total server errors"@,
        m.errors_total as nat,
        "counter"@,
    );
    lemma_metric_shows(
        "ciphermq_errors_total"@,
        "Total server errors"@,
        m.errors_total as nat,
        "counter"@,
    );
    let t4 = metric_text(
        "ciphermq_connections_total"@,
        "Accepted client connections"@,
        m.connections_total as nat,
        "counter"@,
    );
    lemma_metric_shows(
        "ciphermq_connections_total"@,
        "Accepted client connections"@,
        m.connections_total as nat,
        "counter"@,
    );
    let t5 = metric_text(
        "ciphermq_connections_rejected_rate_limit_total"@,
        "Connections rejected by rate limit"@,
        m.connections_rejected_rate_limit as nat,
        "counter"@,
    );
    lemma_metric_shows(
        "ciphermq_connections_rejected_rate_limit_total"@,
        "Connections rejected by rate limit"@,
        m.connections_rejected_rate_limit as nat,
        "counter"@,
    );
    let t6 = metric_text(
        "ciphermq_connections_rejected_conn_limit_total"@,
        "Connections rejected by connection limit"@,
        m.connections_rejected_conn_limit as nat,
        "counter"@,
    );
    lemma_metric_shows(
        "ciphermq_connections_rejected_conn_limit_total"@,
        "Connections rejected by connection limit"@,
        m.connections_rejected_conn_limit as nat,
        "counter"@,
    );
    let t7 = metric_text(
        "ciphermq_requests_rate_limited_total"@,
        "Requests rejected by rate limit"@,
        m.requests_rate_limited as nat,
        "counter"@,
    );
    lemma_metric_shows(
        "ciphermq_requests_rate_limited_total"@,
        "Requests rejected by rate limit"@,
        m.requests_rate_limited as nat,
        "counter"@,
    );
    let t8 = metric_text(
        "ciphermq_connected_clients"@,
        "Current connected clients"@,
        m.snapshot.connected_clients as nat,
        "gauge"@,
    );
    lemma_metric_shows(
        "ciphermq_connected_clients"@,
        "Current connected clients"@,
        m.snapshot.connected_clients as nat,
        "gauge"@,
    );
    let t9 = metric_text(
        "ciphermq_queue_count"@,
        "Current queue count"@,
        m.snapshot.queue_count as nat,
        "gauge"@,
    );
    lemma_metric_shows(
        "ciphermq_queue_count"@,
        "Current queue count"@,
        m.snapshot.queue_count as nat,
        "gauge"@,
    );
    let t10 = metric_text(
        "ciphermq_messages_in_queues"@,
        "Messages currently in queues"@,
        m.snapshot.total_messages as nat,
        "gauge"@,
    );
    lemma_metric_shows(
        "ciphermq_messages_in_queues"@,
        "Messages currently in queues"@,
        m.snapshot.total_messages as nat,
        "gauge"@,
    );
    let t11 = metric_text(
        "ciphermq_consumer_count"@,
        "Current consumers"@,
        m.snapshot.consumer_count as nat,
        "gauge"@,
    );
    lemma_metric_shows(
        "ciphermq_consumer_count"@,
        "Current consumers"@,
        m.snapshot.consumer_count as nat,
        "gauge"@,
    );
    let t12 = metric_text("ciphermq_uptime_seconds"@, "Server uptime"@, uptime, "gauge"@);
    lemma_metric_shows("ciphermq_uptime_seconds"@, "Server uptime"@, uptime, "gauge"@);
    let c0 = t0;
    let c1 = c0 + t1;
    lemma_shows_both(c0, t1);
    let c2 = c1 + t2;
    lemma_shows_both(c1, t2);
    let c3 = c2 + t3;
    lemma_shows_both(c2, t3);
    let c4 = c3 + t4;
    lemma_shows_both(c3, t4);
    let c5 = c4 + t5;
    lemma_shows_both(c4, t5);
    let c6 = c5 + t6;
    lemma_shows_both(c5, t6);
    let c7 = c6 + t7;
    lemma_shows_both(c6, t7);
    let g8 = t8;
    let g9 = g8 + t9;
    lemma_shows_both(g8, t9);
    let g10 = g9 + t10;
    lemma_shows_both(g9, t10);
    let g11 = g10 + t11;
    lemma_shows_both(g10, t11);
    let g12 = g11 + t12;
    lemma_shows_both(g11, t12);
    lemma_shows_both(c7, g12);
}

/// The status page shows the sizes, the uptime and the counters in this order, each on a
/// line of its own behind the title.
pub proof fn law_status_page_shows_the_numbers(m: Metrics, uptime: nat)
    ensures
        m.status_text(uptime) == seq![
            "=== CipherMQ Node Status ==="@,
            "Connected clients: "@ + decimal(m.snapshot.connected_clients as nat),
            "Queues:            "@ + decimal(m.snapshot.queue_count as nat),
            "Messages in queues: "@ + decimal(m.snapshot.total_messages as nat),
            "Consumers:          "@ + decimal(m.snapshot.consumer_count as nat),
            "Uptime:             "@ + decimal(uptime) + "s"@,
            "Published:          "@ + decimal(m.messages_published as nat),
            "Acknowledged:       "@ + decimal(m.messages_acked as nat),
            "Rate limited:       "@ + decimal(m.requests_rate_limited as nat),
        ].fold_left(Seq::<char>::empty(), |t: Seq<char>, line: Seq<char>| t + line + seq!['\n']),
{
    let all = seq![
        "=== CipherMQ Node Status ==="@,
        "Connected clients: "@ + decimal(m.snapshot.connected_clients as nat),
        "Queues:            "@ + decimal(m.snapshot.queue_count as nat),
        "Messages in queues: "@ + decimal(m.snapshot.total_messages as nat),
        "Consumers:          "@ + decimal(m.snapshot.consumer_count as nat),
        "Uptime:             "@ + decimal(uptime) + "s"@,
        "Published:          "@ + decimal(m.messages_published as nat),
        "Acknowledged:       "@ + decimal(m.messages_acked as nat),
        "Rate limited:       "@ + decimal(m.requests_rate_limited as nat),
    ];
    let f = |t: Seq<char>, line: Seq<char>| t + line + seq!['\n'];
    let none = Seq::<char>::empty();
    lemma_literals();
    assert(all.take(0) =~= Seq::<Seq<char>>::empty());
    lemma_fold_take(all, none, f, 0);
    lemma_fold_take(all, none, f, 1);
    lemma_fold_take(all, none, f, 2);
    lemma_fold_take(all, none, f, 3);
    lemma_fold_take(all, none, f, 4);
    lemma_fold_take(all, none, f, 5);
    lemma_fold_take(all, none, f, 6);
    lemma_fold_take(all, none, f, 7);
    lemma_fold_take(all, none, f, 8);
    assert(all.take(9) =~= all);
    let nl = seq!['\n'];
    let s1 = "=== CipherMQ Node Status ==="@;
    assert(none + s1 + nl =~= s1 + nl);
    let d2 = decimal(m.snapshot.connected_clients as nat);
    lemma_line(s1, "Connected clients: "@, d2);
    let s2 = "=== CipherMQ Node Status ===\nConnected clients: "@ + d2;
    assert(s1 + (nl + "Connected clients: "@) + d2 =~= s2);
    let d3 = decimal(m.snapshot.queue_count as nat);
    lemma_line(s2, "Queues:            "@, d3);
    let s3 = s2 + "\nQueues:            "@ + d3;
    let d4 = decimal(m.snapshot.total_messages as nat);
    lemma_line(s3, "Messages in queues: "@, d4);
    let s4 = s3 + "\nMessages in queues: "@ + d4;
    let d5 = decimal(m.snapshot.consumer_count as nat);
    lemma_line(s4, "Consumers:          "@, d5);
    let s5 = s4 + "\nConsumers:          "@ + d5;
    let d6 = decimal(uptime);
    lemma_line(s5, "Uptime:             "@, d6 + "s"@);
    let s6 = s5 + "\nUptime:             "@ + d6;
    assert("Uptime:             "@ + d6 + "s"@ =~= "Uptime:             "@ + (d6 + "s"@));
    assert(s5 + "\nUptime:             "@ + (d6 + "s"@) =~= s6 + "s"@);
    let d7 = decimal(m.messages_published as nat);
    lemma_line(s6 + "s"@, "Published:          "@, d7);
    let s7 = s6 + "s\nPublished:          "@ + d7;
    assert(s6 + "s"@ + (nl + "Published:          "@) =~= s6 + ("s"@ + nl
        + "Published:          "@));
    let d8 = decimal(m.messages_acked as nat);
    lemma_line(s7, "Acknowledged:       "@, d8);
    let s8 = s7 + "\nAcknowledged:       "@ + d8;
    let d9 = decimal(m.requests_rate_limited as nat);
    lemma_line(s8, "Rate limited:       "@, d9);
}

/// A line behind the end of another one.
proof fn lemma_line(s: Seq<char>, label: Seq<char>, value: Seq<char>)
    ensures
        (s + seq!['\n']) + (label + value) + seq!['\n'] == s + (seq!['\n'] + label) + value + seq![
            '\n',
        ],
{
    assert((s + seq!['\n']) + (label + value) + seq!['\n'] =~= s + (seq!['\n'] + label) + value
        + seq!['\n']);
}

proof fn lemma_fold_take(
    all: Seq<Seq<char>>,
    base: Seq<char>,
    f: spec_fn(Seq<char>, Seq<char>) -> Seq<char>,
    i: int,
)
    requires
        0 <= i < all.len(),
    ensures
        all.take(i + 1).fold_left(base, f) == f(all.take(i).fold_left(base, f), all[i]),
{
    assert(all.take(i + 1).drop_last() =~= all.take(i));
    assert(all.take(i + 1).last() == all[i]);
}

/// The texts between two numbers of the status page end one line and begin the next.
proof fn lemma_literals()
    ensures
        "=== CipherMQ Node Status ===\nConnected clients: "@ == "=== CipherMQ Node Status ==="@
            + seq!['\n'] + "Connected clients: "@,
        "\nQueues:            "@ == seq!['\n'] + "Queues:            "@,
        "\nMessages in queues: "@ == seq!['\n'] + "Messages in queues: "@,
        "\nConsumers:          "@ == seq!['\n'] + "Consumers:          "@,
        "\nUptime:             "@ == seq!['\n'] + "Uptime:             "@,
        "s\nPublished:          "@ == "s"@ + seq!['\n'] + "Published:          "@,
        "\nAcknowledged:       "@ == seq!['\n'] + "Acknowledged:       "@,
        "\nRate limited:       "@ == seq!['\n'] + "Rate limited:       "@,
        "\n"@ == seq!['\n'],
{
    reveal_strlit("=== CipherMQ Node Status ===\nConnected clients: ");
    reveal_strlit("=== CipherMQ Node Status ===");
    reveal_strlit("Connected clients: ");
    reveal_strlit("\nQueues:            ");
    reveal_strlit("Queues:            ");
    reveal_strlit("\nMessages in queues: ");
    reveal_strlit("Messages in queues: ");
    reveal_strlit("\nConsumers:          ");
    reveal_strlit("Consumers:          ");
    reveal_strlit("\nUptime:             ");
    reveal_strlit("Uptime:             ");
    reveal_strlit("s\nPublished:          ");
    reveal_strlit("s");
    reveal_strlit("Published:          ");
    reveal_strlit("\nAcknowledged:       ");
    reveal_strlit("Acknowledged:       ");
    reveal_strlit("\nRate limited:       ");
    reveal_strlit("Rate limited:       ");
    reveal_strlit("\n");
    assert("=== CipherMQ Node Status ===\nConnected clients: "@
        =~= "=== CipherMQ Node Status ==="@ + seq!['\n'] + "Connected clients: "@);
    assert("\nQueues:            "@ =~= seq!['\n'] + "Queues:            "@);
    assert("\nMessages in queues: "@ =~= seq!['\n'] + "Messages in queues: "@);
    assert("\nConsumers:          "@ =~= seq!['\n'] + "Consumers:          "@);
    assert("\nUptime:             "@ =~= seq!['\n'] + "Uptime:             "@);
    assert("s\nPublished:          "@ =~= "s"@ + seq!['\n'] + "Published:          "@);
    assert("\nAcknowledged:       "@ =~= seq!['\n'] + "Acknowledged:       "@);
    assert("\nRate limited:       "@ =~= seq!['\n'] + "Rate limited:       "@);
    assert("\n"@ =~= seq!['\n']);
}

} // verus!
