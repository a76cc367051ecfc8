//! The admin console: who may use it, its commands, and the node status that its
//! clients keep.

use crate::acl::{AclManager, Role};
use crate::metrics::{Metrics, ServerSnapshot};
use crate::rate_limiter::lists;
use crate::server::Broker;
use crate::state_model::{listed_bindings, StateModel};
use crate::text::{decimal, push_decimal, same, trim, trimmed};
use crate::totals::{add_fitted, fitted, sum, total};
use vstd::prelude::*;
use vstd::string::*;

verus! {

/// What a client of the console is greeted with.
pub fn banner() -> (r: &'static str)
    ensures
        r@ == "CipherMQ Admin\n"@,
{
    "CipherMQ Admin\n"
}

/// Whether a client may use the console.
pub fn admits(acl: &AclManager, cn: &str) -> (r: bool)
    ensures
        r == acl.admins().contains(cn@),
{
    acl.resolve_role(cn) == Role::Admin
}

/// The state of the broker in full.
pub struct NodeStatus {
    pub uptime_secs: u64,
    pub max_queue_size: usize,
    pub metrics: Metrics,
    pub live: ServerSnapshot,
    pub by_ip: Vec<(String, usize)>,
    pub by_cn: Vec<(String, usize)>,
    pub active_by_ip: usize,
    pub active_by_cn: usize,
    pub queues: Vec<(String, usize, usize)>,
    pub bindings: Vec<(String, String, String)>,
    pub exchanges: Vec<String>,
}

/// The numbers of a list of counts.
pub open spec fn numbers_of(list: Seq<(Seq<char>, usize)>) -> Seq<nat> {
    Seq::new(list.len(), |i: int| list[i].1 as nat)
}

/// Adds up a list of counts.
fn sum_of(list: &Vec<(String, usize)>) -> (r: usize)
    ensures
        r == fitted(sum(numbers_of(list.deep_view()))),
{
    let ghost numbers = numbers_of(list.deep_view());
    let mut out: usize = 0;
    let mut i: usize = 0;
    while i < list.len()
        invariant
            i <= list@.len(),
            numbers == numbers_of(list.deep_view()),
            out == fitted(sum(numbers.take(i as int))),
        decreases list@.len() - i,
    {
        proof {
            assert(numbers.take(i + 1).drop_last() =~= numbers.take(i as int));
            assert(numbers.take(i + 1).last() == list@[i as int].1);
        }
        out = add_fitted(out, list[i].1, Ghost(sum(numbers.take(i as int))));
        i = i + 1;
    }
    assert(numbers.take(numbers.len() as int) =~= numbers);
    out
}

/// Whether a list names every queue once, with its messages and consumers.
pub open spec fn describes_queues(list: Seq<(String, usize, usize)>, s: StateModel) -> bool {
    &&& forall|i: int, j: int| 0 <= i < j < list.len() ==> list[i].0@ != list[j].0@
    &&& forall|q: Seq<char>| #[trigger]
        s.queues.contains_key(q) <==> exists|i: int|
            0 <= i < list.len() && (#[trigger] list[i]).0@ == q
    &&& forall|i: int|
        0 <= i < list.len() ==> (#[trigger] list[i]).1 == s.queues[list[i].0@].len() && list[i].2
            == s.consumers_of(list[i].0@).len()
}

/// Whether a snapshot holds the sizes of a state.
pub open spec fn measures(snapshot: ServerSnapshot, s: StateModel) -> bool {
    &&& snapshot.connected_clients == s.connected_clients
    &&& snapshot.queue_count == s.queues.dom().len()
    &&& snapshot.total_messages == fitted(total(s.queue_sizes()))
    &&& snapshot.consumer_count == fitted(total(s.consumer_counts()))
}

/// Whether a status describes a broker.
pub open spec fn is_status_of(r: NodeStatus, broker: Broker, uptime_secs: u64) -> bool {
    &&& r.uptime_secs == uptime_secs
    &&& r.max_queue_size == broker@.state.max_queue_size
    &&& r.metrics == broker@.metrics
    &&& measures(r.live, broker@.state)
    &&& lists(r.by_ip.deep_view(), broker@.connections.by_ip)
    &&& lists(r.by_cn.deep_view(), broker@.connections.by_cn)
    &&& r.active_by_ip == fitted(sum(numbers_of(r.by_ip.deep_view())))
    &&& r.active_by_cn == fitted(sum(numbers_of(r.by_cn.deep_view())))
    &&& describes_queues(r.queues@, broker@.state)
    &&& exists|order: Seq<Seq<char>>| #[trigger]
        order.no_duplicates() && order.to_set() == broker@.state.bindings.dom()
            && r.bindings.deep_view() == listed_bindings(broker@.state, order)
    &&& r.exchanges.deep_view().no_duplicates()
    &&& r.exchanges.deep_view().to_set() == broker@.state.exchanges
}

/// Collects the state of the broker.
pub fn node_status(broker: &Broker, uptime_secs: u64) -> (r: NodeStatus)
    requires
        broker.wf(),
    ensures
        is_status_of(r, *broker, uptime_secs),
{
    let (by_ip, by_cn) = broker.limiter.connection_stats();
    let active_by_ip: usize = sum_of(&by_ip);
    let active_by_cn: usize = sum_of(&by_cn);
    NodeStatus {
        uptime_secs,
        max_queue_size: broker.state.max_queue_size(),
        metrics: broker.metrics,
        live: broker.state.snapshot(),
        by_ip,
        by_cn,
        active_by_ip,
        active_by_cn,
        queues: broker.state.queue_status(),
        bindings: broker.state.binding_list(),
        exchanges: broker.state.exchange_list(),
    }
}

/// What a command of the console leads to.
pub enum AdminReply {
    /// Close the connection.
    Close,
    /// Answer with this text and an end of line.
    Text(String),
    /// Answer with the status as JSON.
    Json(NodeStatus),
    /// Answer with the counts by address and by client.
    Connections(Vec<(String, usize)>, Vec<(String, usize)>),
}

/// The summary of queues, messages and consumers.
pub open spec fn queues_text(queues: nat, messages: nat, consumers: nat) -> Seq<char> {
    "Queues: "@ + decimal(queues) + "\nMessages: "@ + decimal(messages) + "\nConsumers: "@
        + decimal(consumers) + "\n"@
}

/// What a command of the console is answered.
pub open spec fn admin_answer(
    r: AdminReply,
    command: Seq<char>,
    broker: Broker,
    uptime_secs: u64,
) -> bool {
    if command == "quit"@ || command == "exit"@ {
        r is Close
    } else if command == "json"@ {
        r matches AdminReply::Json(status) && is_status_of(status, broker, uptime_secs)
    } else if command == "metrics"@ {
        r matches AdminReply::Text(t) && t@ == broker@.metrics.counters_text()
            + broker@.metrics.gauges_text(uptime_secs as nat)
    } else if command == "status"@ {
        r matches AdminReply::Text(t) && t@ == broker@.metrics.status_text(uptime_secs as nat)
    } else if command == "connections"@ {
        r matches AdminReply::Connections(by_ip, by_cn) && lists(
            by_ip.deep_view(),
            broker@.connections.by_ip,
        ) && lists(by_cn.deep_view(), broker@.connections.by_cn)
    } else if command == "queues"@ {
        r matches AdminReply::Text(t) && t@ == queues_text(
            broker@.state.queues.dom().len(),
            fitted(total(broker@.state.queue_sizes())) as nat,
            fitted(total(broker@.state.consumer_counts())) as nat,
        )
    } else {
        r matches AdminReply::Text(t) && t@ == "Unknown command\n"@
    }
}

/// Answers a line that was sent to the console.
pub fn admin_reply(broker: &Broker, line: &str, uptime_secs: u64) -> (r: AdminReply)
    requires
        broker.wf(),
    ensures
        admin_answer(r, trimmed(line@), *broker, uptime_secs),
{
    let command = trim(line);
    if same(command, "quit") || same(command, "exit") {
        AdminReply::Close
    } else if same(command, "json") {
        AdminReply::Json(node_status(broker, uptime_secs))
    } else if same(command, "metrics") {
        AdminReply::Text(broker.metrics.render_prometheus(uptime_secs))
    } else if same(command, "status") {
        AdminReply::Text(broker.metrics.render_status(uptime_secs))
    } else if same(command, "connections") {
        let (by_ip, by_cn) = broker.limiter.connection_stats();
        AdminReply::Connections(by_ip, by_cn)
    } else if same(command, "queues") {
        let live = broker.state.snapshot();
        let mut out = "Queues: ".to_owned();
        push_decimal(&mut out, live.queue_count as u64);
        out.append("\nMessages: ");
        push_decimal(&mut out, live.total_messages as u64);
        out.append("\nConsumers: ");
        push_decimal(&mut out, live.consumer_count as u64);
        out.append("\n");
        AdminReply::Text(out)
    } else {
        AdminReply::Text("Unknown command\n".to_owned())
    }
}

/// What a console's client knows of the node it watches.
pub struct NodeHealth {
    pub reachable: bool,
    pub health: String,
    pub last_update: String,
}

/// What came of asking the node for its status.
pub enum PollEvent {
    /// A status that could be read, with the health it reports.
    Status(String),
    /// An answer that could not be read.
    Unreadable,
    /// The session with the node ended.
    Ended,
}

/// What to do after asking the node for its status.
#[derive(Clone, Copy, Debug, PartialEq, Eq, Structural)]
pub enum PollStep {
    /// Wait for the poll interval and ask again.
    AskAgain,
    /// Wait a little and connect again.
    Reconnect,
}

impl NodeHealth {
    /// Nothing is known yet.
    pub fn new() -> (r: Self)
        ensures
            !r.reachable,
            r.health@ == Seq::<char>::empty(),
            r.last_update@ == Seq::<char>::empty(),
    {
        NodeHealth { reachable: false, health: String::new(), last_update: String::new() }
    }

    /// Takes in what came of asking for the status, at some time of day.
    pub fn polled(&mut self, event: PollEvent, time: String) -> (r: PollStep)
        ensures
            match event {
                PollEvent::Status(health) => {
                    &&& r == PollStep::AskAgain
                    &&& *final(self) == (NodeHealth {
                        reachable: true,
                        health,
                        last_update: time,
                    })
                },
                PollEvent::Unreadable => r == PollStep::AskAgain && *final(self) == *old(self),
                PollEvent::Ended => {
                    &&& r == PollStep::Reconnect
                    &&& !final(self).reachable
                    &&& final(self).health@ == "unreachable"@
                    &&& final(self).last_update == time
                },
            },
    {
        match event {
            PollEvent::Status(health) => {
                self.reachable = true;
                self.health = health;
                self.last_update = time;
                PollStep::AskAgain
            },
            PollEvent::Unreadable => PollStep::AskAgain,
            PollEvent::Ended => {
                self.reachable = false;
                self.health = "unreachable".to_owned();
                self.last_update = time;
                PollStep::Reconnect
            },
        }
    }
}

/// Reads the node's answer to a command; an empty one means that it is gone.
pub fn query_answer(response: &str) -> (r: Result<String, String>)
    ensures
        match r {
            Ok(t) => response@.len() > 0 && t@ == trimmed(response@),
            Err(e) => response@.len() == 0 && e@ == "server closed connection"@,
        },
{
    if response.is_empty() {
        return Err("server closed connection".to_owned());
    }
    Ok(trim(response).to_owned())
}

/// A list of queues that describes a state names each of its queues once, with the
/// number of its messages and of its consumers, and no other queue.
pub proof fn law_every_queue_is_described(list: Seq<(String, usize, usize)>, s: StateModel)
    requires
        describes_queues(list, s),
    ensures
        forall|q: Seq<char>| #[trigger]
            s.queues.contains_key(q) ==> exists|i: int|
                0 <= i < list.len() && (#[trigger] list[i]).0@ == q && list[i].1
                    == s.queues[q].len() && list[i].2 == (if s.consumers.contains_key(q) {
                    s.consumers[q].len()
                } else {
                    0
                }),
        forall|i: int|
            0 <= i < list.len() ==> s.queues.contains_key((#[trigger] list[i]).0@),
        forall|i: int, j: int| 0 <= i < j < list.len() ==> list[i].0@ != list[j].0@,
{
    assert forall|q: Seq<char>| #[trigger] s.queues.contains_key(q) implies exists|i: int|
        0 <= i < list.len() && (#[trigger] list[i]).0@ == q && list[i].1 == s.queues[q].len()
            && list[i].2 == (if s.consumers.contains_key(q) {
            s.consumers[q].len()
        } else {
            0
        }) by {
        let i = choose|i: int| 0 <= i < list.len() && (#[trigger] list[i]).0@ == q;
        assert(list[i].1 == s.queues[list[i].0@].len());
    }
    assert forall|i: int| 0 <= i < list.len() implies s.queues.contains_key(
        (#[trigger] list[i]).0@,
    ) by {
        let q = list[i].0@;
        assert(exists|k: int| 0 <= k < list.len() && (#[trigger] list[k]).0@ == q);
    }
}

/// A status that describes a broker shows its sizes and the connections of every address
/// and every client, each once, and counts them all.
pub proof fn law_status_shows_every_connection(r: NodeStatus, broker: Broker, uptime_secs: u64)
    requires
        is_status_of(r, broker, uptime_secs),
    ensures
        r.uptime_secs == uptime_secs,
        r.metrics == broker@.metrics,
        r.live.connected_clients == broker@.state.connected_clients,
        r.live.queue_count == broker@.state.queues.dom().len(),
        r.live.total_messages == fitted(total(broker@.state.queue_sizes())),
        r.live.consumer_count == fitted(total(broker@.state.consumer_counts())),
        r.max_queue_size == broker@.state.max_queue_size,
        forall|ip: Seq<char>| #[trigger]
            broker@.connections.by_ip.contains_key(ip) ==> r.by_ip.deep_view().contains(
                (ip, broker@.connections.by_ip[ip]),
            ),
        forall|cn: Seq<char>| #[trigger]
            broker@.connections.by_cn.contains_key(cn) ==> r.by_cn.deep_view().contains(
                (cn, broker@.connections.by_cn[cn]),
            ),
        forall|i: int|
            0 <= i < r.by_ip.deep_view().len() ==> broker@.connections.by_ip.contains_key(
                (#[trigger] r.by_ip.deep_view()[i]).0,
            ),
        forall|i: int|
            0 <= i < r.by_cn.deep_view().len() ==> broker@.connections.by_cn.contains_key(
                (#[trigger] r.by_cn.deep_view()[i]).0,
            ),
        r.by_ip.deep_view().fold_left(
            0nat,
            |n: nat, e: (Seq<char>, usize)| n + e.1 as nat,
        ) <= usize::MAX ==> r.active_by_ip == r.by_ip.deep_view().fold_left(
            0nat,
            |n: nat, e: (Seq<char>, usize)| n + e.1 as nat,
        ),
        r.by_cn.deep_view().fold_left(
            0nat,
            |n: nat, e: (Seq<char>, usize)| n + e.1 as nat,
        ) <= usize::MAX ==> r.active_by_cn == r.by_cn.deep_view().fold_left(
            0nat,
            |n: nat, e: (Seq<char>, usize)| n + e.1 as nat,
        ),
        forall|e: Seq<char>| #[trigger]
            broker@.state.exchanges.contains(e) <==> r.exchanges.deep_view().contains(e),
{
    lemma_numbers_add_up(r.by_ip.deep_view());
    lemma_numbers_add_up(r.by_cn.deep_view());
    assert forall|e: Seq<char>| #[trigger] broker@.state.exchanges.contains(
        e,
    ) <==> r.exchanges.deep_view().contains(e) by {
        assert(r.exchanges.deep_view().to_set().contains(e) <==> r.exchanges.deep_view().contains(e));
    }
}

proof fn lemma_numbers_add_up(list: Seq<(Seq<char>, usize)>)
    ensures
        sum(numbers_of(list)) == list.fold_left(
            0nat,
            |n: nat, e: (Seq<char>, usize)| n + e.1 as nat,
        ),
    decreases list.len(),
{
    if list.len() > 0 {
        lemma_numbers_add_up(list.drop_last());
        assert(numbers_of(list).drop_last() =~= numbers_of(list.drop_last()));
    }
}

/// The summary shows the numbers of queues, messages and consumers in this order, each on
/// a line of its own.
pub proof fn law_summary_shows_the_numbers(queues: nat, messages: nat, consumers: nat)
    ensures
        queues_text(queues, messages, consumers) == seq![
            "Queues: "@ + decimal(queues),
            "Messages: "@ + decimal(messages),
            "Consumers: "@ + decimal(consumers),
        ].map_values(|line: Seq<char>| line.push('\n')).flatten(),
{
    let f = |line: Seq<char>| line.push('\n');
    let all = seq![
        "Queues: "@ + decimal(queues),
        "Messages: "@ + decimal(messages),
        "Consumers: "@ + decimal(consumers),
    ].map_values(f);
    reveal_strlit("Queues: ");
    reveal_strlit("Messages: ");
    reveal_strlit("Consumers: ");
    reveal_strlit("\nMessages: ");
    reveal_strlit("\nConsumers: ");
    reveal_strlit("\n");
    assert("\nMessages: "@ =~= seq!['\n'] + "Messages: "@);
    assert("\nConsumers: "@ =~= seq!['\n'] + "Consumers: "@);
    assert("\n"@ =~= seq!['\n']);
    let tail = all.drop_first();
    let end = tail.drop_first();
    assert(end.drop_first() =~= Seq::<Seq<char>>::empty());
    assert(Seq::<Seq<char>>::empty().flatten() == Seq::<char>::empty());
    assert(end.flatten() == all[2] + end.drop_first().flatten());
    assert(tail.flatten() == all[1] + end.flatten());
    assert(all.flatten() == all[0] + tail.flatten());
    assert(all.flatten() == all[0] + (all[1] + (all[2] + Seq::<char>::empty())));
    assert(queues_text(queues, messages, consumers) =~= all.flatten());
}

/// Each command of the console is answered by what it names, and everything else by the
/// same refusal.
pub proof fn law_console_answers_what_is_asked(
    r: AdminReply,
    command: Seq<char>,
    broker: Broker,
    uptime_secs: u64,
)
    requires
        admin_answer(r, command, broker, uptime_secs),
    ensures
        r is Close <==> command == "quit"@ || command == "exit"@,
        r is Json <==> command == "json"@,
        r is Connections <==> command == "connections"@,
        command == "status"@ ==> (r matches AdminReply::Text(t) && t@
            == broker@.metrics.status_text(uptime_secs as nat)),
        command == "metrics"@ ==> (r matches AdminReply::Text(t) && t@
            == broker@.metrics.counters_text() + broker@.metrics.gauges_text(uptime_secs as nat)),
        command == "queues"@ ==> (r matches AdminReply::Text(t) && t@ == queues_text(
            broker@.state.queues.dom().len(),
            fitted(total(broker@.state.queue_sizes())) as nat,
            fitted(total(broker@.state.consumer_counts())) as nat,
        )),
        !seq![
            "quit"@,
            "exit"@,
            "json"@,
            "metrics"@,
            "status"@,
            "connections"@,
            "queues"@,
        ].contains(command) ==> (r matches AdminReply::Text(t) && t@ == "Unknown command\n"@),
{
    let all = seq![
        "quit"@,
        "exit"@,
        "json"@,
        "metrics"@,
        "status"@,
        "connections"@,
        "queues"@,
    ];
    assert(all[0] == "quit"@ && all[1] == "exit"@ && all[2] == "json"@ && all[3] == "metrics"@
        && all[4] == "status"@ && all[5] == "connections"@ && all[6] == "queues"@);
    reveal_strlit("quit");
    reveal_strlit("exit");
    reveal_strlit("json");
    reveal_strlit("metrics");
    reveal_strlit("status");
    reveal_strlit("connections");
    reveal_strlit("queues");
    assert("quit"@.len() == 4 && "quit"@[0] == 'q');
    assert("exit"@.len() == 4 && "exit"@[0] == 'e');
    assert("json"@.len() == 4 && "json"@[0] == 'j');
    assert("metrics"@.len() == 7);
    assert("status"@.len() == 6 && "status"@[0] == 's');
    assert("connections"@.len() == 11);
    assert("queues"@.len() == 6 && "queues"@[0] == 'q');
}

} // verus!
