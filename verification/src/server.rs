//! One client's conversation with the broker: admission, requests, deliveries and
//! departure.

use crate::acl::{command_denial, permits, resource_denial, AclManager, AuthResult, Role};
use crate::heartbeat::HeartbeatMonitor;
use crate::metrics::{bump, next, Metrics};
use crate::rate_limiter::{ConnectionsModel, RateLimitResult, RateLimiter};
use crate::request_laws::law_batch_reply_ends_every_answer;
use crate::state::{EncryptedInputData, ServerState};
use crate::state_model::{
    counted_down, counted_up, duplicate_error, metadata_error, unbound_error, MessageModel,
    QueuedModel, StateModel,
};
use crate::storage::StorageError;
use crate::text::{
    lemma_pieces_len, lossy_text, pieces, prefixed, same, split_pieces, text_from_lossy, trim,
    trimmed, views, wrapped,
};
use vstd::prelude::*;
use vstd::string::*;

verus! {

/// A client that was admitted.
pub struct Session {
    pub client_id: String,
    pub ip: String,
    pub role: Role,
    /// The channel that messages for this client are sent through.
    pub consumer: u64,
}

/// The outcome of a connection attempt.
#[derive(Clone, Copy, Debug, PartialEq, Eq, Structural)]
pub enum Admission {
    /// The client may send requests.
    Admitted(Role),
    /// The client is told that its name is not known.
    Unrecognized,
    /// The connection is closed without a word.
    LimitReached,
}

/// What a client without a role is told.
pub fn unrecognized_reply() -> (r: &'static str)
    ensures
        r@ == "Access denied: unrecognized client identity\n"@,
{
    "Access denied: unrecognized client identity\n"
}

/// The broker as mathematical values.
#[verifier::ext_equal]
pub struct BrokerModel {
    pub state: StateModel,
    pub metrics: Metrics,
    pub connections: ConnectionsModel,
    pub beats: Map<Seq<char>, u128>,
}

/// What stays the same while the broker runs.
pub struct BrokerRules {
    pub ip_limit: usize,
    pub cn_limit: usize,
    pub limits_requests: bool,
    pub timeout: u128,
    pub senders: Set<Seq<char>>,
    pub receivers: Set<Seq<char>>,
    pub admins: Set<Seq<char>>,
}

/// The state of the broker with all that watches over it.
pub struct Broker {
    pub state: ServerState,
    pub metrics: Metrics,
    pub limiter: RateLimiter,
    pub heartbeats: HeartbeatMonitor,
    pub acl: AclManager,
}

impl View for Broker {
    type V = BrokerModel;

    open spec fn view(&self) -> BrokerModel {
        BrokerModel {
            state: self.state@,
            metrics: self.metrics,
            connections: self.limiter@,
            beats: self.heartbeats@,
        }
    }
}

impl BrokerModel {
    /// After a client was admitted.
    pub open spec fn joined(self, cn: Seq<char>, ip: Seq<char>, now: u128) -> BrokerModel {
        BrokerModel {
            state: StateModel {
                connected_clients: counted_up(self.state.connected_clients),
                ..self.state
            },
            metrics: Metrics {
                connections_total: next(self.metrics.connections_total),
                ..self.metrics
            },
            connections: self.connections.opened(cn, ip),
            beats: self.beats.insert(cn, now),
        }
    }

    /// After a client was turned away for want of room.
    pub open spec fn turned_away(self) -> BrokerModel {
        BrokerModel {
            metrics: Metrics {
                connections_rejected_conn_limit: next(
                    self.metrics.connections_rejected_conn_limit,
                ),
                ..self.metrics
            },
            ..self
        }
    }

    /// After a client left.
    pub open spec fn left(self, cn: Seq<char>, ip: Seq<char>) -> BrokerModel {
        BrokerModel {
            state: StateModel {
                connected_clients: counted_down(self.state.connected_clients),
                ..self.state
            },
            metrics: self.metrics,
            connections: self.connections.released(cn, ip),
            beats: self.beats.remove(cn),
        }
    }
}

impl Broker {
    /// All parts are well-formed.
    pub open spec fn wf(&self) -> bool {
        self.state.wf() && self.limiter.wf() && self.heartbeats.wf()
    }

    /// What stays the same while the broker runs.
    pub open spec fn rules(&self) -> BrokerRules {
        BrokerRules {
            ip_limit: self.limiter.ip_limit(),
            cn_limit: self.limiter.cn_limit(),
            limits_requests: self.limiter.limits_requests(),
            timeout: self.heartbeats.limit(),
            senders: self.acl.senders(),
            receivers: self.acl.receivers(),
            admins: self.acl.admins(),
        }
    }

    /// Admits a client that has a role and is within its limits.
    pub fn connect(&mut self, client_id: &str, ip: &str, now: u128) -> (r: Admission)
        requires
            old(self).wf(),
            old(self).limiter.can_count(client_id@, ip@),
        ensures
            final(self).wf(),
            final(self).rules() == old(self).rules(),
            if old(self).acl.role_of(client_id@) == Role::Unknown {
                &&& r == Admission::Unrecognized
                &&& final(self)@ == old(self)@
            } else if old(self).limiter.is_full(client_id@, ip@) {
                &&& r == Admission::LimitReached
                &&& final(self)@ == old(self)@.turned_away()
            } else {
                &&& r == Admission::Admitted(old(self).acl.role_of(client_id@))
                &&& final(self)@ == old(self)@.joined(client_id@, ip@, now)
            },
    {
        let role = self.acl.resolve_role(client_id);
        if role == Role::Unknown {
            return Admission::Unrecognized;
        }
        if !self.limiter.check_connection(client_id, ip).is_allowed() {
            bump(&mut self.metrics.connections_rejected_conn_limit);
            return Admission::LimitReached;
        }
        bump(&mut self.metrics.connections_total);
        self.state.increment_client_count();
        self.heartbeats.record_heartbeat(client_id, now);
        Admission::Admitted(role)
    }

    /// Lets go of a client.
    pub fn disconnect(&mut self, session: &Session)
        requires
            old(self).wf(),
        ensures
            final(self).wf(),
            final(self).rules() == old(self).rules(),
            final(self)@ == old(self)@.left(session.client_id@, session.ip@),
    {
        self.state.decrement_client_count();
        self.heartbeats.remove_client(session.client_id.as_str());
        self.limiter.release_connection(session.client_id.as_str(), session.ip.as_str());
    }
}

/// The command of a request: what stands before the first blank.
pub open spec fn command_of(request: Seq<char>) -> Seq<char> {
    pieces(request, 2)[0]
}

/// The arguments of a request: what stands behind the first blank.
pub open spec fn arguments_of(request: Seq<char>) -> Seq<char> {
    if pieces(request, 2).len() > 1 {
        pieces(request, 2)[1]
    } else {
        Seq::empty()
    }
}

/// Whether a command publishes.
pub open spec fn publishes(command: Seq<char>) -> bool {
    command == "publish"@ || command == "publish_batch"@
}

/// The answer to a command that a role may not use.
pub open spec fn command_refusal(reason: Seq<char>, role: Role) -> Seq<char> {
    "Access denied: "@ + reason + " (role="@ + role.name() + ")\n"@
}

/// The answer to a request for a resource that a client may not touch.
pub open spec fn resource_refusal(reason: Seq<char>) -> Seq<char> {
    "Access denied: "@ + reason + "\n"@
}

/// A request that was read.
pub enum Screening {
    /// The role may not use the command; this is the answer.
    Refused(String),
    /// The command may be executed once the rate limiter allows it.
    Passed { command: String, arguments: String, publishes: bool },
}

impl Broker {
    /// Reads a request line and checks that the client's role may use its command.
    pub fn screen(&mut self, session: &Session, line: &[u8], now: u128) -> (r: Screening)
        requires
            old(self).wf(),
        ensures
            final(self).wf(),
            final(self).rules() == old(self).rules(),
            final(self)@ == old(self)@.heard(session.client_id@, now),
            screened(r, session.role, trimmed(lossy_text(line@))),
            vstd::utf8::valid_utf8(line@) ==> screened(
                r,
                session.role,
                trimmed(vstd::utf8::decode_utf8(line@)),
            ),
    {
        let text = text_from_lossy(line);
        self.screen_request(session, text.as_str(), now)
    }

    /// Checks that the client's role may use the command of a request.
    pub fn screen_request(&mut self, session: &Session, text: &str, now: u128) -> (r: Screening)
        requires
            old(self).wf(),
        ensures
            final(self).wf(),
            final(self).rules() == old(self).rules(),
            final(self)@ == old(self)@.heard(session.client_id@, now),
            screened(r, session.role, trimmed(text@)),
    {
        self.heartbeats.record_heartbeat(session.client_id.as_str(), now);
        let request = trim(text);
        let parts = split_pieces(request, 2);
        proof {
            lemma_pieces_len(request@, 2);
            assert(views(parts@).len() == parts@.len());
            assert(views(parts@)[0] == parts@[0]@);
        }
        let command = parts[0];
        let arguments = if parts.len() > 1 {
            assert(views(parts@)[1] == parts@[1]@);
            parts[1].to_owned()
        } else {
            String::new()
        };
        match self.acl.check_command(&session.role, command) {
            AuthResult::Denied(reason) => {
                let mut reply = wrapped("Access denied: ", reason, " (role=");
                reply.append(session.role.as_str());
                reply.append(")\n");
                Screening::Refused(reply)
            },
            AuthResult::Allowed => {
                let publishes: bool = same(command, "publish") || same(command, "publish_batch");
                Screening::Passed { command: command.to_owned(), arguments, publishes }
            },
        }
    }
}

/// What comes of a request, before the rate limiter is asked.
pub open spec fn screened(r: Screening, role: Role, request: Seq<char>) -> bool {
    match command_denial(role, command_of(request)) {
        Some(reason) => r matches Screening::Refused(reply) && reply@ == command_refusal(
            reason,
            role,
        ),
        None => r matches Screening::Passed { command, arguments, publishes: p } && {
            &&& command@ == command_of(request)
            &&& arguments@ == arguments_of(request)
            &&& p == publishes(command@)
            &&& permits(role, command@)
        },
    }
}

/// What is to be done for a request.
pub enum Step {
    /// Answer with this text.
    Reply(String),
    /// Send these messages to the client, one after the other.
    Deliver(Vec<(String, EncryptedInputData)>),
    /// Read one message from JSON and publish it.
    Publish { exchange: String, routing_key: String, json: String },
    /// Read a list of messages from JSON and publish each.
    PublishBatch { exchange: String, routing_key: String, json: String },
    /// Store the time of an acknowledgement, if the message was known, and
    /// confirm it.
    Acknowledged { message_id: String, known: bool, reply: String },
    /// Look up who sent a message.
    FindSender(String),
    /// Store the client's public key.
    SaveKey(String),
    /// Look up a client's public key.
    FindKey(String),
}

/// A step as mathematical values.
pub enum StepModel {
    Reply(Seq<char>),
    Deliver(Seq<QueuedModel>),
    Publish { exchange: Seq<char>, routing_key: Seq<char>, json: Seq<char> },
    PublishBatch { exchange: Seq<char>, routing_key: Seq<char>, json: Seq<char> },
    Acknowledged { message_id: Seq<char>, known: bool, reply: Seq<char> },
    FindSender(Seq<char>),
    SaveKey(Seq<char>),
    FindKey(Seq<char>),
}

impl View for Step {
    type V = StepModel;

    open spec fn view(&self) -> StepModel {
        match self {
            Step::Reply(t) => StepModel::Reply(t@),
            Step::Deliver(m) => StepModel::Deliver(m.deep_view()),
            Step::Publish { exchange, routing_key, json } => StepModel::Publish {
                exchange: exchange@,
                routing_key: routing_key@,
                json: json@,
            },
            Step::PublishBatch { exchange, routing_key, json } => StepModel::PublishBatch {
                exchange: exchange@,
                routing_key: routing_key@,
                json: json@,
            },
            Step::Acknowledged { message_id, known, reply } => StepModel::Acknowledged {
                message_id: message_id@,
                known: *known,
                reply: reply@,
            },
            Step::FindSender(t) => StepModel::FindSender(t@),
            Step::SaveKey(t) => StepModel::SaveKey(t@),
            Step::FindKey(t) => StepModel::FindKey(t@),
        }
    }
}

/// The client as the rules see it.
pub struct Caller {
    pub cn: Seq<char>,
    pub role: Role,
    pub consumer: u64,
}

impl Session {
    /// The client as the rules see it.
    pub open spec fn caller(&self) -> Caller {
        Caller { cn: self.client_id@, role: self.role, consumer: self.consumer }
    }
}

/// A state that did not change, and an answer.
pub open spec fn answer(state: BrokerModel, reply: Seq<char>) -> (BrokerModel, StepModel) {
    (state, StepModel::Reply(reply))
}

impl BrokerModel {
    /// After a request that came too soon.
    pub open spec fn held_back(self) -> BrokerModel {
        BrokerModel {
            metrics: Metrics {
                requests_rate_limited: next(self.metrics.requests_rate_limited),
                ..self.metrics
            },
            ..self
        }
    }

    /// After a client was heard of.
    pub open spec fn heard(self, cn: Seq<char>, now: u128) -> BrokerModel {
        BrokerModel { beats: self.beats.insert(cn, now), ..self }
    }

    /// `declare_queue <queue>`
    pub open spec fn do_declare_queue(self, caller: Caller, arguments: Seq<char>) -> (
        BrokerModel,
        StepModel,
    ) {
        if arguments.len() == 0 {
            answer(self, "Missing queue name\n"@)
        } else {
            match resource_denial(caller.role, caller.cn, "queue"@, arguments) {
                Some(reason) => answer(self, resource_refusal(reason)),
                None => answer(
                    BrokerModel { state: self.state.with_queue(arguments), ..self },
                    "Queue declared\n"@,
                ),
            }
        }
    }

    /// `declare_exchange <exchange>`
    pub open spec fn do_declare_exchange(self, arguments: Seq<char>) -> (BrokerModel, StepModel) {
        if arguments.len() == 0 {
            answer(self, "Missing exchange name\n"@)
        } else {
            answer(
                BrokerModel { state: self.state.with_exchange(arguments), ..self },
                "Exchange declared\n"@,
            )
        }
    }

    /// `bind <queue> <exchange> <routing_key>`
    pub open spec fn do_bind(self, caller: Caller, arguments: Seq<char>) -> (
        BrokerModel,
        StepModel,
    ) {
        let p = pieces(arguments, 3);
        if p.len() < 3 {
            answer(self, "Missing parameters\n"@)
        } else {
            match resource_denial(caller.role, caller.cn, "queue"@, p[0]) {
                Some(reason) => answer(self, resource_refusal(reason)),
                None => match resource_denial(caller.role, caller.cn, "routing_key"@, p[2]) {
                    Some(reason) => answer(self, resource_refusal(reason)),
                    None => answer(
                        BrokerModel { state: self.state.with_binding(p[0], p[1], p[2]), ..self },
                        "Queue bound\n"@,
                    ),
                },
            }
        }
    }

    /// `publish` and `publish_batch <exchange> <routing_key> <json>`
    pub open spec fn do_publish(self, arguments: Seq<char>, batch: bool) -> (
        BrokerModel,
        StepModel,
    ) {
        let p = pieces(arguments, 3);
        if p.len() < 3 {
            answer(self, "Missing parameters\n"@)
        } else if batch {
            (self, StepModel::PublishBatch { exchange: p[0], routing_key: p[1], json: p[2] })
        } else {
            (self, StepModel::Publish { exchange: p[0], routing_key: p[1], json: p[2] })
        }
    }

    /// `consume <queue>`
    pub open spec fn do_consume(self, caller: Caller, arguments: Seq<char>) -> (
        BrokerModel,
        StepModel,
    ) {
        if arguments.len() == 0 {
            answer(self, "Missing queue name\n"@)
        } else {
            (
                BrokerModel {
                    state: self.state.with_consumer(arguments, caller.consumer),
                    ..self
                },
                StepModel::Deliver(self.state.pending(arguments)),
            )
        }
    }

    /// `ack <message_id>`
    pub open spec fn do_ack(self, arguments: Seq<char>) -> (BrokerModel, StepModel) {
        if arguments.len() == 0 {
            answer(self, "Missing message ID\n"@)
        } else {
            let known = self.state.message_status.contains_key(arguments);
            (
                BrokerModel {
                    state: self.state.acked(arguments),
                    metrics: Metrics {
                        messages_acked: next(self.metrics.messages_acked),
                        ..self.metrics
                    },
                    ..self
                },
                StepModel::Acknowledged {
                    message_id: arguments,
                    known,
                    reply: "ACK_CONFIRMED "@ + arguments + "\n"@,
                },
            )
        }
    }

    /// What a command does.
    pub open spec fn executed(
        self,
        caller: Caller,
        command: Seq<char>,
        arguments: Seq<char>,
        now: u128,
    ) -> (BrokerModel, StepModel) {
        if command == "declare_queue"@ {
            self.do_declare_queue(caller, arguments)
        } else if command == "declare_exchange"@ {
            self.do_declare_exchange(arguments)
        } else if command == "bind"@ {
            self.do_bind(caller, arguments)
        } else if command == "publish"@ {
            self.do_publish(arguments, false)
        } else if command == "publish_batch"@ {
            self.do_publish(arguments, true)
        } else if command == "consume"@ {
            self.do_consume(caller, arguments)
        } else if command == "ack"@ {
            self.do_ack(arguments)
        } else if command == "resend"@ {
            if arguments.len() == 0 {
                answer(self, "Missing message ID\n"@)
            } else {
                (self, StepModel::FindSender(arguments))
            }
        } else if command == "register_public_key"@ {
            if arguments.len() == 0 {
                answer(self, "Missing public key\n"@)
            } else {
                (self, StepModel::SaveKey(arguments))
            }
        } else if command == "get_public_key"@ {
            if arguments.len() == 0 {
                answer(self, "Missing client ID\n"@)
            } else {
                (self, StepModel::FindKey(arguments))
            }
        } else if command == "heartbeat"@ {
            answer(self.heard(caller.cn, now), "Heartbeat received\n"@)
        } else {
            answer(self, "Unknown command\n"@)
        }
    }
}

fn said(text: &str) -> (r: Step)
    ensures
        r@ == StepModel::Reply(text@),
{
    Step::Reply(text.to_owned())
}

impl Broker {
    /// Executes a command that the role may use, unless the rate limiter stands
    /// in the way.
    pub fn execute(
        &mut self,
        session: &Session,
        command: &str,
        arguments: &str,
        allowance: RateLimitResult,
        now: u128,
    ) -> (r: Step)
        requires
            old(self).wf(),
            permits(session.role, command@),
        ensures
            final(self).wf(),
            final(self).rules() == old(self).rules(),
            if allowance == RateLimitResult::Allowed {
                (final(self)@, r@) == old(self)@.executed(
                    session.caller(),
                    command@,
                    arguments@,
                    now,
                )
            } else {
                &&& r@ == StepModel::Reply("Rate limited\n"@)
                &&& final(self)@ == old(self)@.held_back()
            },
    {
        if !allowance.is_allowed() {
            bump(&mut self.metrics.requests_rate_limited);
            return said("Rate limited\n");
        }
        if same(command, "declare_queue") {
            self.declare_queue(session, arguments)
        } else if same(command, "declare_exchange") {
            if arguments.is_empty() {
                return said("Missing exchange name\n");
            }
            self.state.declare_exchange(arguments);
            said("Exchange declared\n")
        } else if same(command, "bind") {
            self.bind(session, arguments)
        } else if same(command, "publish") {
            publish_request(arguments, false, Ghost(self@))
        } else if same(command, "publish_batch") {
            publish_request(arguments, true, Ghost(self@))
        } else if same(command, "consume") {
            if arguments.is_empty() {
                return said("Missing queue name\n");
            }
            Step::Deliver(self.state.register_consumer(arguments, session.consumer))
        } else if same(command, "ack") {
            self.ack(arguments)
        } else if same(command, "resend") {
            if arguments.is_empty() {
                return said("Missing message ID\n");
            }
            Step::FindSender(arguments.to_owned())
        } else if same(command, "register_public_key") {
            if arguments.is_empty() {
                return said("Missing public key\n");
            }
            Step::SaveKey(arguments.to_owned())
        } else if same(command, "get_public_key") {
            if arguments.is_empty() {
                return said("Missing client ID\n");
            }
            Step::FindKey(arguments.to_owned())
        } else if same(command, "heartbeat") {
            self.heartbeats.record_heartbeat(session.client_id.as_str(), now);
            said("Heartbeat received\n")
        } else {
            said("Unknown command\n")
        }
    }

    fn declare_queue(&mut self, session: &Session, arguments: &str) -> (r: Step)
        requires
            old(self).wf(),
        ensures
            final(self).wf(),
            final(self).rules() == old(self).rules(),
            (final(self)@, r@) == old(self)@.do_declare_queue(session.caller(), arguments@),
    {
        if arguments.is_empty() {
            return said("Missing queue name\n");
        }
        if let AuthResult::Denied(reason) = self.acl.check_resource(
            &session.role,
            session.client_id.as_str(),
            "queue",
            arguments,
        ) {
            return Step::Reply(wrapped("Access denied: ", reason, "\n"));
        }
        self.state.declare_queue(arguments);
        said("Queue declared\n")
    }

    fn bind(&mut self, session: &Session, arguments: &str) -> (r: Step)
        requires
            old(self).wf(),
        ensures
            final(self).wf(),
            final(self).rules() == old(self).rules(),
            (final(self)@, r@) == old(self)@.do_bind(session.caller(), arguments@),
    {
        let parts = split_pieces(arguments, 3);
        assert(views(parts@).len() == parts@.len());
        if parts.len() < 3 {
            return said("Missing parameters\n");
        }
        proof {
            assert(views(parts@)[0] == parts@[0]@);
            assert(views(parts@)[1] == parts@[1]@);
            assert(views(parts@)[2] == parts@[2]@);
        }
        if let AuthResult::Denied(reason) = self.acl.check_resource(
            &session.role,
            session.client_id.as_str(),
            "queue",
            parts[0],
        ) {
            return Step::Reply(wrapped("Access denied: ", reason, "\n"));
        }
        if let AuthResult::Denied(reason) = self.acl.check_resource(
            &session.role,
            session.client_id.as_str(),
            "routing_key",
            parts[2],
        ) {
            return Step::Reply(wrapped("Access denied: ", reason, "\n"));
        }
        self.state.bind_queue(parts[0], parts[1], parts[2]);
        said("Queue bound\n")
    }

    fn ack(&mut self, arguments: &str) -> (r: Step)
        requires
            old(self).wf(),
        ensures
            final(self).wf(),
            final(self).rules() == old(self).rules(),
            (final(self)@, r@) == old(self)@.do_ack(arguments@),
    {
        if arguments.is_empty() {
            return said("Missing message ID\n");
        }
        let known: bool = self.state.acknowledge(arguments);
        bump(&mut self.metrics.messages_acked);
        Step::Acknowledged {
            message_id: arguments.to_owned(),
            known,
            reply: wrapped("ACK_CONFIRMED ", arguments, "\n"),
        }
    }
}

fn publish_request(arguments: &str, batch: bool, Ghost(model): Ghost<BrokerModel>) -> (r: Step)
    ensures
        (model, r@) == model.do_publish(arguments@, batch),
{
    let parts = split_pieces(arguments, 3);
    assert(views(parts@).len() == parts@.len());
    if parts.len() < 3 {
        return said("Missing parameters\n");
    }
    proof {
        assert(views(parts@)[0] == parts@[0]@);
        assert(views(parts@)[1] == parts@[1]@);
        assert(views(parts@)[2] == parts@[2]@);
    }
    let exchange = parts[0].to_owned();
    let routing_key = parts[1].to_owned();
    let json = parts[2].to_owned();
    if batch {
        Step::PublishBatch { exchange, routing_key, json }
    } else {
        Step::Publish { exchange, routing_key, json }
    }
}

/// A published message's answer, and the consumers to send it to.
pub struct Publication {
    pub reply: String,
    pub notices: Vec<(String, Vec<u64>)>,
}

impl BrokerModel {
    /// Why a message cannot be published, if it cannot.
    pub open spec fn publish_fault(
        self,
        exchange: Seq<char>,
        routing_key: Seq<char>,
        id: Seq<char>,
        saved: Option<Seq<char>>,
    ) -> Option<Seq<char>> {
        if self.state.message_status.contains_key(id) {
            Some(duplicate_error(id))
        } else if saved is Some {
            Some(metadata_error(saved->0))
        } else if self.state.targets(exchange, routing_key).len() == 0 {
            Some(unbound_error(exchange, routing_key))
        } else {
            None
        }
    }

    /// After a message was published.
    pub open spec fn with_message(
        self,
        exchange: Seq<char>,
        routing_key: Seq<char>,
        message: MessageModel,
        now: u128,
    ) -> BrokerModel {
        BrokerModel {
            state: self.state.published(exchange, routing_key, message, now),
            metrics: Metrics {
                messages_published: next(self.metrics.messages_published),
                ..self.metrics
            },
            ..self
        }
    }

    /// After the first delivery of a message.
    pub open spec fn handed_over(self, message_id: Seq<char>, now: u128) -> BrokerModel {
        BrokerModel {
            state: self.state.delivered(message_id, now),
            metrics: Metrics {
                messages_delivered: next(self.metrics.messages_delivered),
                ..self.metrics
            },
            ..self
        }
    }
}

/// One message of a batch: the message, why its metadata could not be stored, if
/// it could not, and when its turn came.
pub struct BatchItem {
    pub message: MessageModel,
    pub fault: Option<Seq<char>>,
    pub now: u128,
}

impl BrokerModel {
    /// After one message of a batch, and the line it is answered with.
    pub open spec fn in_batch(
        self,
        exchange: Seq<char>,
        routing_key: Seq<char>,
        item: BatchItem,
    ) -> (BrokerModel, Seq<char>) {
        let id = item.message.message_id;
        match self.publish_fault(exchange, routing_key, id, item.fault) {
            Some(fault) => (self, "Error: "@ + fault + " for message "@ + id),
            None => (
                self.with_message(exchange, routing_key, item.message, item.now),
                "ACK "@ + id,
            ),
        }
    }

    /// After the messages of a batch, one after the other, and the lines they are
    /// answered with.
    pub open spec fn batch(
        self,
        exchange: Seq<char>,
        routing_key: Seq<char>,
        items: Seq<BatchItem>,
    ) -> (BrokerModel, Seq<Seq<char>>)
        decreases items.len(),
    {
        if items.len() == 0 {
            (self, Seq::empty())
        } else {
            let (before, answers) = self.batch(exchange, routing_key, items.drop_last());
            let (after, answer) = before.in_batch(exchange, routing_key, items.last());
            (after, answers.push(answer))
        }
    }
}

/// How many answers are acknowledgements.
pub open spec fn acknowledgements(answers: Seq<Seq<char>>) -> nat
    decreases answers.len(),
{
    if answers.len() == 0 {
        0
    } else {
        acknowledgements(answers.drop_last()) + (if crate::text::has_prefix(
            answers.last(),
            "ACK "@,
        ) {
            1nat
        } else {
            0
        })
    }
}

/// Why something could not be stored, if it could not.
pub open spec fn storage_fault(saved: Result<(), StorageError>) -> Option<Seq<char>> {
    match saved {
        Ok(_) => None,
        Err(e) => Some(e@.message()),
    }
}

impl Broker {
    fn publish_to_state(
        &mut self,
        exchange: &str,
        routing_key: &str,
        message: EncryptedInputData,
        saved: Result<(), StorageError>,
        now: u128,
    ) -> (r: Result<Vec<(String, Vec<u64>)>, String>)
        requires
            old(self).wf(),
        ensures
            final(self).wf(),
            final(self).rules() == old(self).rules(),
            match old(self)@.publish_fault(
                exchange@,
                routing_key@,
                message.message_id@,
                storage_fault(saved),
            ) {
                Some(fault) => {
                    &&& final(self)@ == old(self)@
                    &&& r matches Err(e) && e@ == fault
                },
                None => {
                    &&& final(self)@ == old(self)@.with_message(
                        exchange@,
                        routing_key@,
                        message.deep_view(),
                        now,
                    )
                    &&& r matches Ok(n) && n.deep_view() == old(self)@.state.notices(
                        old(self)@.state.targets(exchange@, routing_key@),
                    )
                },
            },
    {
        let saved_text: Result<(), String> = match saved {
            Ok(()) => Ok(()),
            Err(e) => Err(e.text()),
        };
        let r = self.state.publish(exchange, routing_key, message, now, saved_text);
        if r.is_ok() {
            bump(&mut self.metrics.messages_published);
        }
        r
    }

    /// Publishes one message. `saved` says how storing its metadata went.
    pub fn publish(
        &mut self,
        exchange: &str,
        routing_key: &str,
        message: EncryptedInputData,
        saved: Result<(), StorageError>,
        now: u128,
    ) -> (r: Publication)
        requires
            old(self).wf(),
        ensures
            final(self).wf(),
            final(self).rules() == old(self).rules(),
            match old(self)@.publish_fault(
                exchange@,
                routing_key@,
                message.message_id@,
                storage_fault(saved),
            ) {
                Some(fault) => {
                    &&& final(self)@ == old(self)@
                    &&& r.reply@ == "Error: "@ + fault + "\n"@
                    &&& r.notices@.len() == 0
                },
                None => {
                    &&& final(self)@ == old(self)@.with_message(
                        exchange@,
                        routing_key@,
                        message.deep_view(),
                        now,
                    )
                    &&& r.reply@ == "ACK "@ + message.message_id@ + "\n"@
                    &&& r.notices.deep_view() == old(self)@.state.notices(
                        old(self)@.state.targets(exchange@, routing_key@),
                    )
                },
            },
    {
        let id = message.message_id.clone();
        match self.publish_to_state(exchange, routing_key, message, saved, now) {
            Ok(notices) => Publication { reply: wrapped("ACK ", id.as_str(), "\n"), notices },
            Err(e) => Publication {
                reply: wrapped("Error: ", e.as_str(), "\n"),
                notices: Vec::new(),
            },
        }
    }

    /// Publishes one message of a batch; the answer is one line of the batch's
    /// answer, without its end.
    pub fn publish_in_batch(
        &mut self,
        exchange: &str,
        routing_key: &str,
        message: EncryptedInputData,
        saved: Result<(), StorageError>,
        now: u128,
    ) -> (r: Publication)
        requires
            old(self).wf(),
        ensures
            final(self).wf(),
            final(self).rules() == old(self).rules(),
            (final(self)@, r.reply@) == old(self)@.in_batch(
                exchange@,
                routing_key@,
                (BatchItem { message: message.deep_view(), fault: storage_fault(saved), now }),
            ),
            r.notices.deep_view() == (if old(self)@.publish_fault(
                exchange@,
                routing_key@,
                message.message_id@,
                storage_fault(saved),
            ) is Some {
                Seq::empty()
            } else {
                old(self)@.state.notices(old(self)@.state.targets(exchange@, routing_key@))
            }),
    {
        let id = message.message_id.clone();
        match self.publish_to_state(exchange, routing_key, message, saved, now) {
            Ok(notices) => Publication { reply: prefixed("ACK ", id.as_str()), notices },
            Err(e) => {
                let mut reply = wrapped("Error: ", e.as_str(), " for message ");
                reply.append(id.as_str());
                let none: Vec<(String, Vec<u64>)> = Vec::new();
                assert(none.deep_view() =~= Seq::<(Seq<char>, Seq<u64>)>::empty());
                Publication { reply, notices: none }
            },
        }
    }

    /// Notes that a message was handed to its receiver, and tells whether that
    /// was its first delivery.
    pub fn delivered(&mut self, message_id: &str, now: u128) -> (r: bool)
        requires
            old(self).wf(),
        ensures
            final(self).wf(),
            final(self).rules() == old(self).rules(),
            r == (old(self)@.state.message_status.contains_key(message_id@)
                && old(self)@.state.message_status[message_id@].delivered_time is None),
            final(self)@ == (if r {
                old(self)@.handed_over(message_id@, now)
            } else {
                old(self)@
            }),
    {
        let first: bool = self.state.mark_delivered(message_id, now);
        if first {
            bump(&mut self.metrics.messages_delivered);
        }
        first
    }
}

/// The lines of a batch's answer.
pub open spec fn lines_of(answers: Seq<Seq<char>>) -> Seq<char>
    decreases answers.len(),
{
    if answers.len() == 0 {
        Seq::empty()
    } else if answers.len() == 1 {
        answers[0]
    } else {
        lines_of(answers.drop_last()) + "\n"@ + answers.last()
    }
}

/// The answer to a batch: one line for each message.
pub fn batch_reply(answers: &Vec<String>) -> (r: String)
    ensures
        r@ == lines_of(answers.deep_view()) + "\n"@,
        answers@.len() > 0 ==> r@ == answers.deep_view().map_values(
            |a: Seq<char>| a + seq!['\n'],
        ).flatten(),
{
    let ghost all = answers.deep_view();
    let mut out = String::new();
    let mut i: usize = 0;
    assert(all.take(0) =~= Seq::<Seq<char>>::empty());
    while i < answers.len()
        invariant
            i <= answers@.len(),
            all == answers.deep_view(),
            out@ == lines_of(all.take(i as int)),
        decreases answers@.len() - i,
    {
        let ghost before = out@;
        if i > 0 {
            out.append("\n");
        }
        out.append(answers[i].as_str());
        proof {
            let now = all.take(i + 1);
            assert(now.drop_last() =~= all.take(i as int));
            assert(now.last() == answers@[i as int]@);
            if i == 0 {
                assert(before =~= Seq::<char>::empty());
                assert(out@ =~= now[0]);
            }
        }
        i = i + 1;
    }
    assert(all.take(all.len() as int) =~= all);
    out.append("\n");
    proof {
        if all.len() > 0 {
            law_batch_reply_ends_every_answer(all);
        }
    }
    out
}

/// The answer to a message that is not the JSON it should be.
pub fn invalid_message_reply(error: &str) -> (r: String)
    ensures
        r@ == "Invalid message format: "@ + error@ + "\n"@,
{
    wrapped("Invalid message format: ", error, "\n")
}

/// The answer to a batch that is not the JSON it should be.
pub fn invalid_batch_reply(error: &str) -> (r: String)
    ensures
        r@ == "Invalid batch format: "@ + error@ + "\n"@,
{
    wrapped("Invalid batch format: ", error, "\n")
}

/// The answer to a request for a resend, once the sender was looked up.
pub open spec fn resend_answer(
    client_id: Seq<char>,
    found: Result<Option<String>, StorageError>,
) -> Seq<char> {
    match found {
        Err(_) => "Error retrieving message metadata\n"@,
        Ok(None) => "Message ID not found\n"@,
        Ok(Some(sender)) => if sender@ == client_id {
            "Resend requested\n"@
        } else {
            "Unauthorized resend request\n"@
        },
    }
}

/// The answer to a request for a resend, once the sender was looked up.
pub fn resend_reply(client_id: &str, found: &Result<Option<String>, StorageError>) -> (r:
    &'static str)
    ensures
        r@ == resend_answer(client_id@, *found),
{
    match found {
        Err(_) => "Error retrieving message metadata\n",
        Ok(None) => "Message ID not found\n",
        Ok(Some(sender)) => {
            if same(sender.as_str(), client_id) {
                "Resend requested\n"
            } else {
                "Unauthorized resend request\n"
            }
        },
    }
}

/// The answer to the registration of a public key.
pub open spec fn save_key_answer(saved: Result<(), StorageError>) -> Seq<char> {
    match saved {
        Ok(_) => "Public key registered\n"@,
        Err(e) => "Error: "@ + ("Failed to save public key: "@ + e@.message()) + "\n"@,
    }
}

/// The answer to the registration of a public key.
pub fn save_key_reply(saved: &Result<(), StorageError>) -> (r: String)
    ensures
        r@ == save_key_answer(*saved),
        saved is Ok ==> r@ == "Public key registered\n"@,
        saved matches Err(e) ==> r@ == "Error: "@ + ("Failed to save public key: "@ + e@.message())
            + "\n"@,
{
    match saved {
        Ok(_) => "Public key registered\n".to_owned(),
        Err(e) => wrapped("Error: ", e.save_key_text().as_str(), "\n"),
    }
}

/// The answer to a request for a public key.
pub open spec fn get_key_answer(found: Result<Option<String>, StorageError>) -> Seq<char> {
    match found {
        Ok(Some(key)) => "Public key: "@ + key@ + "\n"@,
        Ok(None) => "Public key not found\n"@,
        Err(e) => "Error: "@ + ("Failed to get public key: "@ + e@.message()) + "\n"@,
    }
}

/// The answer to a request for a public key.
pub fn get_key_reply(found: &Result<Option<String>, StorageError>) -> (r: String)
    ensures
        r@ == get_key_answer(*found),
        found matches Ok(Some(key)) ==> r@ == "Public key: "@ + key@ + "\n"@,
        found matches Ok(None) ==> r@ == "Public key not found\n"@,
        found matches Err(e) ==> r@ == "Error: "@ + ("Failed to get public key: "@ + e@.message())
            + "\n"@,
{
    match found {
        Ok(Some(key)) => wrapped("Public key: ", key.as_str(), "\n"),
        Ok(None) => "Public key not found\n".to_owned(),
        Err(e) => wrapped("Error: ", e.get_key_text().as_str(), "\n"),
    }
}

/// The line that brings a message to its receiver.
pub open spec fn delivery_text(message_id: Seq<char>, json: Seq<char>) -> Seq<char> {
    "Message: "@ + message_id + " "@ + json + "\n"@
}

/// The line that brings a message to its receiver.
pub fn delivery_line(message_id: &str, json: &str) -> (r: String)
    ensures
        r@ == delivery_text(message_id@, json@),
{
    let mut out = wrapped("Message: ", message_id, " ");
    out.append(json);
    out.append("\n");
    out
}

/// How writing a message to a client went.
#[derive(Clone, Copy, Debug, PartialEq, Eq, Structural)]
pub enum WriteOutcome {
    Flushed,
    FlushFailed,
    WriteFailed,
}

/// What to do after a message was written to a client, or was not.
#[derive(Clone, Copy, Debug, PartialEq, Eq, Structural)]
pub enum DeliveryStep {
    /// Note the delivery.
    Delivered,
    /// Wait a little and write again.
    Retry,
    /// The client is gone.
    GiveUp,
}

/// How often a message is written to a client.
pub const MAX_RETRIES: usize = 3;

/// A message on its way to a client.
pub struct DeliveryAttempt {
    pub retries: usize,
}

impl DeliveryAttempt {
    /// Nothing was written yet.
    pub fn new() -> (r: Self)
        ensures
            r.retries == 0,
    {
        DeliveryAttempt { retries: 0 }
    }

    /// Decides what to do next. A message that could be written but not flushed
    /// counts as delivered after the last retry; one that could not be written
    /// means that the client is gone.
    pub fn after_write(&mut self, outcome: WriteOutcome) -> (r: DeliveryStep)
        requires
            old(self).retries < MAX_RETRIES,
        ensures
            r == DeliveryStep::Retry <==> outcome != WriteOutcome::Flushed && old(self).retries < 2,
            match outcome {
                WriteOutcome::Flushed => {
                    &&& r == DeliveryStep::Delivered
                    &&& final(self).retries == old(self).retries
                },
                WriteOutcome::FlushFailed => {
                    &&& final(self).retries == old(self).retries + 1
                    &&& r == (if final(self).retries < MAX_RETRIES {
                        DeliveryStep::Retry
                    } else {
                        DeliveryStep::Delivered
                    })
                },
                WriteOutcome::WriteFailed => {
                    &&& final(self).retries == old(self).retries + 1
                    &&& r == (if final(self).retries < MAX_RETRIES {
                        DeliveryStep::Retry
                    } else {
                        DeliveryStep::GiveUp
                    })
                },
            },
    {
        match outcome {
            WriteOutcome::Flushed => DeliveryStep::Delivered,
            WriteOutcome::FlushFailed => {
                self.retries = self.retries + 1;
                if self.retries < MAX_RETRIES {
                    DeliveryStep::Retry
                } else {
                    DeliveryStep::Delivered
                }
            },
            WriteOutcome::WriteFailed => {
                self.retries = self.retries + 1;
                if self.retries < MAX_RETRIES {
                    DeliveryStep::Retry
                } else {
                    DeliveryStep::GiveUp
                }
            },
        }
    }
}

/// When a client leaves, its connections are counted as if it had never come, and
/// so is the number of clients.
pub proof fn law_departure_undoes_admission(
    broker: BrokerModel,
    cn: Seq<char>,
    ip: Seq<char>,
    now: u128,
)
    requires
        crate::rate_limiter::within(broker.connections.by_ip, 0),
        crate::rate_limiter::within(broker.connections.by_cn, 0),
        crate::rate_limiter::count_of(broker.connections.by_ip, ip) < usize::MAX,
        crate::rate_limiter::count_of(broker.connections.by_cn, cn) < usize::MAX,
    ensures
        broker.joined(cn, ip, now).left(cn, ip).connections == broker.connections,
        broker.joined(cn, ip, now).left(cn, ip).state == broker.state,
{
    crate::rate_limiter::law_release_undoes_connection(broker.connections, cn, ip);
}

/// A receiver can declare only queues that begin with its name, and bind only
/// those, under routing keys that begin with its name.
pub proof fn law_receiver_changes_only_its_resources(
    broker: BrokerModel,
    caller: Caller,
    arguments: Seq<char>,
)
    requires
        caller.role == Role::Receiver,
    ensures
        broker.do_declare_queue(caller, arguments).0 != broker ==> crate::text::has_prefix(
            arguments,
            caller.cn + "_"@,
        ),
        broker.do_bind(caller, arguments).0 != broker ==> crate::text::has_prefix(
            pieces(arguments, 3)[0],
            caller.cn + "_"@,
        ) && crate::text::has_prefix(pieces(arguments, 3)[2], caller.cn),
{
    crate::acl::law_receiver_is_confined_to_its_queues(caller.cn, arguments);
    crate::acl::law_receiver_is_confined_to_its_queues(caller.cn, pieces(arguments, 3)[0]);
    reveal_strlit("queue");
    reveal_strlit("exchange");
    reveal_strlit("routing_key");
    assert("routing_key"@.len() != "queue"@.len());
    assert("routing_key"@.len() != "exchange"@.len());
}

/// Whether every counter that was below its largest value stayed or went up by
/// one.
pub open spec fn counted_on(before: Metrics, after: Metrics) -> bool {
    &&& counted(before.messages_published, after.messages_published)
    &&& counted(before.messages_acked, after.messages_acked)
    &&& counted(before.messages_delivered, after.messages_delivered)
    &&& counted(before.errors_total, after.errors_total)
    &&& counted(before.connections_total, after.connections_total)
    &&& counted(before.connections_rejected_rate_limit, after.connections_rejected_rate_limit)
    &&& counted(before.connections_rejected_conn_limit, after.connections_rejected_conn_limit)
    &&& counted(before.requests_rate_limited, after.requests_rate_limited)
}

/// Whether a counter stayed or went up by one, if it was below its largest value.
pub open spec fn counted(before: u64, after: u64) -> bool {
    before == u64::MAX || before <= after <= before + 1
}

/// No counter below its largest value ever goes down: not when a client is
/// admitted, turned away or let go, nor by a request, a publication or a
/// delivery.
pub proof fn law_counters_only_go_up(
    broker: BrokerModel,
    caller: Caller,
    ip: Seq<char>,
    command: Seq<char>,
    arguments: Seq<char>,
    exchange: Seq<char>,
    key: Seq<char>,
    message: MessageModel,
    now: u128,
)
    ensures
        counted_on(broker.metrics, broker.joined(caller.cn, ip, now).metrics),
        counted_on(broker.metrics, broker.turned_away().metrics),
        counted_on(broker.metrics, broker.left(caller.cn, ip).metrics),
        counted_on(broker.metrics, broker.heard(caller.cn, now).metrics),
        counted_on(broker.metrics, broker.executed(caller, command, arguments, now).0.metrics),
        counted_on(broker.metrics, broker.held_back().metrics),
        counted_on(broker.metrics, broker.with_message(exchange, key, message, now).metrics),
        counted_on(broker.metrics, broker.handed_over(message.message_id, now).metrics),
{
}

/// The messages of a batch are published one after the other, also after one that
/// was refused. Each is answered by one line, in their order, and the counter of
/// published messages grows by the number of acknowledgements among them, from
/// zero again after its largest value.
#[verifier::spinoff_prover]
pub proof fn law_batch_is_answered_in_order(
    broker: BrokerModel,
    exchange: Seq<char>,
    key: Seq<char>,
    items: Seq<BatchItem>,
)
    ensures
        ({
            let (after, answers) = broker.batch(exchange, key, items);
            &&& answers.len() == items.len()
            &&& after.metrics.messages_published == (broker.metrics.messages_published
                + acknowledgements(answers)) % 0x1_0000_0000_0000_0000
            &&& forall|i: int|
                #![trigger items[i]]
                0 <= i < items.len() ==> {
                    let before = broker.batch(exchange, key, items.take(i)).0;
                    let step = before.in_batch(exchange, key, items[i]);
                    &&& broker.batch(exchange, key, items.take(i + 1)).0 == step.0
                    &&& answers[i] == step.1
                }
        }),
    decreases items.len(),
{
    if items.len() > 0 {
        let rest = items.drop_last();
        let last = items.last();
        law_batch_is_answered_in_order(broker, exchange, key, rest);
        let (before, earlier) = broker.batch(exchange, key, rest);
        let (after, answers) = broker.batch(exchange, key, items);
        assert(answers.drop_last() =~= earlier);
        let id = last.message.message_id;
        reveal_strlit("ACK ");
        reveal_strlit("Error: ");
        match before.publish_fault(exchange, key, id, last.fault) {
            Some(fault) => {
                let line = "Error: "@ + fault + " for message "@ + id;
                assert(line[0] == 'E');
                assert(!crate::text::has_prefix(line, "ACK "@)) by {
                    if crate::text::has_prefix(line, "ACK "@) {
                        assert(line.take("ACK "@.len() as int)[0] == 'A');
                    }
                }
            },
            None => {
                assert(("ACK "@ + id).take("ACK "@.len() as int) =~= "ACK "@);
            },
        }
        assert forall|i: int|
            #![trigger items[i]]
            0 <= i < items.len() implies {
            let before = broker.batch(exchange, key, items.take(i)).0;
            let step = before.in_batch(exchange, key, items[i]);
            &&& broker.batch(exchange, key, items.take(i + 1)).0 == step.0
            &&& answers[i] == step.1
        } by {
            assert(items.take(i + 1).drop_last() =~= items.take(i));
            if i < rest.len() {
                assert(rest[i] == items[i]);
                assert(rest.take(i) =~= items.take(i));
                assert(rest.take(i + 1) =~= items.take(i + 1));
            } else {
                assert(items.take(i) =~= rest);
                assert(items.take(i + 1) =~= items);
            }
        }
    }
}

} // verus!
