//! Requests to the broker without roles.

use crate::basic::state::{EncryptedInputData, QueuedModel, ServerState, StateModel};
use crate::server::{arguments_of, command_of};
use crate::text::{
    lemma_pieces_len, lossy_text, pieces, prefixed, same, split_pieces, text_from_lossy, trim,
    trimmed, views, wrapped,
};
use vstd::prelude::*;
use vstd::string::*;

verus! {

/// What is to be done for a request.
pub enum Step {
    /// Answer with this text.
    Reply(String),
    /// Answer with this message; its delivery is to be stored if it is known.
    Send { message_id: String, message: EncryptedInputData, known: bool },
    /// Read one message from JSON and publish it.
    Publish { exchange: String, routing_key: String, json: String },
    /// Read a list of messages from JSON and publish each.
    PublishBatch { exchange: String, routing_key: String, json: String },
    /// Store the time of an acknowledgement, if the message was known, and
    /// confirm it.
    Acknowledged { message_id: String, known: bool, reply: String },
    /// Look up who sent a message.
    FindSender(String),
    /// Store the client's public key.
    SaveKey(String),
    /// Look up a client's public key.
    FindKey(String),
}

/// A step as mathematical values.
pub enum StepModel {
    Reply(Seq<char>),
    Send { entry: QueuedModel, known: bool },
    Publish { exchange: Seq<char>, routing_key: Seq<char>, json: Seq<char> },
    PublishBatch { exchange: Seq<char>, routing_key: Seq<char>, json: Seq<char> },
    Acknowledged { message_id: Seq<char>, known: bool, reply: Seq<char> },
    FindSender(Seq<char>),
    SaveKey(Seq<char>),
    FindKey(Seq<char>),
}

impl View for Step {
    type V = StepModel;

    open spec fn view(&self) -> StepModel {
        match self {
            Step::Reply(t) => StepModel::Reply(t@),
            Step::Send { message_id, message, known } => StepModel::Send {
                entry: (message_id@, message.deep_view()),
                known: *known,
            },
            Step::Publish { exchange, routing_key, json } => StepModel::Publish {
                exchange: exchange@,
                routing_key: routing_key@,
                json: json@,
            },
            Step::PublishBatch { exchange, routing_key, json } => StepModel::PublishBatch {
                exchange: exchange@,
                routing_key: routing_key@,
                json: json@,
            },
            Step::Acknowledged { message_id, known, reply } => StepModel::Acknowledged {
                message_id: message_id@,
                known: *known,
                reply: reply@,
            },
            Step::FindSender(t) => StepModel::FindSender(t@),
            Step::SaveKey(t) => StepModel::SaveKey(t@),
            Step::FindKey(t) => StepModel::FindKey(t@),
        }
    }
}

/// A state that did not change, and an answer.
pub open spec fn answer(state: StateModel, reply: Seq<char>) -> (StateModel, StepModel) {
    (state, StepModel::Reply(reply))
}

impl StateModel {
    /// `bind <queue> <exchange> <routing_key>`
    pub open spec fn do_bind(self, arguments: Seq<char>) -> (StateModel, StepModel) {
        let p = pieces(arguments, 3);
        if p.len() < 3 {
            answer(self, "Missing parameters\n"@)
        } else {
            answer(self.with_binding(p[0], p[1], p[2]), "Queue bound\n"@)
        }
    }

    /// `publish` and `publish_batch <exchange> <routing_key> <json>`
    pub open spec fn do_publish(self, arguments: Seq<char>, batch: bool) -> (
        StateModel,
        StepModel,
    ) {
        let p = pieces(arguments, 3);
        if p.len() < 3 {
            answer(self, "Missing parameters\n"@)
        } else if batch {
            (self, StepModel::PublishBatch { exchange: p[0], routing_key: p[1], json: p[2] })
        } else {
            (self, StepModel::Publish { exchange: p[0], routing_key: p[1], json: p[2] })
        }
    }

    /// `fetch <queue>`
    pub open spec fn do_fetch(self, arguments: Seq<char>, now: u128) -> (StateModel, StepModel) {
        if arguments.len() == 0 {
            answer(self, "Missing queue name\n"@)
        } else if self.queues.contains_key(arguments) && self.queues[arguments].len() > 0 {
            let first = self.queues[arguments][0];
            (
                self.consumed(arguments, now),
                StepModel::Send { entry: first, known: self.message_status.contains_key(first.0) },
            )
        } else {
            answer(self, "No messages\n"@)
        }
    }

    /// `ack <message_id>`
    pub open spec fn do_ack(self, arguments: Seq<char>) -> (StateModel, StepModel) {
        if arguments.len() == 0 {
            answer(self, "Missing message ID\n"@)
        } else {
            (
                self.acked(arguments),
                StepModel::Acknowledged {
                    message_id: arguments,
                    known: self.message_status.contains_key(arguments),
                    reply: "ACK_CONFIRMED "@ + arguments + "\n"@,
                },
            )
        }
    }

    /// What a command does.
    pub open spec fn executed(
        self,
        consumer: u64,
        command: Seq<char>,
        arguments: Seq<char>,
        now: u128,
    ) -> (StateModel, StepModel) {
        if command == "declare_queue"@ {
            if arguments.len() == 0 {
                answer(self, "Missing queue name\n"@)
            } else {
                answer(self.with_queue(arguments), "Queue declared\n"@)
            }
        } else if command == "declare_exchange"@ {
            if arguments.len() == 0 {
                answer(self, "Missing exchange name\n"@)
            } else {
                answer(self.with_exchange(arguments), "Exchange declared\n"@)
            }
        } else if command == "bind"@ {
            self.do_bind(arguments)
        } else if command == "publish"@ {
            self.do_publish(arguments, false)
        } else if command == "publish_batch"@ {
            self.do_publish(arguments, true)
        } else if command == "consume"@ {
            if arguments.len() == 0 {
                answer(self, "Missing queue name\n"@)
            } else {
                answer(self.with_consumer(arguments, consumer), "Subscribed to queue\n"@)
            }
        } else if command == "fetch"@ {
            self.do_fetch(arguments, now)
        } else if command == "ack"@ {
            self.do_ack(arguments)
        } else if command == "resend"@ {
            if arguments.len() == 0 {
                answer(self, "Missing message ID\n"@)
            } else {
                (self, StepModel::FindSender(arguments))
            }
        } else if command == "register_public_key"@ {
            if arguments.len() == 0 {
                answer(self, "Missing public key\n"@)
            } else {
                (self, StepModel::SaveKey(arguments))
            }
        } else if command == "get_public_key"@ {
            if arguments.len() == 0 {
                answer(self, "Missing client ID\n"@)
            } else {
                (self, StepModel::FindKey(arguments))
            }
        } else {
            answer(self, "Unknown command\n"@)
        }
    }

    /// What a request does.
    pub open spec fn requested(self, consumer: u64, request: Seq<char>, now: u128) -> (
        StateModel,
        StepModel,
    ) {
        self.executed(consumer, command_of(request), arguments_of(request), now)
    }
}

fn said(text: &str) -> (r: Step)
    ensures
        r@ == StepModel::Reply(text@),
{
    Step::Reply(text.to_owned())
}

fn publish_request(arguments: &str, batch: bool, Ghost(model): Ghost<StateModel>) -> (r: Step)
    ensures
        (model, r@) == model.do_publish(arguments@, batch),
{
    let parts = split_pieces(arguments, 3);
    assert(views(parts@).len() == parts@.len());
    if parts.len() < 3 {
        return said("Missing parameters\n");
    }
    proof {
        assert(views(parts@)[0] == parts@[0]@);
        assert(views(parts@)[1] == parts@[1]@);
        assert(views(parts@)[2] == parts@[2]@);
    }
    let exchange = parts[0].to_owned();
    let routing_key = parts[1].to_owned();
    let json = parts[2].to_owned();
    if batch {
        Step::PublishBatch { exchange, routing_key, json }
    } else {
        Step::Publish { exchange, routing_key, json }
    }
}

impl ServerState {
    /// Does what a request line asks for. `consumer` is the client's channel.
    pub fn handle_line(&mut self, consumer: u64, line: &[u8], now: u128) -> (r: Step)
        requires
            old(self).wf(),
        ensures
            final(self).wf(),
            (final(self)@, r@) == old(self)@.requested(
                consumer,
                trimmed(lossy_text(line@)),
                now,
            ),
            vstd::utf8::valid_utf8(line@) ==> (final(self)@, r@) == old(self)@.requested(
                consumer,
                trimmed(vstd::utf8::decode_utf8(line@)),
                now,
            ),
    {
        let text = text_from_lossy(line);
        self.handle_request(consumer, text.as_str(), now)
    }

    /// Does what a request asks for.
    pub fn handle_request(&mut self, consumer: u64, text: &str, now: u128) -> (r: Step)
        requires
            old(self).wf(),
        ensures
            final(self).wf(),
            (final(self)@, r@) == old(self)@.requested(consumer, trimmed(text@), now),
    {
        let request = trim(text);
        let parts = split_pieces(request, 2);
        proof {
            lemma_pieces_len(request@, 2);
            assert(views(parts@).len() == parts@.len());
            assert(views(parts@)[0] == parts@[0]@);
        }
        let command = parts[0];
        let rest = if parts.len() > 1 {
            assert(views(parts@)[1] == parts@[1]@);
            parts[1].to_owned()
        } else {
            String::new()
        };
        let arguments = rest.as_str();
        if same(command, "declare_queue") {
            if arguments.is_empty() {
                return said("Missing queue name\n");
            }
            self.declare_queue(arguments);
            said("Queue declared\n")
        } else if same(command, "declare_exchange") {
            if arguments.is_empty() {
                return said("Missing exchange name\n");
            }
            self.declare_exchange(arguments);
            said("Exchange declared\n")
        } else if same(command, "bind") {
            self.bind(arguments)
        } else if same(command, "publish") {
            publish_request(arguments, false, Ghost(self@))
        } else if same(command, "publish_batch") {
            publish_request(arguments, true, Ghost(self@))
        } else if same(command, "consume") {
            if arguments.is_empty() {
                return said("Missing queue name\n");
            }
            self.register_consumer(arguments, consumer);
            said("Subscribed to queue\n")
        } else if same(command, "fetch") {
            self.fetch(arguments, now)
        } else if same(command, "ack") {
            self.ack(arguments)
        } else if same(command, "resend") {
            if arguments.is_empty() {
                return said("Missing message ID\n");
            }
            Step::FindSender(arguments.to_owned())
        } else if same(command, "register_public_key") {
            if arguments.is_empty() {
                return said("Missing public key\n");
            }
            Step::SaveKey(arguments.to_owned())
        } else if same(command, "get_public_key") {
            if arguments.is_empty() {
                return said("Missing client ID\n");
            }
            Step::FindKey(arguments.to_owned())
        } else {
            said("Unknown command\n")
        }
    }

    fn bind(&mut self, arguments: &str) -> (r: Step)
        requires
            old(self).wf(),
        ensures
            final(self).wf(),
            (final(self)@, r@) == old(self)@.do_bind(arguments@),
    {
        let parts = split_pieces(arguments, 3);
        assert(views(parts@).len() == parts@.len());
        if parts.len() < 3 {
            return said("Missing parameters\n");
        }
        proof {
            assert(views(parts@)[0] == parts@[0]@);
            assert(views(parts@)[1] == parts@[1]@);
            assert(views(parts@)[2] == parts@[2]@);
        }
        self.bind_queue(parts[0], parts[1], parts[2]);
        said("Queue bound\n")
    }

    fn fetch(&mut self, arguments: &str, now: u128) -> (r: Step)
        requires
            old(self).wf(),
        ensures
            final(self).wf(),
            (final(self)@, r@) == old(self)@.do_fetch(arguments@, now),
    {
        if arguments.is_empty() {
            return said("Missing queue name\n");
        }
        match self.consume(arguments, now) {
            Some((message_id, message, known)) => Step::Send { message_id, message, known },
            None => said("No messages\n"),
        }
    }

    fn ack(&mut self, arguments: &str) -> (r: Step)
        requires
            old(self).wf(),
        ensures
            final(self).wf(),
            (final(self)@, r@) == old(self)@.do_ack(arguments@),
    {
        if arguments.is_empty() {
            return said("Missing message ID\n");
        }
        let known: bool = self.acknowledge(arguments);
        Step::Acknowledged {
            message_id: arguments.to_owned(),
            known,
            reply: wrapped("ACK_CONFIRMED ", arguments, "\n"),
        }
    }
}

/// The answer to a published message.
pub open spec fn publish_answer(
    message_id: Seq<char>,
    published: Result<Vec<(String, Vec<u64>)>, String>,
) -> Seq<char> {
    match published {
        Ok(_) => "ACK "@ + message_id + "\n"@,
        Err(e) => "Error: "@ + e@ + "\n"@,
    }
}

/// The answer to a published message.
pub fn publish_reply(
    message_id: &str,
    published: &Result<Vec<(String, Vec<u64>)>, String>,
) -> (r: String)
    ensures
        r@ == publish_answer(message_id@, *published),
        published is Ok ==> r@ == "ACK "@ + message_id@ + "\n"@,
        published matches Err(e) ==> r@ == "Error: "@ + e@ + "\n"@,
{
    match published {
        Ok(_) => wrapped("ACK ", message_id, "\n"),
        Err(e) => wrapped("Error: ", e.as_str(), "\n"),
    }
}

/// One line of the answer to a batch, without its end.
pub open spec fn batch_answer(
    message_id: Seq<char>,
    published: Result<Vec<(String, Vec<u64>)>, String>,
) -> Seq<char> {
    match published {
        Ok(_) => "ACK "@ + message_id,
        Err(e) => "Error: "@ + e@ + " for message "@ + message_id,
    }
}

/// One line of the answer to a batch, without its end.
pub fn batch_line(
    message_id: &str,
    published: &Result<Vec<(String, Vec<u64>)>, String>,
) -> (r: String)
    ensures
        r@ == batch_answer(message_id@, *published),
        published is Ok ==> r@ == "ACK "@ + message_id@,
        published matches Err(e) ==> r@ == "Error: "@ + e@ + " for message "@ + message_id@,
{
    match published {
        Ok(_) => prefixed("ACK ", message_id),
        Err(e) => {
            let mut out = wrapped("Error: ", e.as_str(), " for message ");
            out.append(message_id);
            out
        },
    }
}

} // verus!
