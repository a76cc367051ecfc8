//! Answers to the requests of the plain-text protocol.

use crate::broker::engine::{BrokerEngine, Publication, Registration};
use crate::broker::message::MessageStatus;
use crate::broker::state::EngineModel;
use crate::ids::{uuid_chars, uuid_in, uuid_text};
use crate::networking::protocol_parser::{Command, RequestModel};
use crate::text::wrapped;
use vstd::prelude::*;
use vstd::string::*;

verus! {

/// What is to be done for a request.
pub enum Reaction {
    /// Answer with this text.
    Reply(String),
    /// Hand the message to its queues, and answer with `published_reply`.
    Publish(Publication),
    /// Offer the message to the client as a new consumer of this queue, and
    /// answer with `subscribed_reply`.
    Offer { queue_name: String, message: MessageStatus },
    /// Answer with this message as JSON and an end of line.
    Send(MessageStatus),
}

/// The answer to a published message.
pub fn published_reply(message_id: u128) -> (r: String)
    ensures
        r@ == "ACK "@ + uuid_chars(message_id) + "\n"@,
{
    wrapped("ACK ", uuid_text(message_id).as_str(), "\n")
}

/// The answer to a client that wants to consume a queue.
pub fn subscribed_reply(registered: &Result<(), String>) -> (r: String)
    ensures
        r@ == (match registered {
            Ok(_) => "Subscribed to queue\n"@,
            Err(e) => "Error registering consumer: "@ + e@ + "\n"@,
        }),
{
    match registered {
        Ok(_) => "Subscribed to queue\n".to_owned(),
        Err(e) => wrapped("Error registering consumer: ", e.as_str(), "\n"),
    }
}

/// Whether an answer is a text.
pub open spec fn says(r: Reaction, text: Seq<char>) -> bool {
    r matches Reaction::Reply(t) && t@ == text
}

/// What a request does to the state, and what it is answered.
pub open spec fn handled(
    before: EngineModel,
    after: EngineModel,
    r: Reaction,
    request: RequestModel,
    consumer: u64,
    timestamp: i64,
) -> bool {
    match request {
        RequestModel::DeclareQueue(name) => says(r, "Queue declared\n"@) && after
            == before.with_queue(name),
        RequestModel::DeclareExchange(name) => says(r, "Exchange declared\n"@) && after
            == before.with_exchange(name),
        RequestModel::Bind { exchange_name, queue_name, routing_key } => {
            &&& says(
                r,
                "Queue "@ + queue_name + " bound to exchange "@ + exchange_name + " with key "@
                    + routing_key + "\n"@,
            )
            &&& after == before.with_binding(exchange_name, queue_name, routing_key)
        },
        RequestModel::Publish { exchange_name, routing_key, data } => {
            &&& after == before
            &&& match before.routed(exchange_name, routing_key) {
                Err(e) => says(r, "Error: "@ + e + "\n"@),
                Ok(targets) => r matches Reaction::Publish(p) && p.next == 0
                    && p.targets.deep_view() == targets && p.message.data.data@ == data
                    && p.message.timestamp == timestamp && p.message.attempts == 0,
            }
        },
        RequestModel::PublishJson { exchange_name, routing_key, json } => true,
        RequestModel::Consume(name) => {
            if !before.queues.contains_key(name) {
                &&& after == before
                &&& says(
                    r,
                    "Error registering consumer: "@ + ("BrokerEngine: Queue "@ + name
                        + " not found"@) + "\n"@,
                )
            } else if before.queues[name].messages.len() > 0 {
                &&& r matches Reaction::Offer { queue_name, message } && queue_name@ == name
                    && message.deep_view() == before.queues[name].messages[0]
                &&& after == before.without_oldest(name)
            } else {
                &&& says(r, "Subscribed to queue\n"@)
                &&& after == before.with_consumer(name, consumer)
            }
        },
        RequestModel::Fetch(name) => {
            if before.queues.contains_key(name) && before.queues[name].messages.len() > 0 {
                let first = before.queues[name].messages[0];
                &&& r matches Reaction::Send(m) && m.deep_view() == first
                &&& after == before.without_oldest(name).tracking(name, first)
            } else {
                says(r, "No messages\n"@) && after == before
            }
        },
        RequestModel::Ack(id) => {
            &&& says(r, "ACK_CONFIRMED "@ + id + "\n"@)
            &&& after == (match uuid_in(id) {
                Some(n) => before.acknowledged(n),
                None => before,
            })
        },
        RequestModel::Unknown => says(r, "Unknown command\n"@) && after == before,
        RequestModel::Invalid => says(r, "Invalid command format\n"@) && after == before,
    }
}

/// Does what a request asks for. `consumer` is the client's channel.
pub fn handle_command(
    engine: &mut BrokerEngine,
    command: Command,
    consumer: u64,
    timestamp: i64,
) -> (r: Reaction)
    requires
        old(engine).state.wf(),
    ensures
        final(engine).state.wf(),
        handled(old(engine).state@, final(engine).state@, r, command@, consumer, timestamp),
{
    match command {
        Command::DeclareQueue(name) => {
            engine.declare_queue(name);
            Reaction::Reply("Queue declared\n".to_owned())
        },
        Command::DeclareExchange(name) => {
            engine.declare_exchange(name);
            Reaction::Reply("Exchange declared\n".to_owned())
        },
        Command::Bind { exchange_name, queue_name, routing_key } => {
            let mut reply = wrapped("Queue ", queue_name.as_str(), " bound to exchange ");
            reply.append(exchange_name.as_str());
            reply.append(" with key ");
            reply.append(routing_key.as_str());
            reply.append("\n");
            engine.bind_queue(exchange_name, queue_name, routing_key);
            Reaction::Reply(reply)
        },
        Command::Publish { exchange_name, routing_key, message } => {
            match engine.publish(exchange_name.as_str(), routing_key.as_str(), message, timestamp) {
                Ok(publication) => Reaction::Publish(publication),
                Err(e) => Reaction::Reply(wrapped("Error: ", e.as_str(), "\n")),
            }
        },
        Command::Consume(name) => {
            match engine.register_consumer(name.as_str(), consumer) {
                Ok(Registration::Waiting) => Reaction::Reply(subscribed_reply(&Ok(()))),
                Ok(Registration::Offer(message)) => {
                    Reaction::Offer { queue_name: name, message }
                },
                Err(e) => Reaction::Reply(subscribed_reply(&Err(e))),
            }
        },
        Command::Fetch(name) => {
            match engine.fetch_one_message(name.as_str()) {
                Some(message) => {
                    Reaction::Send(message)
                },
                None => Reaction::Reply("No messages\n".to_owned()),
            }
        },
        Command::Ack(id) => {
            engine.acknowledge(id.as_str());
            Reaction::Reply(wrapped("ACK_CONFIRMED ", id.as_str(), "\n"))
        },
        Command::Unknown => Reaction::Reply("Unknown command\n".to_owned()),
        Command::Invalid => Reaction::Reply("Invalid command format\n".to_owned()),
    }
}

} // verus!
