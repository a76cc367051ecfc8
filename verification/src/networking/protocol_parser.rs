//! Requests of the plain-text protocol.

use crate::broker::message::EncryptedInputData;
use crate::text::{lemma_pieces_len, pieces, same, split_pieces, trim, trimmed, views};
use vstd::prelude::*;
use vstd::string::*;

verus! {

/// A request that was understood, or was not.
#[derive(Debug)]
pub enum Command {
    DeclareQueue(String),
    DeclareExchange(String),
    Bind { exchange_name: String, queue_name: String, routing_key: String },
    Publish { exchange_name: String, routing_key: String, message: EncryptedInputData },
    Consume(String),
    Fetch(String),
    Ack(String),
    Unknown,
    Invalid,
}

/// A request whose message, if it has one, is still JSON text.
pub enum Parsed {
    /// A request that is complete.
    Done(Command),
    /// A request to publish the message in this JSON text.
    PublishJson { exchange_name: String, routing_key: String, json: String },
}

/// A request as mathematical values.
pub enum RequestModel {
    DeclareQueue(Seq<char>),
    DeclareExchange(Seq<char>),
    Bind { exchange_name: Seq<char>, queue_name: Seq<char>, routing_key: Seq<char> },
    Publish { exchange_name: Seq<char>, routing_key: Seq<char>, data: Seq<char> },
    PublishJson { exchange_name: Seq<char>, routing_key: Seq<char>, json: Seq<char> },
    Consume(Seq<char>),
    Fetch(Seq<char>),
    Ack(Seq<char>),
    Unknown,
    Invalid,
}

impl View for Command {
    type V = RequestModel;

    open spec fn view(&self) -> RequestModel {
        match self {
            Command::DeclareQueue(n) => RequestModel::DeclareQueue(n@),
            Command::DeclareExchange(n) => RequestModel::DeclareExchange(n@),
            Command::Bind { exchange_name, queue_name, routing_key } => RequestModel::Bind {
                exchange_name: exchange_name@,
                queue_name: queue_name@,
                routing_key: routing_key@,
            },
            Command::Publish { exchange_name, routing_key, message } => RequestModel::Publish {
                exchange_name: exchange_name@,
                routing_key: routing_key@,
                data: message.data@,
            },
            Command::Consume(n) => RequestModel::Consume(n@),
            Command::Fetch(n) => RequestModel::Fetch(n@),
            Command::Ack(n) => RequestModel::Ack(n@),
            Command::Unknown => RequestModel::Unknown,
            Command::Invalid => RequestModel::Invalid,
        }
    }
}

impl View for Parsed {
    type V = RequestModel;

    open spec fn view(&self) -> RequestModel {
        match self {
            Parsed::Done(c) => c@,
            Parsed::PublishJson { exchange_name, routing_key, json } => RequestModel::PublishJson {
                exchange_name: exchange_name@,
                routing_key: routing_key@,
                json: json@,
            },
        }
    }
}

/// What the pieces of a request mean.
pub open spec fn meaning(p: Seq<Seq<char>>) -> RequestModel {
    if p[0] == "DECLARE"@ {
        if p.len() >= 3 && p[1] == "QUEUE"@ {
            RequestModel::DeclareQueue(p[2])
        } else if p.len() >= 3 && p[1] == "EXCHANGE"@ {
            RequestModel::DeclareExchange(p[2])
        } else {
            RequestModel::Invalid
        }
    } else if p[0] == "BIND"@ {
        if p.len() == 4 && p[1].len() > 0 && p[2].len() > 0 && p[3].len() > 0 {
            RequestModel::Bind { exchange_name: p[1], queue_name: p[2], routing_key: p[3] }
        } else {
            RequestModel::Invalid
        }
    } else if p[0] == "PUBLISH"@ {
        if p.len() >= 4 && p[1].len() > 0 && p[2].len() > 0 && p[3].len() > 0 {
            RequestModel::PublishJson { exchange_name: p[1], routing_key: p[2], json: p[3] }
        } else {
            RequestModel::Invalid
        }
    } else if p[0] == "CONSUME"@ {
        if p.len() >= 2 {
            RequestModel::Consume(p[1])
        } else {
            RequestModel::Invalid
        }
    } else if p[0] == "FETCH"@ {
        if p.len() >= 2 {
            RequestModel::Fetch(p[1])
        } else {
            RequestModel::Invalid
        }
    } else if p[0] == "ACK"@ {
        if p.len() >= 2 {
            RequestModel::Ack(p[1])
        } else {
            RequestModel::Invalid
        }
    } else {
        RequestModel::Unknown
    }
}

/// Reads a request.
pub fn parse_request(request: &str) -> (r: Parsed)
    ensures
        r@ == meaning(pieces(trimmed(request@), 4)),
{
    let trimmed_request = trim(request);
    let parts = split_pieces(trimmed_request, 4);
    let n: usize = parts.len();
    let ghost p = pieces(trimmed_request@, 4);
    proof {
        lemma_pieces_len(trimmed_request@, 4);
        assert(p == views(parts@));
        assert(p.len() == n);
        assert forall|i: int| 0 <= i < n implies p[i] == #[trigger] parts@[i]@ by {}
    }
    let command = parts[0];
    if same(command, "DECLARE") {
        if n >= 3 && same(parts[1], "QUEUE") {
            Parsed::Done(Command::DeclareQueue(parts[2].to_owned()))
        } else if n >= 3 && same(parts[1], "EXCHANGE") {
            Parsed::Done(Command::DeclareExchange(parts[2].to_owned()))
        } else {
            Parsed::Done(Command::Invalid)
        }
    } else if same(command, "BIND") {
        if n == 4 && !parts[1].is_empty() && !parts[2].is_empty() && !parts[3].is_empty() {
            Parsed::Done(
                Command::Bind {
                    exchange_name: parts[1].to_owned(),
                    queue_name: parts[2].to_owned(),
                    routing_key: parts[3].to_owned(),
                },
            )
        } else {
            Parsed::Done(Command::Invalid)
        }
    } else if same(command, "PUBLISH") {
        if n >= 4 && !parts[1].is_empty() && !parts[2].is_empty() && !parts[3].is_empty() {
            Parsed::PublishJson {
                exchange_name: parts[1].to_owned(),
                routing_key: parts[2].to_owned(),
                json: parts[3].to_owned(),
            }
        } else {
            Parsed::Done(Command::Invalid)
        }
    } else if same(command, "CONSUME") {
        if n >= 2 {
            Parsed::Done(Command::Consume(parts[1].to_owned()))
        } else {
            Parsed::Done(Command::Invalid)
        }
    } else if same(command, "FETCH") {
        if n >= 2 {
            Parsed::Done(Command::Fetch(parts[1].to_owned()))
        } else {
            Parsed::Done(Command::Invalid)
        }
    } else if same(command, "ACK") {
        if n >= 2 {
            Parsed::Done(Command::Ack(parts[1].to_owned()))
        } else {
            Parsed::Done(Command::Invalid)
        }
    } else {
        Parsed::Done(Command::Unknown)
    }
}

/// Completes a request to publish once its JSON text was read; one that holds no
/// message makes the request invalid.
pub fn complete_publish(
    exchange_name: String,
    routing_key: String,
    message: Option<EncryptedInputData>,
) -> (r: Command)
    ensures
        match message {
            Some(m) => r@ == (RequestModel::Publish {
                exchange_name: exchange_name@,
                routing_key: routing_key@,
                data: m.data@,
            }),
            None => r@ == RequestModel::Invalid,
        },
{
    match message {
        Some(message) => Command::Publish { exchange_name, routing_key, message },
        None => Command::Invalid,
    }
}

} // verus!
