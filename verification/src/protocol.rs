//! The lines that clients send to the broker, and that the broker understands
//! them.

use crate::receiver::{confirmed, incoming_meaning, IncomingModel};
use crate::sender::{ack_meaning, AckModel};
use crate::server::{arguments_of, command_of, delivery_text, BrokerModel, Caller, StepModel};
use crate::text::{
    first_at, is_space, lemma_first_at_bounds, pieces, trimmed, trimmed_end, trimmed_start,
    wrapped,
};
use vstd::prelude::*;
use vstd::string::*;

verus! {

/// A request with one argument.
pub open spec fn request_line(command: Seq<char>, argument: Seq<char>) -> Seq<char> {
    command + " "@ + argument + "\n"@
}

/// A request with one argument.
pub fn request(command: &str, argument: &str) -> (r: String)
    ensures
        r@ == request_line(command@, argument@),
{
    let mut out = wrapped(command, " ", argument);
    out.append("\n");
    out
}

/// `bind <queue> <exchange> <routing_key>`
pub open spec fn bind_text(
    queue: Seq<char>,
    exchange: Seq<char>,
    routing_key: Seq<char>,
) -> Seq<char> {
    "bind "@ + queue + " "@ + exchange + " "@ + routing_key + "\n"@
}

/// `bind <queue> <exchange> <routing_key>`
pub fn bind_line(queue: &str, exchange: &str, routing_key: &str) -> (r: String)
    ensures
        r@ == bind_text(queue@, exchange@, routing_key@),
{
    let mut out = wrapped("bind ", queue, " ");
    out.append(exchange);
    out.append(" ");
    out.append(routing_key);
    out.append("\n");
    out
}

/// The requests that set up a queue: it and its exchange are declared, and it is
/// bound.
pub fn setup_lines(queue: &str, exchange: &str, routing_key: &str) -> (r: Vec<String>)
    ensures
        r.deep_view() == seq![
            request_line("declare_queue"@, queue@),
            request_line("declare_exchange"@, exchange@),
            bind_text(queue@, exchange@, routing_key@),
        ],
{
    let r = vec![
        request("declare_queue", queue),
        request("declare_exchange", exchange),
        bind_line(queue, exchange, routing_key),
    ];
    assert(r.deep_view() =~= seq![
        request_line("declare_queue"@, queue@),
        request_line("declare_exchange"@, exchange@),
        bind_text(queue@, exchange@, routing_key@),
    ]);
    r
}

/// `publish <exchange> <routing_key> <json>`
pub open spec fn publish_text(
    exchange: Seq<char>,
    routing_key: Seq<char>,
    json: Seq<char>,
) -> Seq<char> {
    "publish "@ + exchange + " "@ + routing_key + " "@ + json + "\n"@
}

/// `publish <exchange> <routing_key> <json>`
pub fn publish_line(exchange: &str, routing_key: &str, json: &str) -> (r: String)
    ensures
        r@ == publish_text(exchange@, routing_key@, json@),
{
    let mut out = wrapped("publish ", exchange, " ");
    out.append(routing_key);
    out.append(" ");
    out.append(json);
    out.append("\n");
    out
}

/// `heartbeat`
pub fn heartbeat_line() -> (r: &'static str)
    ensures
        r@ == "heartbeat\n"@,
{
    "heartbeat\n"
}

/// Whether a text is not empty and holds no white space.
pub open spec fn is_word(s: Seq<char>) -> bool {
    s.len() > 0 && forall|i: int| 0 <= i < s.len() ==> !is_space(#[trigger] s[i])
}

/// Whether a text neither begins nor ends with white space, and is not empty.
pub open spec fn is_tight(s: Seq<char>) -> bool {
    s.len() > 0 && !is_space(s[0]) && !is_space(s.last())
}

/// A text that is tight, with an end of line, is trimmed to itself.
pub proof fn lemma_trimmed_line(s: Seq<char>)
    requires
        is_tight(s),
    ensures
        trimmed(s + "\n"@) == s,
        trimmed(s) == s,
{
    reveal_strlit("\n");
    let line = s + "\n"@;
    assert(line[0] == s[0]);
    assert(trimmed_start(line) == line);
    assert(line.last() == '\n');
    assert(is_space('\n'));
    assert(line.drop_last() =~= s);
    assert(trimmed_end(line) == trimmed_end(s));
}

/// The first blank behind a word.
pub proof fn lemma_first_blank(word: Seq<char>, rest: Seq<char>)
    requires
        is_word(word),
    ensures
        first_at(word + " "@ + rest, ' ') == word.len(),
        (word + " "@ + rest).take(word.len() as int) == word,
        (word + " "@ + rest).skip(word.len() as int + 1) == rest,
{
    reveal_strlit(" ");
    let s = word + " "@ + rest;
    lemma_first_at_bounds(s, ' ');
    let at = first_at(s, ' ');
    assert(s[word.len() as int] == ' ');
    if at < word.len() {
        assert(s[at] == word[at]);
        assert(is_space(' '));
    }
    if at > word.len() {
        assert(s[word.len() as int] != ' ');
    }
    assert(s.take(word.len() as int) =~= word);
    assert(s.skip(word.len() as int + 1) =~= rest);
}

/// A word is cut off from what stands behind the first blank.
pub proof fn lemma_two_pieces(word: Seq<char>, rest: Seq<char>)
    requires
        is_word(word),
    ensures
        pieces(word + " "@ + rest, 2) == seq![word, rest],
{
    let s = word + " "@ + rest;
    reveal_strlit(" ");
    lemma_first_blank(word, rest);
    assert(pieces(rest, 1) =~= seq![rest]);
    assert(pieces(s, 2) =~= seq![word, rest]);
}

/// A request with one argument is read as its command and its argument.
pub proof fn law_request_round_trip(command: Seq<char>, argument: Seq<char>)
    requires
        is_word(command),
        is_tight(argument),
    ensures
        command_of(trimmed(request_line(command, argument))) == command,
        arguments_of(trimmed(request_line(command, argument))) == argument,
{
    let s = command + " "@ + argument;
    reveal_strlit(" ");
    assert(s[0] == command[0]);
    assert(s.last() == argument.last());
    lemma_trimmed_line(s);
    lemma_first_blank(command, argument);
    assert(pieces(argument, 1) =~= seq![argument]);
    assert(pieces(s, 2) =~= seq![command, argument]);
}

/// Three words, the last of which may hold blanks, are cut apart again.
pub proof fn lemma_three_pieces(a: Seq<char>, b: Seq<char>, c: Seq<char>)
    requires
        is_word(a),
        is_word(b),
    ensures
        pieces(a + " "@ + (b + " "@ + c), 3) == seq![a, b, c],
{
    reveal_strlit(" ");
    let rest = b + " "@ + c;
    let s = a + " "@ + rest;
    lemma_first_blank(a, rest);
    lemma_first_blank(b, c);
    assert(pieces(c, 1) =~= seq![c]);
    assert(pieces(rest, 2) =~= seq![b, c]);
    assert(pieces(s, 3) =~= seq![a] + pieces(rest, 2));
    assert(seq![a] + seq![b, c] =~= seq![a, b, c]);
}

/// A message that a sender publishes reaches the broker as it was sent: the same
/// exchange, routing key and JSON text.
pub proof fn law_publish_round_trip(
    exchange: Seq<char>,
    routing_key: Seq<char>,
    json: Seq<char>,
    broker: BrokerModel,
    caller: Caller,
    now: u128,
)
    requires
        is_word(exchange),
        is_word(routing_key),
        is_tight(json),
    ensures
        ({
            let request = trimmed(publish_text(exchange, routing_key, json));
            &&& command_of(request) == "publish"@
            &&& broker.executed(caller, command_of(request), arguments_of(request), now) == (
                broker,
                StepModel::Publish { exchange, routing_key, json },
            )
        }),
{
    reveal_strlit("publish ");
    reveal_strlit("publish");
    reveal_strlit(" ");
    let arguments = exchange + " "@ + (routing_key + " "@ + json);
    let line = publish_text(exchange, routing_key, json);
    assert("publish "@ =~= "publish"@ + " "@);
    assert(line =~= request_line("publish"@, arguments));
    assert(arguments[0] == exchange[0]);
    assert(arguments.last() == json.last());
    assert forall|i: int| 0 <= i < "publish"@.len() implies !is_space(#[trigger] "publish"@[i]) by {}
    law_request_round_trip("publish"@, arguments);
    lemma_three_pieces(exchange, routing_key, json);
    lemma_commands_differ();
}

/// A binding that a client asks for reaches the broker as it was sent.
pub proof fn law_bind_round_trip(queue: Seq<char>, exchange: Seq<char>, routing_key: Seq<char>)
    requires
        is_word(queue),
        is_word(exchange),
        is_tight(routing_key),
    ensures
        ({
            let request = trimmed(bind_text(queue, exchange, routing_key));
            &&& command_of(request) == "bind"@
            &&& pieces(arguments_of(request), 3) == seq![queue, exchange, routing_key]
        }),
{
    reveal_strlit("bind ");
    reveal_strlit("bind");
    reveal_strlit(" ");
    let arguments = queue + " "@ + (exchange + " "@ + routing_key);
    let line = bind_text(queue, exchange, routing_key);
    assert("bind "@ =~= "bind"@ + " "@);
    assert(line =~= request_line("bind"@, arguments));
    assert(arguments[0] == queue[0]);
    assert(arguments.last() == routing_key.last());
    assert forall|i: int| 0 <= i < "bind"@.len() implies !is_space(#[trigger] "bind"@[i]) by {}
    law_request_round_trip("bind"@, arguments);
    lemma_three_pieces(queue, exchange, routing_key);
}

proof fn lemma_commands_differ()
    ensures
        "publish"@ != "declare_queue"@,
        "publish"@ != "declare_exchange"@,
        "publish"@ != "bind"@,
{
    reveal_strlit("publish");
    reveal_strlit("declare_queue");
    reveal_strlit("declare_exchange");
    reveal_strlit("bind");
    assert("publish"@.len() != "declare_queue"@.len());
    assert("publish"@.len() != "declare_exchange"@.len());
    assert("publish"@.len() != "bind"@.len());
}

/// A delivery that the broker writes is read by the receiver as it was written,
/// unless the message was processed before.
pub proof fn law_delivery_round_trip(
    message_id: Seq<char>,
    json: Seq<char>,
    processed: Set<Seq<char>>,
)
    requires
        is_word(message_id),
        is_tight(json),
    ensures
        incoming_meaning(delivery_text(message_id, json), processed) == (
        if processed.contains(message_id) {
            IncomingModel::Duplicate(message_id)
        } else {
            IncomingModel::Message { message_id, json }
        }),
{
    reveal_strlit("Message: ");
    reveal_strlit("Message:");
    reveal_strlit(" ");
    let prefix = "Message:"@;
    let body = message_id + " "@ + json;
    let s = prefix + " "@ + body;
    assert(delivery_text(message_id, json) =~= s + "\n"@);
    assert(s[0] == 'M');
    assert(s.last() == json.last());
    lemma_trimmed_line(s);
    assert(s.take(prefix.len() as int) =~= prefix);
    let rest = s.skip(prefix.len() as int);
    assert(rest =~= " "@ + body);
    assert(rest[0] == ' ');
    assert(is_space(' '));
    assert(rest.skip(1) =~= body);
    assert(body[0] == message_id[0]);
    assert(body.last() == json.last());
    lemma_trimmed_line(body);
    assert(trimmed_start(body) == body);
    assert(trimmed_start(rest) == trimmed_start(rest.skip(1)));
    assert(trimmed(rest) == trimmed(body));
    lemma_first_blank(message_id, json);
    assert(pieces(json, 1) =~= seq![json]);
    assert(pieces(body, 2) =~= seq![message_id, json]);
}

/// The broker's answer to a published message is read by the sender as the
/// acknowledgement of that message.
pub proof fn law_acknowledgement_round_trip(message_id: Seq<char>)
    requires
        is_tight(message_id),
    ensures
        ack_meaning("ACK "@ + message_id + "\n"@) == AckModel::Acked(message_id),
{
    reveal_strlit("ACK ");
    let s = "ACK "@ + message_id;
    assert(s[0] == 'A');
    assert(s.last() == message_id.last());
    lemma_trimmed_line(s);
    assert(s.take("ACK "@.len() as int) =~= "ACK "@);
    assert(s.skip("ACK "@.len() as int) =~= message_id);
}

/// The broker's confirmation of an acknowledgement is read by the receiver as that
/// of the message.
pub proof fn law_confirmation_round_trip(message_id: Seq<char>)
    requires
        is_tight(message_id),
    ensures
        confirmed("ACK_CONFIRMED "@ + message_id + "\n"@) == Some(message_id),
{
    reveal_strlit("ACK_CONFIRMED ");
    let s = "ACK_CONFIRMED "@ + message_id;
    assert(s[0] == 'A');
    assert(s.last() == message_id.last());
    lemma_trimmed_line(s);
    assert(s.take("ACK_CONFIRMED "@.len() as int) =~= "ACK_CONFIRMED "@);
    assert(s.skip("ACK_CONFIRMED "@.len() as int) =~= message_id);
}

/// The broker's refusal of a published message is read by the sender as an error.
pub proof fn law_refusal_round_trip(fault: Seq<char>)
    requires
        is_tight(fault),
    ensures
        ack_meaning("Error: "@ + fault + "\n"@) == AckModel::ServerError("Error: "@ + fault),
{
    reveal_strlit("Error: ");
    reveal_strlit("Error:");
    reveal_strlit("ACK ");
    let s = "Error: "@ + fault;
    assert(s[0] == 'E');
    assert(s.last() == fault.last());
    lemma_trimmed_line(s);
    assert(s.take("ACK "@.len() as int)[0] == 'E' || s.len() < "ACK "@.len());
    assert(s.take("Error:"@.len() as int) =~= "Error:"@);
}

/// A line that is no delivery brings nothing; a delivery without an identifier, or with
/// an identifier alone, brings no message.
pub proof fn law_incomplete_deliveries_bring_nothing(
    line: Seq<char>,
    message_id: Seq<char>,
    processed: Set<Seq<char>>,
)
    requires
        is_word(message_id),
    ensures
        !crate::text::has_prefix(trimmed(line), "Message:"@) ==> incoming_meaning(line, processed)
            == IncomingModel::Other,
        incoming_meaning("Message:"@, processed) == IncomingModel::NoId,
        incoming_meaning("Message:"@ + message_id, processed) == IncomingModel::NoPayload,
{
    reveal_strlit("Message:");
    let prefix = "Message:"@;
    assert(prefix[0] == 'M');
    assert(prefix.last() == ':');
    assert(is_tight(prefix));
    lemma_trimmed_line(prefix);
    assert(prefix.take(prefix.len() as int) =~= prefix);
    assert(prefix.skip(prefix.len() as int) =~= Seq::<char>::empty());
    let none = Seq::<char>::empty();
    assert(trimmed(none) == none);
    assert(pieces(none, 2) =~= seq![none]);
    let s = prefix + message_id;
    assert(s[0] == 'M');
    assert(s.last() == message_id.last());
    assert(is_tight(s));
    lemma_trimmed_line(s);
    assert(s.take(prefix.len() as int) =~= prefix);
    assert(s.skip(prefix.len() as int) =~= message_id);
    assert(is_tight(message_id));
    lemma_trimmed_line(message_id);
    lemma_first_at_bounds(message_id, ' ');
    assert(first_at(message_id, ' ') == message_id.len()) by {
        let at = first_at(message_id, ' ');
        if at < message_id.len() {
            assert(message_id[at] == ' ');
            assert(is_space(' '));
        }
    }
    assert(pieces(message_id, 2) =~= seq![message_id]);
}

/// A line that neither acknowledges a message nor reports an error is not understood,
/// and is kept as it is; one that confirms nothing is no confirmation.
pub proof fn law_other_lines_are_not_understood(line: Seq<char>)
    ensures
        !crate::text::has_prefix(trimmed(line), "ACK "@) && !crate::text::has_prefix(
            trimmed(line),
            "Error:"@,
        ) ==> ack_meaning(line) == AckModel::Unknown(trimmed(line)),
        confirmed(line) is Some <==> crate::text::has_prefix(trimmed(line), "ACK_CONFIRMED "@),
        crate::sender::key_answer(line) is Some <==> crate::text::has_prefix(
            line,
            "Public key: "@,
        ),
{
}

} // verus!
