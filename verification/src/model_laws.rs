//! That the mathematical values of the library's types hold all that the types hold,
//! text by text.

use crate::acl::AuthResult;
use crate::basic::server::{Step as BasicStep, StepModel as BasicStepModel};
use crate::basic::state::EncryptedInputData as BasicInputData;
use crate::broker::message::MessageStatus as EngineStatus;
use crate::broker::queue::Queue;
use crate::hybrid::EncryptedEnvelope;
use crate::networking::protocol_parser::{Command, Parsed, RequestModel};
use crate::receiver::{Incoming, IncomingModel};
use crate::sender::{
    acknowledges, AckModel, AckResult, Binding, EncryptedMessage, RetryOutcome,
};
use crate::sender_run::{ActionModel, RunAction};
use crate::server::{Broker, Step, StepModel};
use crate::state::EncryptedInputData;
use crate::storage::{StorageError, StorageErrorModel};
use vstd::prelude::*;

verus! {

/// The messages of the brokers are seen with all their parts.
pub proof fn law_messages_are_seen_whole(
    a: EncryptedInputData,
    b: BasicInputData,
    c: EngineStatus,
    d: EncryptedMessage,
    e: EncryptedEnvelope,
    f: Binding,
    q: Queue,
)
    ensures
        a.deep_view().message_id == a.message_id@,
        a.deep_view().receiver_client_id == a.receiver_client_id@,
        a.deep_view().enc_session_key == a.enc_session_key@,
        a.deep_view().nonce == a.nonce@,
        a.deep_view().ciphertext == a.ciphertext@,
        b.deep_view().message_id == b.message_id@,
        b.deep_view().receiver_client_id == b.receiver_client_id@,
        b.deep_view().enc_session_key == b.enc_session_key@,
        b.deep_view().nonce == b.nonce@,
        b.deep_view().tag == b.tag@,
        b.deep_view().ciphertext == b.ciphertext@,
        c.deep_view().message_id == c.message_id,
        c.deep_view().data == c.data.data@,
        c.deep_view().timestamp == c.timestamp,
        c.deep_view().attempts == c.attempts,
        d.deep_view().message_id == d.message_id@,
        d.deep_view().receiver_client_id == d.receiver_client_id@,
        d.deep_view().envelope.enc_session_key == d.enc_session_key@,
        d.deep_view().envelope.nonce == d.nonce@,
        d.deep_view().envelope.ciphertext == d.ciphertext@,
        d.deep_view().sent_time == d.sent_time@,
        d.deep_view().routing_key == d.routing_key@,
        e@.enc_session_key == e.enc_session_key@,
        e@.nonce == e.nonce@,
        e@.ciphertext == e.ciphertext@,
        f.deep_view() == (f.queue_name@, f.exchange_name@, f.routing_key@),
        q.deep_view().name == q.name@,
        q.deep_view().messages == q.messages.deep_view(),
        q.deep_view().consumers == q.consumers@,
{
}

/// The steps of the broker are seen with all that they name.
pub proof fn law_steps_are_seen_whole(step: Step)
    ensures
        step matches Step::Reply(t) ==> step@ == StepModel::Reply(t@),
        step matches Step::Deliver(m) ==> step@ == StepModel::Deliver(m.deep_view()),
        step matches Step::Publish { exchange, routing_key, json } ==> step@ == (
        StepModel::Publish { exchange: exchange@, routing_key: routing_key@, json: json@ }),
        step matches Step::PublishBatch { exchange, routing_key, json } ==> step@ == (
        StepModel::PublishBatch { exchange: exchange@, routing_key: routing_key@, json: json@ }),
        step matches Step::Acknowledged { message_id, known, reply } ==> step@ == (
        StepModel::Acknowledged { message_id: message_id@, known, reply: reply@ }),
        step matches Step::FindSender(t) ==> step@ == StepModel::FindSender(t@),
        step matches Step::SaveKey(t) ==> step@ == StepModel::SaveKey(t@),
        step matches Step::FindKey(t) ==> step@ == StepModel::FindKey(t@),
{
}

/// The steps of the broker without roles are seen with all that they name.
pub proof fn law_basic_steps_are_seen_whole(step: BasicStep)
    ensures
        step matches BasicStep::Reply(t) ==> step@ == BasicStepModel::Reply(t@),
        step matches BasicStep::Send { message_id, message, known } ==> step@ == (
        BasicStepModel::Send { entry: (message_id@, message.deep_view()), known }),
        step matches BasicStep::Publish { exchange, routing_key, json } ==> step@ == (
        BasicStepModel::Publish { exchange: exchange@, routing_key: routing_key@, json: json@ }),
        step matches BasicStep::PublishBatch { exchange, routing_key, json } ==> step@ == (
        BasicStepModel::PublishBatch {
            exchange: exchange@,
            routing_key: routing_key@,
            json: json@,
        }),
        step matches BasicStep::Acknowledged { message_id, known, reply } ==> step@ == (
        BasicStepModel::Acknowledged { message_id: message_id@, known, reply: reply@ }),
        step matches BasicStep::FindSender(t) ==> step@ == BasicStepModel::FindSender(t@),
        step matches BasicStep::SaveKey(t) ==> step@ == BasicStepModel::SaveKey(t@),
        step matches BasicStep::FindKey(t) ==> step@ == BasicStepModel::FindKey(t@),
{
}

/// The broker is seen with its state, its counters, its connections and its clients.
pub proof fn law_broker_is_seen_whole(broker: Broker)
    ensures
        broker@.state == broker.state@,
        broker@.metrics == broker.metrics,
        broker@.connections == broker.limiter@,
        broker@.beats == broker.heartbeats@,
{
}

/// The requests of the plain-text protocol are seen with all that they name.
pub proof fn law_requests_are_seen_whole(command: Command, parsed: Parsed)
    ensures
        command matches Command::DeclareQueue(n) ==> command@ == RequestModel::DeclareQueue(n@),
        command matches Command::DeclareExchange(n) ==> command@ == RequestModel::DeclareExchange(
            n@,
        ),
        command matches Command::Bind { exchange_name, queue_name, routing_key } ==> command@ == (
        RequestModel::Bind {
            exchange_name: exchange_name@,
            queue_name: queue_name@,
            routing_key: routing_key@,
        }),
        command matches Command::Publish { exchange_name, routing_key, message } ==> command@ == (
        RequestModel::Publish {
            exchange_name: exchange_name@,
            routing_key: routing_key@,
            data: message.data@,
        }),
        command matches Command::Consume(n) ==> command@ == RequestModel::Consume(n@),
        command matches Command::Fetch(n) ==> command@ == RequestModel::Fetch(n@),
        command matches Command::Ack(n) ==> command@ == RequestModel::Ack(n@),
        command is Unknown ==> command@ == RequestModel::Unknown,
        command is Invalid ==> command@ == RequestModel::Invalid,
        parsed matches Parsed::Done(c) ==> parsed@ == c@,
        parsed matches Parsed::PublishJson { exchange_name, routing_key, json } ==> parsed@ == (
        RequestModel::PublishJson {
            exchange_name: exchange_name@,
            routing_key: routing_key@,
            json: json@,
        }),
{
}

/// What clients read, and what they are to do, is seen with all that it names.
pub proof fn law_lines_and_actions_are_seen_whole(
    incoming: Incoming,
    ack: AckResult,
    action: RunAction,
)
    ensures
        incoming is Other ==> incoming@ == IncomingModel::Other,
        incoming is NoId ==> incoming@ == IncomingModel::NoId,
        incoming is NoPayload ==> incoming@ == IncomingModel::NoPayload,
        incoming matches Incoming::Duplicate(id) ==> incoming@ == IncomingModel::Duplicate(id@),
        incoming matches Incoming::Message { message_id, json } ==> incoming@ == (
        IncomingModel::Message { message_id: message_id@, json: json@ }),
        ack matches AckResult::Acked(t) ==> ack@ == AckModel::Acked(t@),
        ack matches AckResult::ServerError(t) ==> ack@ == AckModel::ServerError(t@),
        ack matches AckResult::Unknown(t) ==> ack@ == AckModel::Unknown(t@),
        ack matches AckResult::IoError(t) ==> ack@ == AckModel::IoError(t@),
        action matches RunAction::Encrypt(n) ==> action@ == ActionModel::Encrypt(n),
        action is AwaitPermit ==> action@ == ActionModel::AwaitPermit,
        action matches RunAction::Write(m) ==> action@ == ActionModel::Write(m.deep_view()),
        action is PauseBatch ==> action@ == ActionModel::PauseBatch,
        action is Drain ==> action@ == ActionModel::Drain,
        action matches RunAction::Resend(m) ==> action@ == ActionModel::Resend(m.deep_view()),
        action matches RunAction::Finish { sent, failed } ==> action@ == (ActionModel::Finish {
            sent,
            failed,
        }),
{
}

/// Refusals and errors are seen with their reasons.
pub proof fn law_errors_are_seen_whole(auth: AuthResult, error: StorageError)
    ensures
        auth is Allowed ==> auth@ is None,
        auth matches AuthResult::Denied(reason) ==> auth@ == Some(reason@),
        error matches StorageError::Postgres(e) ==> error@ == StorageErrorModel::Postgres(e@),
        error matches StorageError::ChannelSend(e) ==> error@ == StorageErrorModel::ChannelSend(
            e@,
        ),
        error is ChannelReceive ==> error@ == StorageErrorModel::ChannelReceive,
        error matches StorageError::EncryptionError(e) ==> error@
            == StorageErrorModel::EncryptionError(e@),
{
}

/// Sending a message once more succeeds if and only if an answer came that acknowledges
/// that very message.
pub proof fn law_only_its_own_answer_acknowledges_a_message(
    outcome: RetryOutcome,
    message_id: Seq<char>,
)
    ensures
        acknowledges(outcome, message_id) <==> (outcome matches RetryOutcome::Answered(
            AckResult::Acked(id),
        ) && id@ == message_id),
{
}

} // verus!
