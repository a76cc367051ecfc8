//! What the broker holds, and how messages without an answer are tried again.

use crate::broker::exchange::{Exchange, ExchangeModel};
use crate::broker::message::{MessageStatus, StatusModel};
use crate::broker::queue::{Queue, QueueModel};
use crate::directory::Directory;
use crate::text::same;
use vstd::prelude::*;
use vstd::string::*;

verus! {

/// The state as mathematical values.
#[verifier::ext_equal]
pub struct EngineModel {
    pub queues: Map<Seq<char>, QueueModel>,
    pub exchanges: Map<Seq<char>, ExchangeModel>,
    pub unacknowledged: Map<u128, (Seq<char>, StatusModel)>,
}

/// How handing a message to a consumer went.
#[derive(Clone, Copy, Debug, PartialEq, Eq, Structural)]
pub enum SendOutcome {
    /// The consumer has it and waits for more.
    Sent,
    /// The consumer has it and is gone.
    SentAndClosed,
    /// The consumer is gone.
    Failed,
}

/// How often a message is tried again.
pub const MAX_ATTEMPTS: u32 = 5;

/// Seconds after which a message without an answer is tried again.
pub const RETRY_AFTER_SECS: i64 = 60;

impl EngineModel {
    /// With a message waiting for its acknowledgement.
    pub open spec fn tracking(self, queue: Seq<char>, message: StatusModel) -> EngineModel {
        EngineModel {
            unacknowledged: self.unacknowledged.insert(message.message_id, (queue, message)),
            ..self
        }
    }

    /// With a message at the end of a queue and waiting for its acknowledgement.
    pub open spec fn filed(self, queue: Seq<char>, message: StatusModel) -> EngineModel {
        let q = self.queues[queue];
        EngineModel {
            queues: self.queues.insert(
                queue,
                QueueModel { messages: q.messages.push(message), ..q },
            ),
            ..self
        }.tracking(queue, message)
    }

    /// With the next consumer of a queue taken out.
    pub open spec fn without_next_consumer(self, queue: Seq<char>) -> EngineModel {
        let q = self.queues[queue];
        EngineModel {
            queues: self.queues.insert(
                queue,
                QueueModel { consumers: q.consumers.skip(1), ..q },
            ),
            ..self
        }
    }

    /// With a consumer waiting at the end of a queue's line.
    pub open spec fn with_consumer(self, queue: Seq<char>, consumer: u64) -> EngineModel {
        let q = self.queues[queue];
        EngineModel {
            queues: self.queues.insert(
                queue,
                QueueModel { consumers: q.consumers.push(consumer), ..q },
            ),
            ..self
        }
    }

    /// After a message was offered to a consumer of a queue.
    pub open spec fn resolved(
        self,
        queue: Seq<char>,
        message: StatusModel,
        consumer: u64,
        outcome: SendOutcome,
    ) -> EngineModel {
        if !self.queues.contains_key(queue) {
            self
        } else {
            match outcome {
                SendOutcome::Sent => self.with_consumer(queue, consumer).tracking(queue, message),
                SendOutcome::SentAndClosed => self.tracking(queue, message),
                SendOutcome::Failed => self.filed(queue, message),
            }
        }
    }

    /// A message that is tried once more.
    pub open spec fn again(message: StatusModel) -> StatusModel {
        StatusModel { attempts: (message.attempts + 1) as u32, ..message }
    }
}

/// Queues, exchanges and the messages that wait for an acknowledgement.
pub struct ServerState {
    pub queues: Directory<String, Queue>,
    pub exchanges: Directory<String, Exchange>,
    pub unacknowledged_messages: Directory<u128, (String, MessageStatus)>,
}

impl View for ServerState {
    type V = EngineModel;

    open spec fn view(&self) -> EngineModel {
        EngineModel {
            queues: self.queues@,
            exchanges: self.exchanges@,
            unacknowledged: self.unacknowledged_messages@,
        }
    }
}

/// Whether a message has waited too long for its acknowledgement.
pub open spec fn is_stale(message: StatusModel, now: i64) -> bool {
    now - message.timestamp > RETRY_AFTER_SECS
}

/// What to do with a message that is tried again.
pub enum Retry {
    /// Its queue does not exist; it is no longer tracked.
    NoQueue,
    /// It was tried too often; it is no longer tracked.
    Dropped,
    /// It waits in its queue.
    Enqueued,
    /// It is to be offered to this consumer.
    Offer { consumer: u64, message: MessageStatus },
}

/// What became of a message that was found stale.
#[derive(Clone, Copy, Debug, PartialEq, Eq, Structural)]
pub enum Claim {
    /// It is no longer tracked.
    Gone,
    /// It is tracked for another queue.
    Changed,
    /// It was taken, to be tried again.
    Taken,
}

impl ServerState {
    /// The tables are well-formed.
    pub open spec fn wf(&self) -> bool {
        &&& self.queues.wf()
        &&& self.exchanges.wf()
        &&& self.unacknowledged_messages.wf()
    }

    /// A state that holds nothing.
    pub fn new() -> (r: Self)
        ensures
            r.wf(),
            r@ == (EngineModel {
                queues: Map::empty(),
                exchanges: Map::empty(),
                unacknowledged: Map::empty(),
            }),
    {
        ServerState {
            queues: Directory::new(),
            exchanges: Directory::new(),
            unacknowledged_messages: Directory::new(),
        }
    }

    /// Keeps a message until it is acknowledged.
    pub(crate) fn track(&mut self, queue: &str, message: &MessageStatus)
        requires
            old(self).wf(),
        ensures
            final(self).wf(),
            final(self)@ == old(self)@.tracking(queue@, message.deep_view()),
    {
        self.unacknowledged_messages.insert(message.message_id, (queue.to_owned(), message.clone()));
    }

    /// Puts a message at the end of a queue and keeps it until it is acknowledged.
    pub(crate) fn file(&mut self, queue: &str, message: &MessageStatus)
        requires
            old(self).wf(),
            old(self)@.queues.contains_key(queue@),
        ensures
            final(self).wf(),
            final(self)@ == old(self)@.filed(queue@, message.deep_view()),
    {
        match self.queues.get_mut(&queue.to_owned()) {
            Some(q) => {
                q.push(message.clone());
            },
            None => {},
        }
        self.track(queue, message);
    }

    /// Takes the next consumer of a queue.
    pub(crate) fn take_consumer(&mut self, queue: &str) -> (r: Option<u64>)
        requires
            old(self).wf(),
            old(self)@.queues.contains_key(queue@),
        ensures
            final(self).wf(),
            match r {
                Some(c) => {
                    &&& old(self)@.queues[queue@].consumers.len() > 0
                    &&& c == old(self)@.queues[queue@].consumers[0]
                    &&& final(self)@ == old(self)@.without_next_consumer(queue@)
                },
                None => {
                    &&& old(self)@.queues[queue@].consumers.len() == 0
                    &&& final(self)@ == old(self)@
                },
            },
    {
        let r = match self.queues.get_mut(&queue.to_owned()) {
            Some(q) => q.next_consumer(),
            None => None,
        };
        proof {
            if r is None {
                assert(self@ =~= old(self)@);
            }
        }
        r
    }

    /// Lets a consumer wait at the end of a queue's line.
    pub(crate) fn add_consumer(&mut self, queue: &str, consumer: u64)
        requires
            old(self).wf(),
            old(self)@.queues.contains_key(queue@),
        ensures
            final(self).wf(),
            final(self)@ == old(self)@.with_consumer(queue@, consumer),
    {
        match self.queues.get_mut(&queue.to_owned()) {
            Some(q) => {
                q.consumers.push(consumer);
            },
            None => {},
        }
    }

    /// Takes in how offering a message to a consumer went.
    pub fn resolve(
        &mut self,
        queue: &str,
        message: &MessageStatus,
        consumer: u64,
        outcome: SendOutcome,
    )
        requires
            old(self).wf(),
        ensures
            final(self).wf(),
            final(self)@ == old(self)@.resolved(queue@, message.deep_view(), consumer, outcome),
    {
        if self.queues.contains_key(&queue.to_owned()) {
            match outcome {
                SendOutcome::Sent => {
                    self.add_consumer(queue, consumer);
                    self.track(queue, message);
                },
                SendOutcome::SentAndClosed => {
                    self.track(queue, message);
                },
                SendOutcome::Failed => {
                    self.file(queue, message);
                },
            }
        }
    }

    /// Tries a message once more.
    pub fn re_enqueue_message(&mut self, queue: &str, message: MessageStatus) -> (r: Retry)
        requires
            old(self).wf(),
            message.attempts < u32::MAX,
        ensures
            final(self).wf(),
            ({
                let next = EngineModel::again(message.deep_view());
                let untracked = EngineModel {
                    unacknowledged: old(self)@.unacknowledged.remove(message.message_id),
                    ..old(self)@
                };
                if !old(self)@.queues.contains_key(queue@) {
                    r is NoQueue && final(self)@ == untracked
                } else if next.attempts > MAX_ATTEMPTS {
                    r is Dropped && final(self)@ == untracked
                } else if old(self)@.queues[queue@].consumers.len() > 0 {
                    &&& r matches Retry::Offer { consumer, message: m } && consumer == old(
                        self,
                    )@.queues[queue@].consumers[0] && m.deep_view() == next
                    &&& final(self)@ == old(self)@.without_next_consumer(queue@)
                } else {
                    r is Enqueued && final(self)@ == old(self)@.filed(queue@, next)
                }
            }),
            r is Dropped <==> old(self)@.queues.contains_key(queue@) && message.attempts >= 5,
    {
        if !self.queues.contains_key(&queue.to_owned()) {
            let _ = self.unacknowledged_messages.remove(&message.message_id);
            return Retry::NoQueue;
        }
        let mut message = message;
        message.attempts = message.attempts + 1;
        if message.attempts > MAX_ATTEMPTS {
            let _ = self.unacknowledged_messages.remove(&message.message_id);
            return Retry::Dropped;
        }
        match self.take_consumer(queue) {
            Some(consumer) => Retry::Offer { consumer, message },
            None => {
                self.file(queue, &message);
                Retry::Enqueued
            },
        }
    }

    /// The messages that have waited too long, each with its queue.
    pub fn stale_messages(&self, now: i64) -> (r: Vec<(u128, String, MessageStatus)>)
        requires
            self.wf(),
        ensures
            forall|i: int, j: int| 0 <= i < j < r@.len() ==> r@[i].0 != r@[j].0,
            forall|i: int|
                0 <= i < r@.len() ==> {
                    let e = #[trigger] r@[i];
                    &&& self@.unacknowledged.contains_key(e.0)
                    &&& self@.unacknowledged[e.0] == (e.1@, e.2.deep_view())
                    &&& is_stale(e.2.deep_view(), now)
                },
            forall|id: u128| #[trigger]
                self@.unacknowledged.contains_key(id) && is_stale(self@.unacknowledged[id].1, now)
                    ==> exists|i: int| 0 <= i < r@.len() && (#[trigger] r@[i]).0 == id,
    {
        let mut out: Vec<(u128, String, MessageStatus)> = Vec::new();
        let mut i: usize = 0;
        let ghost order = self.unacknowledged_messages.order();
        proof {
            self.unacknowledged_messages.lemma_order();
        }
        while i < self.unacknowledged_messages.len()
            invariant
                self.wf(),
                order == self.unacknowledged_messages.order(),
                order.no_duplicates(),
                i <= order.len(),
                forall|a: int, b: int| 0 <= a < b < out@.len() ==> out@[a].0 != out@[b].0,
                forall|a: int|
                    0 <= a < out@.len() ==> {
                        let e = #[trigger] out@[a];
                        &&& self@.unacknowledged.contains_key(e.0)
                        &&& self@.unacknowledged[e.0] == (e.1@, e.2.deep_view())
                        &&& is_stale(e.2.deep_view(), now)
                        &&& exists|k: int| 0 <= k < i && order[k] == e.0
                    },
                forall|k: int|
                    0 <= k < i && is_stale(self@.unacknowledged[#[trigger] order[k]].1, now)
                        ==> exists|a: int| 0 <= a < out@.len() && (#[trigger] out@[a]).0 == order[k],
            decreases order.len() - i,
        {
            let id: u128 = *self.unacknowledged_messages.key_at(i);
            let entry = self.unacknowledged_messages.value_at(i);
            let ghost before = out@;
            let age: i128 = now as i128 - entry.1.timestamp as i128;
            if age > RETRY_AFTER_SECS as i128 {
                out.push((id, entry.0.clone(), entry.1.clone()));
                proof {
                    assert(out@[before.len() as int].0 == order[i as int]);
                    assert forall|a: int, b: int| 0 <= a < b < out@.len() implies out@[a].0
                        != out@[b].0 by {
                        assert(out@[a] == before[a]);
                        if b == before.len() {
                            let k = choose|k: int| 0 <= k < i && order[k] == before[a].0;
                            assert(order[k] != order[i as int]);
                        } else {
                            assert(out@[b] == before[b]);
                        }
                    }
                }
            }
            proof {
                assert forall|k: int|
                    0 <= k < i + 1 && is_stale(
                        self@.unacknowledged[#[trigger] order[k]].1,
                        now,
                    ) implies exists|a: int|
                    0 <= a < out@.len() && (#[trigger] out@[a]).0 == order[k] by {
                    if k < i {
                        let a = choose|a: int|
                            0 <= a < before.len() && (#[trigger] before[a]).0 == order[k];
                        assert(out@[a].0 == order[k]);
                    } else {
                        assert(out@[before.len() as int].0 == order[k]);
                    }
                }
                assert forall|a: int| 0 <= a < out@.len() implies exists|k: int|
                    0 <= k < i + 1 && order[k] == (#[trigger] out@[a]).0 by {
                    if a < before.len() {
                        assert(out@[a] == before[a]);
                        let k = choose|k: int| 0 <= k < i && order[k] == before[a].0;
                        assert(order[k] == out@[a].0);
                    } else {
                        assert(order[i as int] == out@[a].0);
                    }
                }
            }
            i = i + 1;
        }
        proof {
            assert forall|id: u128| #[trigger]
                self@.unacknowledged.contains_key(id) && is_stale(
                    self@.unacknowledged[id].1,
                    now,
                ) implies exists|i: int| 0 <= i < out@.len() && (#[trigger] out@[i]).0 == id by {
                assert(order.contains(id));
                let k = choose|k: int| 0 <= k < order.len() && order[k] == id;
                assert(is_stale(self@.unacknowledged[order[k]].1, now));
            }
        }
        out
    }

    /// Takes a stale message to try it again, unless it is no longer tracked or
    /// is tracked for another queue.
    pub fn claim(&mut self, id: u128, queue: &str) -> (r: Claim)
        requires
            old(self).wf(),
        ensures
            final(self).wf(),
            if !old(self)@.unacknowledged.contains_key(id) {
                r == Claim::Gone && final(self)@ == old(self)@
            } else if old(self)@.unacknowledged[id].0 != queue@ || old(
                self,
            )@.unacknowledged[id].1.message_id != id {
                r == Claim::Changed && final(self)@ == old(self)@
            } else {
                r == Claim::Taken && final(self)@ == (EngineModel {
                    unacknowledged: old(self)@.unacknowledged.remove(id),
                    ..old(self)@
                })
            },
    {
        match self.unacknowledged_messages.get(&id) {
            None => Claim::Gone,
            Some(entry) => {
                if same(entry.0.as_str(), queue) && entry.1.message_id == id {
                    let _ = self.unacknowledged_messages.remove(&id);
                    Claim::Taken
                } else {
                    Claim::Changed
                }
            },
        }
    }
}

} // verus!
