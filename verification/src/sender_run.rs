//! One run of the sending client: which message to encrypt, write, wait for or
//! send once more next. Whoever performs these steps reports how they went.

use crate::sender::{
    ack_meaning, acknowledges, after_retry, batch_end, batch_end_of, keyed, lists, wait_after,
    AckModel, AckResult, EncryptedMessage, Pipeline, PipelineModel, RetryOutcome, RetryStep,
    SenderConfig, SentModel,
};
use std::collections::VecDeque;
use vstd::multiset::Multiset;
use vstd::prelude::*;
use vstd::string::*;

verus! {

/// What the run is busy with.
#[derive(Clone, Copy, Debug, PartialEq, Eq, Structural)]
pub enum Phase {
    /// Messages are encrypted and written.
    Sending,
    /// Everything was written; acknowledgements are awaited.
    Draining,
    /// Messages without an acknowledgement are sent once more, one at a time.
    Retrying,
}

/// What is to be done next.
pub enum RunAction {
    /// Make the message with this number and encrypt it for every receiver.
    Encrypt(u64),
    /// Wait until an acknowledgement makes room in the window.
    AwaitPermit,
    /// Write this message.
    Write(EncryptedMessage),
    /// Wait for the delay between two batches.
    PauseBatch,
    /// Wait for an acknowledgement.
    Drain,
    /// Write this message once more and wait for its acknowledgement.
    Resend(EncryptedMessage),
    /// Report how many messages were written when their turn came, and how many
    /// were given up.
    Finish { sent: u64, failed: u64 },
}

/// What is to be done next, as mathematical values.
pub enum ActionModel {
    Encrypt(u64),
    AwaitPermit,
    Write(SentModel),
    PauseBatch,
    Drain,
    Resend(SentModel),
    Finish { sent: u64, failed: u64 },
}

impl View for RunAction {
    type V = ActionModel;

    open spec fn view(&self) -> ActionModel {
        match self {
            RunAction::Encrypt(n) => ActionModel::Encrypt(*n),
            RunAction::AwaitPermit => ActionModel::AwaitPermit,
            RunAction::Write(m) => ActionModel::Write(m.deep_view()),
            RunAction::PauseBatch => ActionModel::PauseBatch,
            RunAction::Drain => ActionModel::Drain,
            RunAction::Resend(m) => ActionModel::Resend(m.deep_view()),
            RunAction::Finish { sent, failed } => ActionModel::Finish {
                sent: *sent,
                failed: *failed,
            },
        }
    }
}

/// What became of the messages of a run.
#[verifier::ext_equal]
pub struct History {
    /// The encrypted messages that the run took in.
    pub handed: Set<SentModel>,
    /// The identifiers that the broker acknowledged.
    pub acked: Set<Seq<char>>,
    /// The messages that were sent once more, as often as they were.
    pub resends: Multiset<SentModel>,
    /// The messages that were given up.
    pub lost: Seq<SentModel>,
}

impl History {
    /// Nothing has happened.
    pub open spec fn empty() -> History {
        History {
            handed: Set::empty(),
            acked: Set::empty(),
            resends: Multiset::empty(),
            lost: Seq::empty(),
        }
    }

    /// Whether no two messages that were taken in have the same identifier.
    pub open spec fn distinct(self) -> bool {
        forall|a: SentModel, b: SentModel| #[trigger]
            self.handed.contains(a) && #[trigger] self.handed.contains(b) && a.message_id
                == b.message_id ==> a == b
    }

    /// Whether a message was sent once more as often as allowed, and given up.
    pub open spec fn given_up(self, message: SentModel, retry_limit: u32) -> bool {
        self.lost.contains(message) && self.resends.count(message) == retry_limit
    }
}

/// A run as mathematical values.
#[verifier::ext_equal]
pub struct RunModel {
    pub pipeline: PipelineModel,
    pub phase: Phase,
    /// How many messages were encrypted.
    pub started: usize,
    /// Where the batch ends.
    pub batch_end: usize,
    /// The encrypted copies of the last message that were not written yet.
    pub outgoing: Seq<SentModel>,
    /// The messages to be sent once more; those in front of `retry_at` are done.
    pub retries: Seq<SentModel>,
    pub retry_at: int,
    pub attempt: u32,
    /// How many messages were given up.
    pub failed: u64,
    pub history: History,
}

/// Whether a list holds a message with an identifier.
pub open spec fn has_id(list: Seq<SentModel>, id: Seq<char>) -> bool {
    exists|i: int| 0 <= i < list.len() && (#[trigger] list[i]).message_id == id
}

impl RunModel {
    /// Whether everything that was taken in is accounted for before messages are
    /// sent once more: it was acknowledged, or waits to be written, or is in
    /// flight, or was set aside.
    pub open spec fn accounts_sending(self) -> bool {
        &&& forall|m: SentModel| #[trigger]
            self.history.handed.contains(m) ==> {
                ||| self.history.acked.contains(m.message_id)
                ||| has_id(self.outgoing, m.message_id)
                ||| self.pipeline.pending.contains_key(m.message_id)
                ||| self.pipeline.unwritten.contains_key(m.message_id)
            }
        &&& forall|i: int|
            0 <= i < self.outgoing.len() ==> self.history.handed.contains(
                #[trigger] self.outgoing[i],
            )
        &&& forall|id: Seq<char>| #[trigger]
            self.pipeline.pending.contains_key(id) ==> self.history.handed.contains(
                self.pipeline.pending[id],
            )
        &&& forall|id: Seq<char>| #[trigger]
            self.pipeline.unwritten.contains_key(id) ==> self.history.handed.contains(
                self.pipeline.unwritten[id],
            )
        &&& self.history.resends == Multiset::<SentModel>::empty()
        &&& self.history.lost == Seq::<SentModel>::empty()
        &&& self.failed == 0
    }

    /// Whether everything that was taken in is accounted for while messages are
    /// sent once more: it was acknowledged, or is among those messages, of which
    /// the ones that are done were acknowledged or given up.
    pub open spec fn accounts_retrying(self, retry_limit: u32) -> bool {
        &&& forall|m: SentModel| #[trigger]
            self.history.handed.contains(m) ==> self.history.acked.contains(m.message_id) || has_id(
                self.retries,
                m.message_id,
            )
        &&& forall|i: int, j: int|
            0 <= i < j < self.retries.len() ==> (#[trigger] self.retries[i]).message_id != (
            #[trigger] self.retries[j]).message_id
        &&& forall|i: int|
            0 <= i < self.retries.len() ==> self.history.handed.contains(#[trigger] self.retries[i])
        &&& forall|i: int|
            0 <= i < self.retry_at ==> self.history.acked.contains(
                (#[trigger] self.retries[i]).message_id,
            ) || self.history.given_up(self.retries[i], retry_limit)
        &&& self.retry_at < self.retries.len() ==> self.history.resends.count(
            self.retries[self.retry_at],
        ) == self.attempt
        &&& forall|i: int|
            self.retry_at < i < self.retries.len() ==> self.history.resends.count(
                #[trigger] self.retries[i],
            ) == 0
        &&& self.failed == self.history.lost.len()
        &&& self.history.lost.no_duplicates()
        &&& forall|k: int|
            0 <= k < self.history.lost.len() ==> self.retries.take(self.retry_at).contains(
                #[trigger] self.history.lost[k],
            )
    }

    /// Whether everything that was taken in is accounted for.
    pub open spec fn accounted(self, retry_limit: u32) -> bool {
        if self.phase == Phase::Retrying {
            self.accounts_retrying(retry_limit)
        } else {
            self.accounts_sending()
        }
    }
}

/// A run of the sending client.
pub struct SenderRun {
    pipeline: Pipeline,
    num_messages: usize,
    batch_size: usize,
    max_retries: u32,
    phase: Phase,
    started: usize,
    batch_end: usize,
    outgoing: VecDeque<EncryptedMessage>,
    retries: Vec<EncryptedMessage>,
    retry_at: usize,
    attempt: u32,
    failed: u64,
    history: Ghost<History>,
}

impl View for SenderRun {
    type V = RunModel;

    closed spec fn view(&self) -> RunModel {
        RunModel {
            pipeline: self.pipeline@,
            phase: self.phase,
            started: self.started,
            batch_end: self.batch_end,
            outgoing: self.outgoing.deep_view(),
            retries: self.retries.deep_view(),
            retry_at: self.retry_at as int,
            attempt: self.attempt,
            failed: self.failed,
            history: self.history@,
        }
    }
}

impl SenderRun {
    /// How many messages the run sends.
    pub closed spec fn total(&self) -> usize {
        self.num_messages
    }

    /// How many messages may be in flight.
    pub closed spec fn window(&self) -> usize {
        self.pipeline.window()
    }

    /// How many messages make up a batch.
    pub closed spec fn batch(&self) -> usize {
        self.batch_size
    }

    /// How often a message is sent once more.
    pub closed spec fn retry_limit(&self) -> u32 {
        self.max_retries
    }

    /// The window holds, the batch lies within the run, the retries stand within
    /// their limits, and every message is accounted for.
    pub closed spec fn wf(&self) -> bool {
        &&& self.pipeline.wf()
        &&& self.pipeline.window() > 0
        &&& self.batch_size > 0
        &&& self.started <= self.batch_end <= self.num_messages
        &&& self.retry_at <= self.retries@.len()
        &&& self.retry_at < self.retries@.len() ==> self.attempt < self.max_retries
        &&& self.failed <= self.retry_at
        &&& self.phase == Phase::Sending || (self.started == self.num_messages
            && self.outgoing@.len() == 0)
        &&& self@.accounted(self.max_retries)
    }

    /// What always holds of a run: everything is encrypted and written before
    /// acknowledgements are awaited, no more messages fail than are sent once more,
    /// and where there is no room in the window, a message is in flight.
    pub proof fn lemma_progress(&self)
        requires
            self.wf(),
        ensures
            self@.started <= self@.batch_end <= self.total(),
            self@.phase != Phase::Sending ==> self@.started == self.total()
                && self@.outgoing.len() == 0,
            0 <= self@.retry_at <= self@.retries.len(),
            self@.failed <= self@.retry_at,
            self@.pipeline.pending.dom().len() + self@.pipeline.permits <= self.window(),
            self@.pipeline.permits == 0 ==> self@.pipeline.pending.dom().len() > 0,
    {
        self.pipeline.lemma_bounded();
    }

    /// No message is lost unseen. When a run is over, every message that it took
    /// in was acknowledged, or was sent once more as often as allowed and is
    /// counted among those that failed. Where two messages had the same identifier,
    /// that holds of one of them.
    pub proof fn law_every_message_is_settled(&self)
        requires
            self.wf(),
            self@.phase == Phase::Retrying,
            retry_action(self@) is Finish,
        ensures
            self@.failed == self@.history.lost.len(),
            self@.history.lost.no_duplicates(),
            forall|m: SentModel| #[trigger]
                self@.history.handed.contains(m) ==> self@.history.acked.contains(m.message_id) || (
                exists|copy: SentModel| #[trigger]
                    self@.history.handed.contains(copy) && copy.message_id == m.message_id
                        && self@.history.given_up(copy, self.retry_limit())),
            self@.history.distinct() ==> forall|m: SentModel| #[trigger]
                self@.history.handed.contains(m) ==> self@.history.acked.contains(m.message_id)
                    || self@.history.given_up(m, self.retry_limit()),
    {
        let s = self@;
        assert forall|m: SentModel| #[trigger]
            s.history.handed.contains(m) && !s.history.acked.contains(m.message_id) implies (exists|
            copy: SentModel,
        | #[trigger]
            s.history.handed.contains(copy) && copy.message_id == m.message_id && s.history.given_up(
                copy,
                self.retry_limit(),
            )) by {
            assert(has_id(s.retries, m.message_id));
            let i = choose|i: int| 0 <= i < s.retries.len() && (#[trigger] s.retries[i]).message_id
                == m.message_id;
            assert(s.history.handed.contains(s.retries[i]));
        }
        if s.history.distinct() {
            assert forall|m: SentModel| #[trigger]
                s.history.handed.contains(m) && !s.history.acked.contains(
                    m.message_id,
                ) implies s.history.given_up(m, self.retry_limit()) by {
                let copy = choose|copy: SentModel| #[trigger]
                    s.history.handed.contains(copy) && copy.message_id == m.message_id
                        && s.history.given_up(copy, self.retry_limit());
                assert(copy == m);
            }
        }
    }

    /// Whether the fixed parts of two runs are the same.
    pub open spec fn same_run(&self, other: &SenderRun) -> bool {
        &&& self.total() == other.total()
        &&& self.batch() == other.batch()
        &&& self.retry_limit() == other.retry_limit()
        &&& self.window() == other.window()
    }

    /// A run that has not begun.
    pub fn new(config: &SenderConfig) -> (r: Self)
        requires
            config.batch_size > 0,
            config.max_inflight > 0,
        ensures
            r.wf(),
            r.total() == config.num_messages,
            r.batch() == config.batch_size,
            r.retry_limit() == config.max_retries,
            r.window() == config.max_inflight,
            r@ == (RunModel {
                pipeline: (PipelineModel {
                    permits: config.max_inflight,
                    pending: Map::empty(),
                    unwritten: Map::empty(),
                    sent: 0,
                }),
                phase: Phase::Sending,
                started: 0,
                batch_end: batch_end_of(
                    0,
                    config.batch_size as nat,
                    config.num_messages as nat,
                ) as usize,
                outgoing: Seq::empty(),
                retries: Seq::empty(),
                retry_at: 0,
                attempt: 0,
                failed: 0,
                history: History::empty(),
            }),
    {
        let first_end: usize = if config.num_messages == 0 {
            0
        } else {
            batch_end(0, config.batch_size, config.num_messages)
        };
        let r = SenderRun {
            pipeline: Pipeline::new(config.max_inflight),
            num_messages: config.num_messages,
            batch_size: config.batch_size,
            max_retries: config.max_retries,
            phase: Phase::Sending,
            started: 0,
            batch_end: first_end,
            outgoing: VecDeque::new(),
            retries: Vec::new(),
            retry_at: 0,
            attempt: 0,
            failed: 0,
            history: Ghost(History::empty()),
        };
        assert(r.outgoing.deep_view() =~= Seq::<SentModel>::empty());
        assert(r.retries.deep_view() =~= Seq::<SentModel>::empty());
        r
    }

    /// Decides what to do next. `timed_out` says whether acknowledgements have
    /// been awaited for long enough.
    pub fn next(&mut self, timed_out: bool) -> (r: RunAction)
        requires
            old(self).wf(),
        ensures
            final(self).wf(),
            final(self).same_run(old(self)),
            match old(self)@.phase {
                Phase::Sending => {
                    if old(self)@.outgoing.len() > 0 {
                        if old(self)@.pipeline.permits > 0 {
                            let m = old(self)@.outgoing[0];
                            &&& r@ == ActionModel::Write(m)
                            &&& final(self)@ == (RunModel {
                                outgoing: old(self)@.outgoing.skip(1),
                                pipeline: old(self)@.pipeline.begun(m),
                                ..old(self)@
                            })
                        } else {
                            r@ == ActionModel::AwaitPermit && final(self)@ == old(self)@
                        }
                    } else if old(self)@.started < old(self)@.batch_end {
                        &&& r@ == ActionModel::Encrypt((old(self)@.started + 1) as u64)
                        &&& final(self)@ == old(self)@
                    } else if old(self)@.started < old(self).total() {
                        &&& r@ == ActionModel::PauseBatch
                        &&& final(self)@ == (RunModel {
                            batch_end: batch_end_of(
                                old(self)@.started as nat,
                                old(self).batch() as nat,
                                old(self).total() as nat,
                            ) as usize,
                            ..old(self)@
                        })
                    } else {
                        &&& r@ == ActionModel::Drain
                        &&& final(self)@ == (RunModel { phase: Phase::Draining, ..old(self)@ })
                    }
                },
                Phase::Draining => {
                    if timed_out || old(self)@.pipeline.pending.dom().len() == 0 {
                        &&& turned_to_retries(
                            old(self)@,
                            final(self)@,
                            old(self).retry_limit(),
                        )
                        &&& r@ == retry_action(final(self)@)
                    } else {
                        r@ == ActionModel::Drain && final(self)@ == old(self)@
                    }
                },
                Phase::Retrying => r@ == retry_action(old(self)@) && final(self)@ == old(self)@,
            },
    {
        match self.phase {
            Phase::Sending => {
                if self.outgoing.len() > 0 {
                    if !self.pipeline.can_send() {
                        return RunAction::AwaitPermit;
                    }
                    let ghost waiting = self.outgoing.deep_view();
                    match self.outgoing.pop_front() {
                        Some(message) => {
                            proof {
                                assert(message.deep_view() == waiting[0]);
                                assert(self.outgoing.deep_view() =~= waiting.skip(1));
                            }
                            self.pipeline.begin(message.clone());
                            proof {
                                lemma_begun_accounted(old(self)@, self@);
                            }
                            RunAction::Write(message)
                        },
                        None => RunAction::AwaitPermit,
                    }
                } else if self.started < self.batch_end {
                    RunAction::Encrypt(self.started as u64 + 1)
                } else if self.started < self.num_messages {
                    self.batch_end = batch_end(self.started, self.batch_size, self.num_messages);
                    RunAction::PauseBatch
                } else {
                    self.phase = Phase::Draining;
                    RunAction::Drain
                }
            },
            Phase::Draining => {
                if timed_out || self.pipeline.is_drained() {
                    self.start_retries();
                    self.retry_step()
                } else {
                    RunAction::Drain
                }
            },
            Phase::Retrying => self.retry_step(),
        }
    }
}

/// Whether a run has turned to the messages without an acknowledgement. Where
/// nothing is sent once more, all of them are given up.
pub open spec fn turned_to_retries(before: RunModel, after: RunModel, retry_limit: u32) -> bool {
    &&& lists(after.retries, before.pipeline.unsettled())
    &&& after == (RunModel {
        phase: Phase::Retrying,
        retries: after.retries,
        attempt: 0,
        retry_at: if retry_limit == 0 {
            after.retries.len() as int
        } else {
            0
        },
        failed: if retry_limit == 0 {
            after.retries.len() as u64
        } else {
            0
        },
        history: if retry_limit == 0 {
            History { lost: after.retries, ..before.history }
        } else {
            before.history
        },
        ..before
    })
}

/// A message that moves from those to be written into the window stays accounted
/// for.
proof fn lemma_begun_accounted(s: RunModel, after: RunModel)
    requires
        s.accounts_sending(),
        s.outgoing.len() > 0,
        after == (RunModel {
            outgoing: s.outgoing.skip(1),
            pipeline: s.pipeline.begun(s.outgoing[0]),
            ..s
        }),
    ensures
        after.accounts_sending(),
{
    let first = s.outgoing[0];
    assert(s.history.handed.contains(first));
    assert forall|m: SentModel| #[trigger] after.history.handed.contains(m) implies {
        ||| after.history.acked.contains(m.message_id)
        ||| has_id(after.outgoing, m.message_id)
        ||| after.pipeline.pending.contains_key(m.message_id)
        ||| after.pipeline.unwritten.contains_key(m.message_id)
    } by {
        if has_id(s.outgoing, m.message_id) && m.message_id != first.message_id {
            let i = choose|i: int| 0 <= i < s.outgoing.len() && (#[trigger] s.outgoing[i]).message_id
                == m.message_id;
            assert(after.outgoing[i - 1] == s.outgoing[i]);
        }
    }
    assert forall|i: int| 0 <= i < after.outgoing.len() implies after.history.handed.contains(
        #[trigger] after.outgoing[i],
    ) by {
        assert(after.outgoing[i] == s.outgoing[i + 1]);
    }
}

/// When a run turns to the messages without an acknowledgement, every message is
/// accounted for.
proof fn lemma_turned_accounted(s: RunModel, after: RunModel, retry_limit: u32)
    requires
        s.accounts_sending(),
        s.outgoing.len() == 0,
        keyed(s.pipeline.pending),
        keyed(s.pipeline.unwritten),
        turned_to_retries(s, after, retry_limit),
        after.retries.len() <= u64::MAX,
    ensures
        after.accounts_retrying(retry_limit),
{
    let all = s.pipeline.unsettled();
    let order = choose|order: Seq<Seq<char>>| #[trigger]
        order.no_duplicates() && order.to_set() == all.dom() && after.retries == Seq::new(
            order.len(),
            |i: int| all[order[i]],
        );
    let list = after.retries;
    assert forall|i: int| 0 <= i < list.len() implies (#[trigger] list[i]).message_id == order[i]
        && s.history.handed.contains(list[i]) by {
        assert(order.to_set().contains(order[i]));
        assert(all.dom().contains(order[i]));
        assert(list[i] == all[order[i]]);
        if s.pipeline.unwritten.contains_key(order[i]) {
        } else {
            assert(s.pipeline.pending.contains_key(order[i]));
        }
    }
    assert forall|i: int, j: int| 0 <= i < j < list.len() implies (#[trigger] list[i]).message_id != (
    #[trigger] list[j]).message_id by {
        assert(list[i].message_id == order[i]);
        assert(list[j].message_id == order[j]);
    }
    assert forall|m: SentModel| #[trigger]
        after.history.handed.contains(m) implies after.history.acked.contains(m.message_id)
        || has_id(list, m.message_id) by {
        assert(s.history.handed.contains(m));
        if !s.history.acked.contains(m.message_id) {
            let id = m.message_id;
            assert(all.dom().contains(id));
            assert(order.to_set().contains(id));
            let i = choose|i: int| 0 <= i < order.len() && order[i] == id;
            assert(list[i].message_id == id);
        }
    }
    if retry_limit == 0 {
        assert(list.take(list.len() as int) =~= list);
        assert(list.no_duplicates()) by {
            assert forall|i: int, j: int|
                0 <= i < list.len() && 0 <= j < list.len() && i != j implies list[i] != list[j] by {
                assert(list[i].message_id == order[i]);
                assert(list[j].message_id == order[j]);
            }
        }
        assert forall|k: int| 0 <= k < list.len() implies list.take(list.len() as int).contains(
            #[trigger] list[k],
        ) by {}
    }
}

/// An acknowledgement keeps every message accounted for.
proof fn lemma_acked_accounted(s: RunModel, after: RunModel, id: Seq<char>, retry_limit: u32)
    requires
        s.accounted(retry_limit),
        after == (RunModel {
            pipeline: s.pipeline.released(id),
            history: (History { acked: s.history.acked.insert(id), ..s.history }),
            ..s
        }),
    ensures
        after.accounted(retry_limit),
{
    if s.phase == Phase::Retrying {
        assert forall|i: int| 0 <= i < after.retry_at implies after.history.acked.contains(
            (#[trigger] after.retries[i]).message_id,
        ) || after.history.given_up(after.retries[i], retry_limit) by {
            if !s.history.acked.contains(s.retries[i].message_id) {
                assert(s.history.given_up(s.retries[i], retry_limit));
            }
        }
    }
}

/// A message that is set aside stays accounted for.
proof fn lemma_set_aside_accounted(s: RunModel, after: RunModel, id: Seq<char>, retry_limit: u32)
    requires
        s.accounted(retry_limit),
        after == (RunModel { pipeline: s.pipeline.set_aside(id), ..s }),
    ensures
        after.accounted(retry_limit),
{
}

/// What came of sending a message once more keeps every message accounted for.
proof fn lemma_resent_accounted(s: RunModel, after: RunModel, acked: bool, retry_limit: u32)
    requires
        s.accounts_retrying(retry_limit),
        0 <= s.retry_at < s.retries.len(),
        s.attempt < retry_limit,
        s.failed < u64::MAX,
        after == s.after_resend(acked, retry_limit),
    ensures
        after.accounts_retrying(retry_limit),
{
    let m = s.retries[s.retry_at];
    let h = s.history;
    assert(!h.lost.contains(m)) by {
        if h.lost.contains(m) {
            let k = choose|k: int| 0 <= k < h.lost.len() && h.lost[k] == m;
            assert(s.retries.take(s.retry_at).contains(h.lost[k]));
            let i = choose|i: int| 0 <= i < s.retry_at && s.retries.take(s.retry_at)[i] == m;
            assert(s.retries[i].message_id != s.retries[s.retry_at].message_id);
        }
    }
    assert forall|i: int| 0 <= i < s.retries.len() && i != s.retry_at implies (
    #[trigger] s.retries[i]) != m by {
        if i < s.retry_at {
            assert(s.retries[i].message_id != s.retries[s.retry_at].message_id);
        } else {
            assert(s.retries[s.retry_at].message_id != s.retries[i].message_id);
        }
    }
    assert forall|i: int| 0 <= i < after.retry_at implies after.history.acked.contains(
        (#[trigger] after.retries[i]).message_id,
    ) || after.history.given_up(after.retries[i], retry_limit) by {
        if i < s.retry_at {
            if !h.acked.contains(s.retries[i].message_id) {
                assert(h.given_up(s.retries[i], retry_limit));
                let k = choose|k: int| 0 <= k < h.lost.len() && h.lost[k] == s.retries[i];
                assert(after.history.lost[k] == s.retries[i]);
            }
        } else if !acked {
            assert(after.history.lost[h.lost.len() as int] == m);
        }
    }
    assert forall|k: int| 0 <= k < after.history.lost.len() implies after.retries.take(
        after.retry_at,
    ).contains(#[trigger] after.history.lost[k]) by {
        if k < h.lost.len() {
            assert(after.history.lost[k] == h.lost[k]);
            assert(s.retries.take(s.retry_at).contains(h.lost[k]));
            let i = choose|i: int| 0 <= i < s.retry_at && s.retries.take(s.retry_at)[i] == h.lost[k];
            assert(after.retries.take(after.retry_at)[i] == h.lost[k]);
        } else {
            assert(after.retries.take(after.retry_at)[s.retry_at] == m);
        }
    }
}

impl RunModel {
    /// After a message was sent once more, and acknowledged or not.
    pub open spec fn after_resend(self, acked: bool, retry_limit: u32) -> RunModel {
        let m = self.retries[self.retry_at];
        let history = History { resends: self.history.resends.insert(m), ..self.history };
        if acked {
            RunModel {
                retry_at: self.retry_at + 1,
                attempt: 0,
                history: (History { acked: history.acked.insert(m.message_id), ..history }),
                ..self
            }
        } else if self.attempt + 1 == retry_limit {
            RunModel {
                retry_at: self.retry_at + 1,
                attempt: 0,
                failed: (self.failed + 1) as u64,
                history: (History { lost: history.lost.push(m), ..history }),
                ..self
            }
        } else {
            RunModel { attempt: (self.attempt + 1) as u32, history, ..self }
        }
    }
}

/// What is to be done while messages are sent once more.
pub open spec fn retry_action(s: RunModel) -> ActionModel {
    if s.retry_at < s.retries.len() {
        ActionModel::Resend(s.retries[s.retry_at])
    } else {
        ActionModel::Finish { sent: s.pipeline.sent, failed: s.failed }
    }
}

impl SenderRun {
    fn retry_step(&self) -> (r: RunAction)
        requires
            self.wf(),
        ensures
            r@ == retry_action(self@),
    {
        if self.retry_at < self.retries.len() {
            RunAction::Resend(self.retries[self.retry_at].clone())
        } else {
            RunAction::Finish { sent: self.pipeline.sent_count(), failed: self.failed }
        }
    }

    /// Turns to the messages without an acknowledgement. Where nothing is sent
    /// once more, they have failed.
    fn start_retries(&mut self)
        requires
            old(self).wf(),
            old(self)@.phase == Phase::Draining,
        ensures
            final(self).wf(),
            final(self).same_run(old(self)),
            turned_to_retries(old(self)@, final(self)@, old(self).retry_limit()),
    {
        proof {
            self.pipeline.lemma_bounded();
        }
        self.retries = self.pipeline.unacknowledged();
        self.phase = Phase::Retrying;
        self.attempt = 0;
        if self.max_retries == 0 {
            self.retry_at = self.retries.len();
            self.failed = self.retries.len() as u64;
            proof {
                self.history@ = History { lost: self.retries.deep_view(), ..self.history@ };
            }
        } else {
            self.retry_at = 0;
            self.failed = 0;
        }
        proof {
            assert(old(self).outgoing.deep_view().len() == 0);
            assert(self.retries.deep_view().len() == self.retries.len());
            lemma_turned_accounted(old(self)@, self@, self.max_retries);
        }
    }

    /// Takes in the encrypted copies of a message.
    pub fn encrypted(&mut self, messages: Vec<EncryptedMessage>)
        requires
            old(self).wf(),
            old(self)@.phase == Phase::Sending,
            old(self)@.outgoing.len() == 0,
            old(self)@.started < old(self)@.batch_end,
        ensures
            final(self).wf(),
            final(self).same_run(old(self)),
            final(self)@ == (RunModel {
                started: (old(self)@.started + 1) as usize,
                outgoing: messages.deep_view(),
                history: (History {
                    handed: old(self)@.history.handed.union(messages.deep_view().to_set()),
                    ..old(self)@.history
                }),
                ..old(self)@
            }),
    {
        self.started = self.started + 1;
        let mut i: usize = 0;
        let ghost all = messages.deep_view();
        assert(self.outgoing.deep_view() =~= all.take(0));
        while i < messages.len()
            invariant
                i <= messages@.len(),
                all == messages.deep_view(),
                self.outgoing.deep_view() == all.take(i as int),
                self.pipeline == old(self).pipeline,
                self.num_messages == old(self).num_messages,
                self.batch_size == old(self).batch_size,
                self.max_retries == old(self).max_retries,
                self.phase == old(self).phase,
                self.started == old(self).started + 1,
                self.batch_end == old(self).batch_end,
                self.retries == old(self).retries,
                self.retry_at == old(self).retry_at,
                self.attempt == old(self).attempt,
                self.failed == old(self).failed,
                self.history == old(self).history,
            decreases messages@.len() - i,
        {
            let ghost before = self.outgoing.deep_view();
            let message = messages[i].clone();
            self.outgoing.push_back(message);
            proof {
                assert(messages@[i as int].deep_view() == all[i as int]);
                assert(self.outgoing.deep_view() =~= before.push(all[i as int]));
                assert(all.take(i + 1) =~= all.take(i as int).push(all[i as int]));
            }
            i = i + 1;
        }
        proof {
            assert(all.take(all.len() as int) =~= all);
            self.history@ = History {
                handed: self.history@.handed.union(all.to_set()),
                ..self.history@
            };
            let s = old(self)@;
            let after = self@;
            assert forall|m: SentModel| #[trigger] after.history.handed.contains(m) implies {
                ||| after.history.acked.contains(m.message_id)
                ||| has_id(after.outgoing, m.message_id)
                ||| after.pipeline.pending.contains_key(m.message_id)
                ||| after.pipeline.unwritten.contains_key(m.message_id)
            } by {
                if !s.history.handed.contains(m) {
                    assert(all.to_set().contains(m));
                    let k = choose|k: int| 0 <= k < all.len() && all[k] == m;
                    assert(after.outgoing[k].message_id == m.message_id);
                }
            }
            assert forall|k: int| 0 <= k < after.outgoing.len() implies after.history.handed.contains(
                #[trigger] after.outgoing[k],
            ) by {
                assert(all.to_set().contains(all[k]));
            }
        }
    }

    /// Reads a line from the broker. A message that it acknowledges leaves the
    /// window.
    pub fn on_line(&mut self, line: &str) -> (r: AckResult)
        requires
            old(self).wf(),
        ensures
            final(self).wf(),
            final(self).same_run(old(self)),
            r@ == ack_meaning(line@),
            final(self)@ == (match ack_meaning(line@) {
                AckModel::Acked(id) => RunModel {
                    pipeline: old(self)@.pipeline.released(id),
                    history: (History {
                        acked: old(self)@.history.acked.insert(id),
                        ..old(self)@.history
                    }),
                    ..old(self)@
                },
                _ => old(self)@,
            }),
    {
        let r = self.pipeline.on_line(line);
        proof {
            if let AckModel::Acked(id) = ack_meaning(line@) {
                self.history@ = History {
                    acked: self.history@.acked.insert(id),
                    ..self.history@
                };
                lemma_acked_accounted(old(self)@, self@, id, self.max_retries);
            }
        }
        r
    }

    /// How many messages were written.
    pub fn sent_count(&self) -> (r: u64)
        ensures
            r == self@.pipeline.sent,
    {
        self.pipeline.sent_count()
    }

    /// Takes in whether a message could be written. One that could not is sent once
    /// more later.
    pub fn wrote(&mut self, message_id: &str, written: bool)
        requires
            old(self).wf(),
            old(self)@.pipeline.sent < u64::MAX,
        ensures
            final(self).wf(),
            final(self).same_run(old(self)),
            final(self)@ == (RunModel {
                pipeline: if written {
                    PipelineModel {
                        sent: (old(self)@.pipeline.sent + 1) as u64,
                        ..old(self)@.pipeline
                    }
                } else {
                    old(self)@.pipeline.set_aside(message_id@)
                },
                ..old(self)@
            }),
    {
        if written {
            self.pipeline.written();
        } else {
            self.pipeline.write_failed(message_id);
            proof {
                lemma_set_aside_accounted(old(self)@, self@, message_id@, self.max_retries);
            }
        }
    }

    /// Takes in what came of sending a message once more, and tells for how many
    /// seconds to wait.
    pub fn resent(&mut self, outcome: &RetryOutcome) -> (r: Option<u64>)
        requires
            old(self).wf(),
            old(self)@.phase == Phase::Retrying,
            old(self)@.retry_at < old(self)@.retries.len(),
        ensures
            final(self).wf(),
            final(self).same_run(old(self)),
            ({
                let id = old(self)@.retries[old(self)@.retry_at].message_id;
                let acked = acknowledges(*outcome, id);
                &&& final(self)@ == old(self)@.after_resend(acked, old(self).retry_limit())
                &&& r == (if acked {
                    None
                } else {
                    Some(wait_after(old(self)@.attempt))
                })
            }),
    {
        assert(self.retry_at < self.retries.len());
        let id = self.retries[self.retry_at].message_id.clone();
        assert(self.retries.deep_view()[self.retry_at as int].message_id == id@);
        let ghost message = self.retries.deep_view()[self.retry_at as int];
        proof {
            self.history@ = History {
                resends: self.history@.resends.insert(message),
                ..self.history@
            };
            lemma_resent_accounted(
                old(self)@,
                old(self)@.after_resend(acknowledges(*outcome, id@), self.max_retries),
                acknowledges(*outcome, id@),
                self.max_retries,
            );
        }
        match after_retry(id.as_str(), self.attempt, self.max_retries, outcome) {
            RetryStep::Acknowledged => {
                self.retry_at = self.retry_at + 1;
                self.attempt = 0;
                proof {
                    self.history@ = History {
                        acked: self.history@.acked.insert(id@),
                        ..self.history@
                    };
                }
                None
            },
            RetryStep::Wait { secs, last } => {
                if last {
                    self.retry_at = self.retry_at + 1;
                    self.attempt = 0;
                    self.failed = self.failed + 1;
                    proof {
                        self.history@ = History {
                            lost: self.history@.lost.push(message),
                            ..self.history@
                        };
                    }
                } else {
                    self.attempt = self.attempt + 1;
                }
                Some(secs)
            },
        }
    }
}

} // verus!
