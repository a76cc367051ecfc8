//! Queues with their messages and waiting consumers.

use crate::broker::message::{MessageStatus, StatusModel};
use crate::seqs::lemma_filter_push;
use std::collections::VecDeque;
use vstd::prelude::*;

verus! {

/// A queue: its messages, oldest first, and its consumers, next one first.
pub struct Queue {
    pub name: String,
    pub messages: VecDeque<MessageStatus>,
    pub consumers: Vec<u64>,
}

/// A queue as mathematical values.
#[verifier::ext_equal]
pub struct QueueModel {
    pub name: Seq<char>,
    pub messages: Seq<StatusModel>,
    pub consumers: Seq<u64>,
}

impl DeepView for Queue {
    type V = QueueModel;

    open spec fn deep_view(&self) -> QueueModel {
        QueueModel {
            name: self.name@,
            messages: self.messages.deep_view(),
            consumers: self.consumers@,
        }
    }
}

/// Which messages are not the given one.
pub open spec fn is_other(id: u128) -> spec_fn(StatusModel) -> bool {
    |m: StatusModel| m.message_id != id
}

impl Queue {
    /// A queue without messages and consumers.
    pub fn new(name: String) -> (r: Self)
        ensures
            r.deep_view() == (QueueModel {
                name: name@,
                messages: Seq::empty(),
                consumers: Seq::empty(),
            }),
    {
        let r = Queue { name, messages: VecDeque::new(), consumers: Vec::new() };
        assert(r.messages.deep_view() =~= Seq::<StatusModel>::empty());
        r
    }

    /// Puts a message at the end.
    pub fn push(&mut self, message: MessageStatus)
        ensures
            final(self).deep_view() == (QueueModel {
                messages: old(self).deep_view().messages.push(message.deep_view()),
                ..old(self).deep_view()
            }),
    {
        self.messages.push_back(message);
        assert(self.messages.deep_view() =~= old(self).messages.deep_view().push(
            message.deep_view(),
        ));
    }

    /// Puts a message at the front.
    pub fn push_front(&mut self, message: MessageStatus)
        ensures
            final(self).deep_view() == (QueueModel {
                messages: seq![message.deep_view()] + old(self).deep_view().messages,
                ..old(self).deep_view()
            }),
    {
        self.messages.push_front(message);
        assert(self.messages.deep_view() =~= seq![message.deep_view()]
            + old(self).messages.deep_view());
    }

    /// Takes the oldest message.
    pub fn pop(&mut self) -> (r: Option<MessageStatus>)
        ensures
            match r {
                Some(m) => {
                    &&& old(self).deep_view().messages.len() > 0
                    &&& m.deep_view() == old(self).deep_view().messages[0]
                    &&& final(self).deep_view() == (QueueModel {
                        messages: old(self).deep_view().messages.skip(1),
                        ..old(self).deep_view()
                    })
                },
                None => {
                    &&& old(self).deep_view().messages.len() == 0
                    &&& final(self).deep_view() == old(self).deep_view()
                },
            },
    {
        let ghost before = self.messages.deep_view();
        let r = self.messages.pop_front();
        proof {
            if r is Some {
                assert(self.messages.deep_view() =~= before.skip(1));
                assert(r->Some_0.deep_view() == before[0]);
            } else {
                assert(self.messages.deep_view() =~= before);
            }
        }
        r
    }

    /// Takes the next consumer.
    pub fn next_consumer(&mut self) -> (r: Option<u64>)
        ensures
            match r {
                Some(c) => {
                    &&& old(self).deep_view().consumers.len() > 0
                    &&& c == old(self).deep_view().consumers[0]
                    &&& final(self).deep_view() == (QueueModel {
                        consumers: old(self).deep_view().consumers.skip(1),
                        ..old(self).deep_view()
                    })
                },
                None => {
                    &&& old(self).deep_view().consumers.len() == 0
                    &&& final(self).deep_view() == old(self).deep_view()
                },
            },
    {
        if self.consumers.len() == 0 {
            return None;
        }
        let c: u64 = self.consumers.remove(0);
        assert(self.consumers@ =~= old(self).consumers@.skip(1));
        Some(c)
    }

    /// Drops every copy of a message.
    pub fn drop_message(&mut self, id: u128)
        ensures
            final(self).deep_view() == (QueueModel {
                messages: old(self).deep_view().messages.filter(is_other(id)),
                ..old(self).deep_view()
            }),
    {
        let n: usize = self.messages.len();
        let mut kept: VecDeque<MessageStatus> = VecDeque::new();
        let mut i: usize = 0;
        let ghost p = is_other(id);
        let ghost all = self.messages.deep_view();
        assert(self.messages@ =~= self.messages@.skip(0));
        assert(kept.deep_view() =~= all.take(0).filter(p));
        while i < n
            invariant
                i <= n,
                n == all.len(),
                p == is_other(id),
                all == old(self).messages.deep_view(),
                n == old(self).messages@.len(),
                self.name == old(self).name,
                self.consumers == old(self).consumers,
                self.messages@ == old(self).messages@.skip(i as int),
                kept.deep_view() == all.take(i as int).filter(p),
            decreases n - i,
        {
            let ghost before = kept.deep_view();
            match self.messages.pop_front() {
                Some(message) => {
                    proof {
                        assert(message == old(self).messages@[i as int]);
                        assert(message.deep_view() == all[i as int]);
                        lemma_filter_push(all.take(i as int), all[i as int], p);
                        assert(all.take(i + 1) =~= all.take(i as int).push(all[i as int]));
                        assert(self.messages@ =~= old(self).messages@.skip(i + 1));
                    }
                    if message.message_id != id {
                        kept.push_back(message);
                        assert(kept.deep_view() =~= before.push(message.deep_view()));
                    }
                },
                None => {},
            }
            i = i + 1;
        }
        assert(all.take(n as int) =~= all);
        self.messages = kept;
    }
}

} // verus!
