//! When clients were last heard of. Times are nanoseconds of the broker's clock.

use crate::directory::Directory;
use crate::seqs::{lemma_filter_members, lemma_filter_no_duplicates, lemma_filter_push, lemma_to_set_push};
use vstd::prelude::*;
use vstd::string::*;

verus! {

/// How long ago something was; nothing is in the future.
pub open spec fn elapsed(now: u128, then: u128) -> int {
    if now >= then {
        now - then
    } else {
        0
    }
}

/// Whether a client has been silent for longer than the timeout.
pub open spec fn timed_out(now: u128, then: u128, timeout: u128) -> bool {
    elapsed(now, then) > timeout
}

/// Whether a client has been heard of within the timeout.
pub open spec fn is_fresh(now: u128, then: u128, timeout: u128) -> bool {
    elapsed(now, then) < timeout
}

/// The clients that have been silent for too long.
pub open spec fn silent(beats: Map<Seq<char>, u128>, now: u128, timeout: u128) -> Set<Seq<char>> {
    Set::new(|c: Seq<char>| beats.contains_key(c) && timed_out(now, beats[c], timeout))
}

/// The clients that have been heard of.
pub open spec fn fresh(beats: Map<Seq<char>, u128>, now: u128, timeout: u128) -> Set<Seq<char>> {
    Set::new(|c: Seq<char>| beats.contains_key(c) && is_fresh(now, beats[c], timeout))
}

fn since(now: u128, then: u128) -> (r: u128)
    ensures
        r == elapsed(now, then),
{
    if now >= then {
        now - then
    } else {
        0
    }
}

/// Remembers when each client was last heard of.
pub struct HeartbeatMonitor {
    heartbeats: Directory<String, u128>,
    timeout: u128,
}

impl View for HeartbeatMonitor {
    type V = Map<Seq<char>, u128>;

    closed spec fn view(&self) -> Map<Seq<char>, u128> {
        self.heartbeats@
    }
}

impl HeartbeatMonitor {
    /// The table is well-formed.
    pub closed spec fn wf(&self) -> bool {
        self.heartbeats.wf()
    }

    /// How long a client may be silent, in nanoseconds.
    pub closed spec fn limit(&self) -> u128 {
        self.timeout
    }

    /// A monitor that knows no client.
    pub fn new(timeout_seconds: u64) -> (r: Self)
        ensures
            r.wf(),
            r@ == Map::<Seq<char>, u128>::empty(),
            r.limit() == timeout_seconds * 1_000_000_000,
    {
        let timeout: u128 = timeout_seconds as u128 * 1_000_000_000;
        HeartbeatMonitor { heartbeats: Directory::new(), timeout }
    }

    /// Notes that a client was heard of.
    pub fn record_heartbeat(&mut self, client_id: &str, now: u128)
        requires
            old(self).wf(),
        ensures
            final(self).wf(),
            final(self).limit() == old(self).limit(),
            final(self)@ == old(self)@.insert(client_id@, now),
    {
        self.heartbeats.insert(client_id.to_owned(), now);
    }

    /// Whether a client was heard of within the timeout.
    pub fn is_alive(&self, client_id: &str, now: u128) -> (r: bool)
        requires
            self.wf(),
        ensures
            r == fresh(self@, now, self.limit()).contains(client_id@),
    {
        match self.heartbeats.get(&client_id.to_owned()) {
            Some(then) => since(now, *then) < self.timeout,
            None => false,
        }
    }

    /// Forgets a client.
    pub fn remove_client(&mut self, client_id: &str)
        requires
            old(self).wf(),
        ensures
            final(self).wf(),
            final(self).limit() == old(self).limit(),
            final(self)@ == old(self)@.remove(client_id@),
    {
        let _ = self.heartbeats.remove(&client_id.to_owned());
    }

    /// Forgets the clients that have been silent for too long, and lists them.
    pub fn sweep(&mut self, now: u128) -> (r: Vec<String>)
        requires
            old(self).wf(),
        ensures
            final(self).wf(),
            final(self).limit() == old(self).limit(),
            r.deep_view().no_duplicates(),
            r.deep_view().to_set() == silent(old(self)@, now, old(self).limit()),
            final(self)@ == old(self)@.remove_keys(silent(old(self)@, now, old(self).limit())),
    {
        let gone = self.timed_out_clients(now);
        let ghost all = gone.deep_view();
        let mut i: usize = 0;
        assert(self@ =~= old(self)@.remove_keys(all.take(0).to_set()));
        while i < gone.len()
            invariant
                self.wf(),
                self.limit() == old(self).limit(),
                all == gone.deep_view(),
                i <= all.len(),
                self@ == old(self)@.remove_keys(all.take(i as int).to_set()),
            decreases all.len() - i,
        {
            self.remove_client(gone[i].as_str());
            proof {
                lemma_to_set_push(all.take(i as int), all[i as int]);
                assert(all.take(i + 1) =~= all.take(i as int).push(all[i as int]));
                assert(self@ =~= old(self)@.remove_keys(all.take(i + 1).to_set()));
            }
            i = i + 1;
        }
        assert(all.take(all.len() as int) =~= all);
        gone
    }

    fn timed_out_clients(&self, now: u128) -> (r: Vec<String>)
        requires
            self.wf(),
        ensures
            r.deep_view().no_duplicates(),
            r.deep_view().to_set() == silent(self@, now, self.limit()),
    {
        let ghost order = self.heartbeats.order();
        let ghost p = |c: Seq<char>| timed_out(now, self@[c], self.limit());
        proof {
            self.heartbeats.lemma_order();
            lemma_filter_no_duplicates(order, p);
            lemma_filter_members(order, p);
        }
        let mut out: Vec<String> = Vec::new();
        let mut i: usize = 0;
        assert(out.deep_view() =~= order.take(0).filter(p));
        while i < self.heartbeats.len()
            invariant
                self.wf(),
                order == self.heartbeats.order(),
                p == (|c: Seq<char>| timed_out(now, self@[c], self.limit())),
                i <= order.len(),
                out.deep_view() == order.take(i as int).filter(p),
            decreases order.len() - i,
        {
            let ghost before = out.deep_view();
            proof {
                lemma_filter_push(order.take(i as int), order[i as int], p);
                assert(order.take(i + 1) =~= order.take(i as int).push(order[i as int]));
            }
            if since(now, *self.heartbeats.value_at(i)) > self.timeout {
                out.push(self.heartbeats.key_at(i).clone());
                assert(out.deep_view() =~= before.push(order[i as int]));
            }
            i = i + 1;
        }
        proof {
            assert(order.take(order.len() as int) =~= order);
            assert(order.filter(p).to_set() =~= silent(self@, now, self.limit()));
        }
        out
    }

    /// How many clients are known, and how many of them were heard of within the
    /// timeout.
    pub fn get_stats(&self, now: u128) -> (r: (usize, usize))
        requires
            self.wf(),
        ensures
            r.0 == self@.dom().len(),
            r.1 == fresh(self@, now, self.limit()).len(),
    {
        let ghost order = self.heartbeats.order();
        let ghost p = |c: Seq<char>| is_fresh(now, self@[c], self.limit());
        proof {
            self.heartbeats.lemma_order();
            lemma_filter_no_duplicates(order, p);
            lemma_filter_members(order, p);
        }
        let total: usize = self.heartbeats.len();
        let mut alive: usize = 0;
        let mut i: usize = 0;
        assert(order.take(0).filter(p) =~= Seq::<Seq<char>>::empty());
        while i < total
            invariant
                self.wf(),
                order == self.heartbeats.order(),
                p == (|c: Seq<char>| is_fresh(now, self@[c], self.limit())),
                total == order.len(),
                i <= total,
                alive <= i,
                alive == order.take(i as int).filter(p).len(),
            decreases total - i,
        {
            proof {
                lemma_filter_push(order.take(i as int), order[i as int], p);
                assert(order.take(i + 1) =~= order.take(i as int).push(order[i as int]));
            }
            if since(now, *self.heartbeats.value_at(i)) < self.timeout {
                alive = alive + 1;
            }
            i = i + 1;
        }
        proof {
            assert(order.take(order.len() as int) =~= order);
            assert(order.filter(p).to_set() =~= fresh(self@, now, self.limit()));
            order.filter(p).unique_seq_to_set();
        }
        (total, alive)
    }
}

/// A client that was just heard of is alive, and no sweep before the timeout
/// forgets it.
pub proof fn law_recorded_client_is_alive(
    beats: Map<Seq<char>, u128>,
    client: Seq<char>,
    then: u128,
    now: u128,
    timeout: u128,
)
    requires
        elapsed(now, then) < timeout,
    ensures
        fresh(beats.insert(client, then), now, timeout).contains(client),
        !silent(beats.insert(client, then), now, timeout).contains(client),
{
}

/// After a sweep no client is overdue, and no client that is alive was lost.
pub proof fn law_sweep_leaves_no_silent_client(
    beats: Map<Seq<char>, u128>,
    now: u128,
    timeout: u128,
)
    ensures
        ({
            let after = beats.remove_keys(silent(beats, now, timeout));
            &&& silent(after, now, timeout) == Set::<Seq<char>>::empty()
            &&& fresh(after, now, timeout) == fresh(beats, now, timeout)
        }),
{
    let after = beats.remove_keys(silent(beats, now, timeout));
    assert(silent(after, now, timeout) =~= Set::<Seq<char>>::empty());
    assert(fresh(after, now, timeout) =~= fresh(beats, now, timeout));
}

/// A client counts as silent once more time than the timeout has passed since it
/// was heard of, and as alive while less has; one that was never heard of is
/// neither.
pub proof fn law_silence_is_measured_from_the_last_sign(
    beats: Map<Seq<char>, u128>,
    client: Seq<char>,
    now: u128,
    timeout: u128,
)
    ensures
        silent(beats, now, timeout).contains(client) <==> beats.contains_key(client) && now
            - beats[client] > timeout,
        fresh(beats, now, timeout).contains(client) <==> beats.contains_key(client) && timeout > 0
            && now - beats[client] < timeout,
{
}

/// A sweep forgets the clients that are overdue, and no other.
pub proof fn law_sweep_forgets_overdue_clients_only(
    beats: Map<Seq<char>, u128>,
    client: Seq<char>,
    now: u128,
    timeout: u128,
)
    ensures
        ({
            let after = beats.remove_keys(silent(beats, now, timeout));
            &&& after.contains_key(client) <==> beats.contains_key(client) && now - beats[client]
                <= timeout
            &&& after.contains_key(client) ==> after[client] == beats[client]
        }),
{
}

} // verus!
