//! Limits on clients: how many connections they hold, and whether a request had
//! the tokens it needs.

use crate::config::RateLimitConfig;
use crate::directory::Directory;
use vstd::prelude::*;
use vstd::string::*;

verus! {

/// The outcome of a check against a limit.
#[derive(Clone, Copy, Debug, PartialEq, Eq, Structural)]
pub enum RateLimitResult {
    Allowed,
    RateLimited,
    ConnectionLimit,
}

impl RateLimitResult {
    /// Whether the check was passed.
    pub fn is_allowed(&self) -> (r: bool)
        ensures
            r == (*self == RateLimitResult::Allowed),
    {
        match self {
            RateLimitResult::Allowed => true,
            _ => false,
        }
    }
}

/// Open connections by address and by client.
#[verifier::ext_equal]
pub struct ConnectionsModel {
    pub by_ip: Map<Seq<char>, usize>,
    pub by_cn: Map<Seq<char>, usize>,
}

/// How many connections are counted under a name.
pub open spec fn count_of(counts: Map<Seq<char>, usize>, name: Seq<char>) -> usize {
    if counts.contains_key(name) {
        counts[name]
    } else {
        0
    }
}

/// With one connection more under a name.
pub open spec fn one_more(counts: Map<Seq<char>, usize>, name: Seq<char>) -> Map<Seq<char>, usize> {
    counts.insert(name, (count_of(counts, name) + 1) as usize)
}

/// With one connection less under a name; a name without connections is dropped.
pub open spec fn one_less(counts: Map<Seq<char>, usize>, name: Seq<char>) -> Map<Seq<char>, usize> {
    if count_of(counts, name) > 1 {
        counts.insert(name, (counts[name] - 1) as usize)
    } else {
        counts.remove(name)
    }
}

/// Whether every name that is counted has a connection, and no more than the
/// limit where there is one.
pub open spec fn within(counts: Map<Seq<char>, usize>, limit: usize) -> bool {
    forall|k: Seq<char>| #[trigger]
        counts.contains_key(k) ==> counts[k] >= 1 && (limit > 0 ==> counts[k] <= limit)
}

impl ConnectionsModel {
    /// After a connection was opened.
    pub open spec fn opened(self, cn: Seq<char>, ip: Seq<char>) -> ConnectionsModel {
        ConnectionsModel { by_ip: one_more(self.by_ip, ip), by_cn: one_more(self.by_cn, cn) }
    }

    /// After a connection was closed.
    pub open spec fn released(self, cn: Seq<char>, ip: Seq<char>) -> ConnectionsModel {
        ConnectionsModel { by_ip: one_less(self.by_ip, ip), by_cn: one_less(self.by_cn, cn) }
    }
}

/// A limit that applies, or zero where there is none.
pub open spec fn effective(enabled: bool, limit: usize) -> usize {
    if enabled {
        limit
    } else {
        0
    }
}

/// Counts open connections and holds them to their limits.
pub struct RateLimiter {
    enabled: bool,
    max_connections_per_ip: usize,
    max_connections_per_cn: usize,
    by_ip: Directory<String, usize>,
    by_cn: Directory<String, usize>,
}

impl View for RateLimiter {
    type V = ConnectionsModel;

    closed spec fn view(&self) -> ConnectionsModel {
        ConnectionsModel { by_ip: self.by_ip@, by_cn: self.by_cn@ }
    }
}

/// The count under a name.
fn count_in(counts: &Directory<String, usize>, name: &String) -> (r: usize)
    requires
        counts.wf(),
    ensures
        r == count_of(counts@, name@),
{
    match counts.get(name) {
        Some(n) => *n,
        None => 0,
    }
}

/// Counts one connection less under a name.
fn dec(counts: &mut Directory<String, usize>, name: &str)
    requires
        old(counts).wf(),
    ensures
        final(counts).wf(),
        final(counts)@ == one_less(old(counts)@, name@),
{
    let key = name.to_owned();
    let n: usize = count_in(counts, &key);
    if n > 1 {
        counts.insert(key, n - 1);
    } else {
        let _ = counts.remove(&key);
    }
}

impl RateLimiter {
    /// The limit on connections from one address, zero for none.
    pub closed spec fn ip_limit(&self) -> usize {
        effective(self.enabled, self.max_connections_per_ip)
    }

    /// The limit on connections of one client, zero for none.
    pub closed spec fn cn_limit(&self) -> usize {
        effective(self.enabled, self.max_connections_per_cn)
    }

    /// Whether requests are limited at all.
    pub closed spec fn limits_requests(&self) -> bool {
        self.enabled
    }

    /// Every count is positive and within its limit.
    pub closed spec fn wf(&self) -> bool {
        &&& self.by_ip.wf()
        &&& self.by_cn.wf()
        &&& within(self@.by_ip, self.ip_limit())
        &&& within(self@.by_cn, self.cn_limit())
    }

    /// No address and no client ever holds more connections than its limit.
    pub proof fn lemma_within_limits(&self)
        requires
            self.wf(),
        ensures
            within(self@.by_ip, self.ip_limit()),
            within(self@.by_cn, self.cn_limit()),
    {
    }

    /// A limiter without connections.
    pub fn new(config: &RateLimitConfig) -> (r: Self)
        ensures
            r.wf(),
            r@ == (ConnectionsModel { by_ip: Map::empty(), by_cn: Map::empty() }),
            r.ip_limit() == effective(config.enabled, config.max_connections_per_ip),
            r.cn_limit() == effective(config.enabled, config.max_connections_per_cn),
            r.limits_requests() == config.enabled,
    {
        RateLimiter {
            enabled: config.enabled,
            max_connections_per_ip: config.max_connections_per_ip,
            max_connections_per_cn: config.max_connections_per_cn,
            by_ip: Directory::new(),
            by_cn: Directory::new(),
        }
    }

    /// Whether a request may pass. It needs a token of the client's own, and one
    /// more if it publishes; the arguments say which of them were there.
    pub fn check(&self, is_publish: bool, global_token: bool, publish_token: bool) -> (r:
        RateLimitResult)
        ensures
            r == (if self.limits_requests() && (!global_token || (is_publish && !publish_token)) {
                RateLimitResult::RateLimited
            } else {
                RateLimitResult::Allowed
            }),
    {
        if !self.enabled {
            return RateLimitResult::Allowed;
        }
        if !global_token {
            return RateLimitResult::RateLimited;
        }
        if is_publish {
            if !publish_token {
                return RateLimitResult::RateLimited;
            }
        }
        RateLimitResult::Allowed
    }

    /// Whether a limit stands in the way of another connection.
    pub open spec fn is_full(&self, cn: Seq<char>, ip: Seq<char>) -> bool {
        ||| self.ip_limit() > 0 && count_of(self@.by_ip, ip) >= self.ip_limit()
        ||| self.cn_limit() > 0 && count_of(self@.by_cn, cn) >= self.cn_limit()
    }

    /// Whether one connection more can be counted.
    pub open spec fn can_count(&self, cn: Seq<char>, ip: Seq<char>) -> bool {
        count_of(self@.by_ip, ip) < usize::MAX && count_of(self@.by_cn, cn) < usize::MAX
    }

    /// Whether one connection more can be counted.
    pub fn counts_fit(&self, cn: &str, ip: &str) -> (r: bool)
        requires
            self.wf(),
        ensures
            r == self.can_count(cn@, ip@),
    {
        count_in(&self.by_ip, &ip.to_owned()) < usize::MAX && count_in(&self.by_cn, &cn.to_owned())
            < usize::MAX
    }

    /// Counts a new connection, unless a limit stands in the way.
    pub fn check_connection(&mut self, cn: &str, ip: &str) -> (r: RateLimitResult)
        requires
            old(self).wf(),
            old(self).can_count(cn@, ip@),
        ensures
            final(self).wf(),
            final(self).ip_limit() == old(self).ip_limit(),
            final(self).cn_limit() == old(self).cn_limit(),
            final(self).limits_requests() == old(self).limits_requests(),
            if old(self).is_full(cn@, ip@) {
                r == RateLimitResult::ConnectionLimit && final(self)@ == old(self)@
            } else {
                r == RateLimitResult::Allowed && final(self)@ == old(self)@.opened(cn@, ip@)
            },
    {
        let cn_key = cn.to_owned();
        let ip_key = ip.to_owned();
        let from_ip: usize = count_in(&self.by_ip, &ip_key);
        let of_cn: usize = count_in(&self.by_cn, &cn_key);
        if self.enabled && self.max_connections_per_ip > 0 && from_ip
            >= self.max_connections_per_ip {
            return RateLimitResult::ConnectionLimit;
        }
        if self.enabled && self.max_connections_per_cn > 0 && of_cn >= self.max_connections_per_cn {
            return RateLimitResult::ConnectionLimit;
        }
        self.by_ip.insert(ip_key, from_ip + 1);
        self.by_cn.insert(cn_key, of_cn + 1);
        RateLimitResult::Allowed
    }

    /// Counts a connection that was closed.
    pub fn release_connection(&mut self, cn: &str, ip: &str)
        requires
            old(self).wf(),
        ensures
            final(self).wf(),
            final(self).ip_limit() == old(self).ip_limit(),
            final(self).cn_limit() == old(self).cn_limit(),
            final(self).limits_requests() == old(self).limits_requests(),
            final(self)@ == old(self)@.released(cn@, ip@),
    {
        dec(&mut self.by_ip, ip);
        dec(&mut self.by_cn, cn);
    }

    /// The counts by address and by client.
    pub fn connection_stats(&self) -> (r: (Vec<(String, usize)>, Vec<(String, usize)>))
        requires
            self.wf(),
        ensures
            lists(r.0.deep_view(), self@.by_ip),
            lists(r.1.deep_view(), self@.by_cn),
    {
        (listed(&self.by_ip), listed(&self.by_cn))
    }
}

/// Whether a list holds the entries of a table, each once.
pub open spec fn lists(list: Seq<(Seq<char>, usize)>, counts: Map<Seq<char>, usize>) -> bool {
    &&& forall|i: int, j: int| 0 <= i < j < list.len() ==> list[i].0 != list[j].0
    &&& forall|i: int|
        0 <= i < list.len() ==> counts.contains_key((#[trigger] list[i]).0)
            && counts[list[i].0] == list[i].1
    &&& forall|k: Seq<char>| #[trigger]
        counts.contains_key(k) ==> list.contains((k, counts[k]))
}

/// The entries of a table.
fn listed(counts: &Directory<String, usize>) -> (r: Vec<(String, usize)>)
    requires
        counts.wf(),
    ensures
        lists(r.deep_view(), counts@),
{
    let mut out: Vec<(String, usize)> = Vec::new();
    let mut i: usize = 0;
    let ghost order = counts.order();
    proof {
        counts.lemma_order();
    }
    while i < counts.len()
        invariant
            counts.wf(),
            order == counts.order(),
            i <= order.len(),
            out@.len() == i,
            forall|j: int|
                0 <= j < i ==> (#[trigger] out@[j]).0@ == order[j] && out@[j].1 == counts@[order[j]],
        decreases order.len() - i,
    {
        out.push((counts.key_at(i).clone(), *counts.value_at(i)));
        i = i + 1;
    }
    proof {
        let list = out.deep_view();
        assert forall|j: int| 0 <= j < list.len() implies counts@.contains_key(
            (#[trigger] list[j]).0,
        ) && counts@[list[j].0] == list[j].1 by {
            assert(list[j] == (out@[j].0@, out@[j].1));
            assert(counts@.contains_key(order[j]));
        }
        assert forall|j: int, k: int| 0 <= j < k < list.len() implies list[j].0 != list[k].0 by {
            assert(list[j].0 == out@[j].0@);
            assert(list[k].0 == out@[k].0@);
            assert(order[j] != order[k]);
        }
        assert forall|k: Seq<char>| #[trigger] counts@.contains_key(k) implies list.contains(
            (k, counts@[k]),
        ) by {
            assert(order.contains(k));
            let j = choose|j: int| 0 <= j < order.len() && order[j] == k;
            assert(out@[j].0@ == k);
            assert(list[j] == (k, counts@[k]));
        }
    }
    out
}

/// Closing a connection undoes opening it.
pub proof fn law_release_undoes_connection(
    s: ConnectionsModel,
    cn: Seq<char>,
    ip: Seq<char>,
)
    requires
        within(s.by_ip, 0),
        within(s.by_cn, 0),
        count_of(s.by_ip, ip) < usize::MAX,
        count_of(s.by_cn, cn) < usize::MAX,
    ensures
        s.opened(cn, ip).released(cn, ip) == s,
{
    assert(one_less(one_more(s.by_ip, ip), ip) =~= s.by_ip);
    assert(one_less(one_more(s.by_cn, cn), cn) =~= s.by_cn);
}

/// Connections under other names are not touched.
pub proof fn law_other_connections_are_kept(
    s: ConnectionsModel,
    cn: Seq<char>,
    ip: Seq<char>,
    other: Seq<char>,
)
    requires
        other != cn,
        other != ip,
    ensures
        count_of(s.opened(cn, ip).by_ip, other) == count_of(s.by_ip, other),
        count_of(s.opened(cn, ip).by_cn, other) == count_of(s.by_cn, other),
        count_of(s.released(cn, ip).by_ip, other) == count_of(s.by_ip, other),
        count_of(s.released(cn, ip).by_cn, other) == count_of(s.by_cn, other),
{
}

/// A connection that is opened counts once more under its address and once more
/// under its client, and nowhere else; one that is closed counts once less, and a
/// name without connections is forgotten.
pub proof fn law_connections_are_counted(s: ConnectionsModel, cn: Seq<char>, ip: Seq<char>)
    requires
        s.by_ip.contains_key(ip) ==> 1 <= s.by_ip[ip] < usize::MAX,
        s.by_cn.contains_key(cn) ==> 1 <= s.by_cn[cn] < usize::MAX,
    ensures
        s.opened(cn, ip).by_ip == s.by_ip.insert(
            ip,
            if s.by_ip.contains_key(ip) {
                (s.by_ip[ip] + 1) as usize
            } else {
                1
            },
        ),
        s.opened(cn, ip).by_cn == s.by_cn.insert(
            cn,
            if s.by_cn.contains_key(cn) {
                (s.by_cn[cn] + 1) as usize
            } else {
                1
            },
        ),
        s.by_ip.contains_key(ip) && s.by_ip[ip] > 1 ==> s.released(cn, ip).by_ip == s.by_ip.insert(
            ip,
            (s.by_ip[ip] - 1) as usize,
        ),
        !(s.by_ip.contains_key(ip) && s.by_ip[ip] > 1) ==> s.released(cn, ip).by_ip
            == s.by_ip.remove(ip),
        s.by_cn.contains_key(cn) && s.by_cn[cn] > 1 ==> s.released(cn, ip).by_cn == s.by_cn.insert(
            cn,
            (s.by_cn[cn] - 1) as usize,
        ),
        !(s.by_cn.contains_key(cn) && s.by_cn[cn] > 1) ==> s.released(cn, ip).by_cn
            == s.by_cn.remove(cn),
{
}

/// A limit stands in the way of a connection if and only if its address or its
/// client has as many as the limit allows already; a limit of zero never does.
pub proof fn law_limits_stand_in_the_way_when_reached(
    limiter: RateLimiter,
    cn: Seq<char>,
    ip: Seq<char>,
)
    ensures
        limiter.is_full(cn, ip) <==> (limiter.ip_limit() != 0 && limiter@.by_ip.contains_key(ip)
            && limiter@.by_ip[ip] >= limiter.ip_limit()) || (limiter.cn_limit() != 0
            && limiter@.by_cn.contains_key(cn) && limiter@.by_cn[cn] >= limiter.cn_limit()),
        effective(true, limiter.ip_limit()) == limiter.ip_limit(),
        effective(false, limiter.ip_limit()) == 0,
{
}

/// A list of a table's entries names each name once, with its count, and no other name;
/// it is as long as the table is large.
pub proof fn law_listed_connections_are_all_connections(
    list: Seq<(Seq<char>, usize)>,
    counts: Map<Seq<char>, usize>,
)
    requires
        lists(list, counts),
    ensures
        forall|i: int|
            0 <= i < list.len() ==> counts.contains_key((#[trigger] list[i]).0)
                && counts[list[i].0] == list[i].1,
        forall|name: Seq<char>| #[trigger]
            counts.contains_key(name) ==> exists|i: int|
                0 <= i < list.len() && #[trigger] list[i] == (name, counts[name]),
        forall|i: int, j: int|
            0 <= i < j < list.len() ==> (#[trigger] list[i]).0 != (#[trigger] list[j]).0,
        list.len() == counts.dom().len(),
{
    let names = Seq::new(list.len(), |i: int| list[i].0);
    assert(names.no_duplicates());
    assert(names.to_set() =~= counts.dom()) by {
        assert forall|name: Seq<char>| names.to_set().contains(name) <==> #[trigger] counts.dom().contains(
            name,
        ) by {
            if names.contains(name) {
                let i = choose|i: int| 0 <= i < names.len() && names[i] == name;
                assert(counts.contains_key(list[i].0));
            }
            if counts.contains_key(name) {
                assert(list.contains((name, counts[name])));
                let i = choose|i: int| 0 <= i < list.len() && list[i] == (name, counts[name]);
                assert(names[i] == name);
            }
        }
    }
    names.unique_seq_to_set();
    assert forall|name: Seq<char>| #[trigger] counts.contains_key(name) implies exists|i: int|
        0 <= i < list.len() && #[trigger] list[i] == (name, counts[name]) by {
        assert(list.contains((name, counts[name])));
    }
}

} // verus!
