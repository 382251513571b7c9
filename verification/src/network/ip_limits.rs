//! Per-IP limit on inbound connections: a pending inbound connection is refused
//! when its IP address already holds the maximum number of connections.
//! Outbound connections are not counted.

use vstd::prelude::*;
use crate::network::addresses::{ip_of_multiaddr, multiaddr_ip};
use crate::assoc::{keys_unique, has_key, assoc_view, lemma_assoc_index, lemma_assoc_push,
    lemma_assoc_update, lemma_assoc_remove, lemma_assoc_len};

verus! {

/// An IP address.
#[derive(Copy, Clone, Debug, PartialEq, Eq, Structural)]
pub enum IpAddr {
    V4(u32),
    V6(u128),
}

/// The connection limit of an IP address was reached.
#[derive(Copy, Clone, Debug, PartialEq, Eq)]
pub struct IpLimitExceeded {
    pub ip: IpAddr,
    /// The connections the address already held.
    pub count: usize,
}

/// The per-IP connection limiter.
pub struct Behaviour {
    /// The IP address of each tracked connection, pending or established.
    connection_ips: Vec<(usize, IpAddr)>,
    /// The number of tracked connections of each IP address.
    connections_per_ip: Vec<(IpAddr, usize)>,
    /// The maximum number of connections per IP address.
    max_connections_per_ip: usize,
}

/// The number of connections of `ip` according to `counts`, zero when absent.
pub open spec fn count_of(counts: Map<IpAddr, usize>, ip: IpAddr) -> int {
    if counts.contains_key(ip) { counts[ip] as int } else { 0 }
}

/// The counts once a connection of `ip` is tracked.
pub open spec fn counts_after_track(counts: Map<IpAddr, usize>, ip: IpAddr) -> Map<IpAddr, usize> {
    counts.insert(ip, (count_of(counts, ip) + 1) as usize)
}

/// The counts once a connection of `ip` is no longer tracked: one less, and no
/// entry once none is left. An address without an entry keeps none.
pub open spec fn counts_after_untrack(counts: Map<IpAddr, usize>, ip: IpAddr) -> Map<IpAddr, usize> {
    if !counts.contains_key(ip) {
        counts
    } else if counts[ip] <= 1 {
        counts.remove(ip)
    } else {
        counts.insert(ip, (counts[ip] - 1) as usize)
    }
}

impl Behaviour {
    /// The IP address of each tracked connection.
    pub closed spec fn connections(&self) -> Map<usize, IpAddr> {
        assoc_view(self.connection_ips@)
    }

    /// The number of tracked connections of each IP address.
    pub closed spec fn counts(&self) -> Map<IpAddr, usize> {
        assoc_view(self.connections_per_ip@)
    }

    /// The maximum number of connections per IP address.
    pub closed spec fn max(&self) -> usize {
        self.max_connections_per_ip
    }

    /// The state invariant: one entry per connection and per address, and no
    /// address with a count of zero.
    pub closed spec fn wf(&self) -> bool {
        &&& keys_unique(self.connection_ips@)
        &&& keys_unique(self.connections_per_ip@)
        &&& forall|ip: IpAddr| #[trigger] self.counts().contains_key(ip) ==> self.counts()[ip] > 0
    }

    /// A limiter allowing `max_connections_per_ip` connections per IP address.
    pub fn new(max_connections_per_ip: usize) -> (out: Behaviour)
        ensures
            out.wf(),
            out.connections() == Map::<usize, IpAddr>::empty(),
            out.counts() == Map::<IpAddr, usize>::empty(),
            out.max() == max_connections_per_ip,
            counts_match(out.connections(), out.counts()),
    {
        let out = Behaviour {
            connection_ips: Vec::new(),
            connections_per_ip: Vec::new(),
            max_connections_per_ip,
        };
        assert(out.connections() =~= Map::<usize, IpAddr>::empty());
        assert(out.counts() =~= Map::<IpAddr, usize>::empty());
        assert(out.connections().dom() =~= Set::<usize>::empty());
        assert forall|ip: IpAddr| count_of(out.counts(), ip) == #[trigger] conns_of(out.connections(), ip).len() by {
            assert(conns_of(out.connections(), ip) =~= Set::<usize>::empty());
        }
        out
    }

    /// The number of addresses with tracked connections.
    pub fn tracked_ip_count(&self) -> (out: usize)
        requires
            self.wf(),
        ensures
            out == self.counts().dom().len(),
    {
        proof { self.lemma_counts_len(); }
        self.connections_per_ip.len()
    }

    /// The number of tracked connections.
    pub fn tracked_connection_count(&self) -> (out: usize)
        requires
            self.wf(),
        ensures
            out == self.connections().dom().len(),
    {
        proof { lemma_assoc_len(self.connection_ips@); }
        self.connection_ips.len()
    }

    proof fn lemma_counts_len(&self)
        requires
            self.wf(),
        ensures
            self.counts().dom().len() == self.connections_per_ip@.len(),
    {
        lemma_assoc_len(self.connections_per_ip@);
    }

    /// The number of tracked connections of `ip`.
    pub fn connection_count(&self, ip: IpAddr) -> (out: usize)
        requires
            self.wf(),
        ensures
            out == count_of(self.counts(), ip),
    {
        match self.find_ip(ip) {
            Some(j) => {
                proof { lemma_assoc_index(self.connections_per_ip@, j as int); }
                self.connections_per_ip[j].1
            },
            None => 0,
        }
    }

    /// The index of the entry of `ip` in the counts.
    fn find_ip(&self, ip: IpAddr) -> (out: Option<usize>)
        requires
            keys_unique(self.connections_per_ip@),
        ensures
            match out {
                Some(j) => j < self.connections_per_ip@.len() && self.connections_per_ip@[j as int].0 == ip,
                None => !has_key(self.connections_per_ip@, ip),
            },
    {
        let mut j: usize = 0;
        while j < self.connections_per_ip.len()
            invariant
                0 <= j <= self.connections_per_ip@.len(),
                forall|k: int| 0 <= k < j ==> (#[trigger] self.connections_per_ip@[k]).0 != ip,
            decreases self.connections_per_ip@.len() - j,
        {
            if self.connections_per_ip[j].0 == ip {
                return Some(j);
            }
            j += 1;
        }
        None
    }

    /// The index of the entry of connection `id`.
    fn find_connection(&self, id: usize) -> (out: Option<usize>)
        requires
            keys_unique(self.connection_ips@),
        ensures
            match out {
                Some(i) => i < self.connection_ips@.len() && self.connection_ips@[i as int].0 == id,
                None => !has_key(self.connection_ips@, id),
            },
    {
        let mut i: usize = 0;
        while i < self.connection_ips.len()
            invariant
                0 <= i <= self.connection_ips@.len(),
                forall|k: int| 0 <= k < i ==> (#[trigger] self.connection_ips@[k]).0 != id,
            decreases self.connection_ips@.len() - i,
        {
            if self.connection_ips[i].0 == id {
                return Some(i);
            }
            i += 1;
        }
        None
    }

    /// Tracks connection `id` from `ip`.
    fn track_connection(&mut self, id: usize, ip: IpAddr)
        requires
            old(self).wf(),
            count_of(old(self).counts(), ip) < usize::MAX,
        ensures
            final(self).wf(),
            final(self).connections() == old(self).connections().insert(id, ip),
            final(self).counts() == counts_after_track(old(self).counts(), ip),
            final(self).max() == old(self).max(),
    {
        match self.find_connection(id) {
            Some(i) => {
                proof { lemma_assoc_update(self.connection_ips@, i as int, ip); }
                self.connection_ips.set(i, (id, ip));
            },
            None => {
                proof { lemma_assoc_push(self.connection_ips@, id, ip); }
                self.connection_ips.push((id, ip));
            },
        }
        match self.find_ip(ip) {
            Some(j) => {
                let n = self.connections_per_ip[j].1;
                proof {
                    lemma_assoc_index(self.connections_per_ip@, j as int);
                    lemma_assoc_update(self.connections_per_ip@, j as int, (n + 1) as usize);
                }
                self.connections_per_ip.set(j, (ip, n + 1));
            },
            None => {
                proof { lemma_assoc_push(self.connections_per_ip@, ip, 1usize); }
                self.connections_per_ip.push((ip, 1));
            },
        }
    }

    /// Stops tracking connection `id`, if it is tracked: the count of its address
    /// drops by one, and the address is forgotten once it has no connection left.
    fn untrack_connection(&mut self, id: usize)
        requires
            old(self).wf(),
        ensures
            final(self).wf(),
            final(self).max() == old(self).max(),
            !old(self).connections().contains_key(id) ==> {
                &&& final(self).connections() == old(self).connections()
                &&& final(self).counts() == old(self).counts()
            },
            old(self).connections().contains_key(id) ==> {
                &&& final(self).connections() == old(self).connections().remove(id)
                &&& final(self).counts() == counts_after_untrack(old(self).counts(), old(self).connections()[id])
            },
    {
        let i = match self.find_connection(id) {
            Some(i) => i,
            None => return,
        };
        let ip = self.connection_ips[i].1;
        proof {
            lemma_assoc_index(self.connection_ips@, i as int);
            lemma_assoc_remove(self.connection_ips@, i as int);
        }
        self.connection_ips.remove(i);
        match self.find_ip(ip) {
            Some(j) => {
                let n = self.connections_per_ip[j].1;
                proof { lemma_assoc_index(self.connections_per_ip@, j as int); }
                let left = n.saturating_sub(1);
                let ghost pre = self.counts();
                assert(pre == old(self).counts());
                if left == 0 {
                    proof { lemma_assoc_remove(self.connections_per_ip@, j as int); }
                    self.connections_per_ip.remove(j);
                    assert forall|a: IpAddr| #[trigger] self.counts().contains_key(a) implies self.counts()[a] > 0 by {
                        assert(pre.contains_key(a) && pre[a] == self.counts()[a]);
                    }
                } else {
                    proof { lemma_assoc_update(self.connections_per_ip@, j as int, left); }
                    self.connections_per_ip.set(j, (ip, left));
                    assert forall|a: IpAddr| #[trigger] self.counts().contains_key(a) implies self.counts()[a] > 0 by {
                        if a != ip {
                            assert(pre.contains_key(a) && pre[a] == self.counts()[a]);
                        }
                    }
                }
            },
            None => {},
        }
    }

    /// Decides on a pending inbound connection `id` whose remote address is the
    /// multiaddress encoded by `remote_addr`: accepted when that address holds no IP
    /// address; otherwise refused when its IP address already holds the maximum
    /// number of connections, and accepted and tracked right away when not.
    pub fn handle_pending_inbound_connection(&mut self, id: usize, remote_addr: &[u8]) -> (out: Result<(), IpLimitExceeded>)
        requires
            old(self).wf(),
        ensures
            final(self).wf(),
            final(self).max() == old(self).max(),
            match multiaddr_ip(remote_addr@) {
                None => out is Ok && final(self).connections() == old(self).connections()
                    && final(self).counts() == old(self).counts(),
                Some(a) => if count_of(old(self).counts(), a) >= old(self).max() {
                    &&& out == Err::<(), IpLimitExceeded>(IpLimitExceeded {
                        ip: a,
                        count: count_of(old(self).counts(), a) as usize,
                    })
                    &&& final(self).connections() == old(self).connections()
                    &&& final(self).counts() == old(self).counts()
                } else {
                    &&& out is Ok
                    &&& final(self).connections() == old(self).connections().insert(id, a)
                    &&& final(self).counts() == counts_after_track(old(self).counts(), a)
                },
            },
            counts_match(old(self).connections(), old(self).counts()) && !old(self).connections().contains_key(id)
                ==> counts_match(final(self).connections(), final(self).counts()),
    {
        let ip = ip_of_multiaddr(remote_addr);
        let out = self.decide_inbound(id, ip);
        proof {
            if counts_match(old(self).connections(), old(self).counts()) && !old(self).connections().contains_key(id) {
                if let Some(a) = ip {
                    if count_of(old(self).counts(), a) < old(self).max() {
                        lemma_counts_match_after_track(old(self).connections(), old(self).counts(), id, a);
                    }
                }
            }
        }
        out
    }

    /// Decides on a pending inbound connection `id` from `ip`, as
    /// `handle_pending_inbound_connection` says.
    fn decide_inbound(&mut self, id: usize, ip: Option<IpAddr>) -> (out: Result<(), IpLimitExceeded>)
        requires
            old(self).wf(),
        ensures
            final(self).wf(),
            final(self).max() == old(self).max(),
            match ip {
                None => out is Ok && final(self).connections() == old(self).connections()
                    && final(self).counts() == old(self).counts(),
                Some(a) => if count_of(old(self).counts(), a) >= old(self).max() {
                    &&& out == Err::<(), IpLimitExceeded>(IpLimitExceeded {
                        ip: a,
                        count: count_of(old(self).counts(), a) as usize,
                    })
                    &&& final(self).connections() == old(self).connections()
                    &&& final(self).counts() == old(self).counts()
                } else {
                    &&& out is Ok
                    &&& final(self).connections() == old(self).connections().insert(id, a)
                    &&& final(self).counts() == counts_after_track(old(self).counts(), a)
                },
            },
    {
        let a = match ip {
            None => return Ok(()),
            Some(a) => a,
        };
        let count = self.connection_count(a);
        if count >= self.max_connections_per_ip {
            return Err(IpLimitExceeded { ip: a, count });
        }
        self.track_connection(id, a);
        Ok(())
    }

    /// Handles a closed connection.
    pub fn on_connection_closed(&mut self, id: usize)
        requires
            old(self).wf(),
        ensures
            final(self).wf(),
            final(self).max() == old(self).max(),
            untracked(*old(self), *final(self), id),
            !final(self).connections().contains_key(id),
            counts_match(old(self).connections(), old(self).counts())
                ==> counts_match(final(self).connections(), final(self).counts()),
    {
        self.untrack_connection(id);
        proof {
            if counts_match(old(self).connections(), old(self).counts()) && old(self).connections().contains_key(id) {
                lemma_counts_match_after_untrack(old(self).connections(), old(self).counts(), id);
            }
        }
    }

    /// Handles a connection that failed before it was established.
    pub fn on_listen_failure(&mut self, id: usize)
        requires
            old(self).wf(),
        ensures
            final(self).wf(),
            final(self).max() == old(self).max(),
            untracked(*old(self), *final(self), id),
            !final(self).connections().contains_key(id),
            counts_match(old(self).connections(), old(self).counts())
                ==> counts_match(final(self).connections(), final(self).counts()),
    {
        self.untrack_connection(id);
        proof {
            if counts_match(old(self).connections(), old(self).counts()) && old(self).connections().contains_key(id) {
                lemma_counts_match_after_untrack(old(self).connections(), old(self).counts(), id);
            }
        }
    }
}

/// What no longer tracking connection `id` does to the limiter.
pub open spec fn untracked(b0: Behaviour, b1: Behaviour, id: usize) -> bool {
    if b0.connections().contains_key(id) {
        &&& b1.connections() == b0.connections().remove(id)
        &&& b1.counts() == counts_after_untrack(b0.counts(), b0.connections()[id])
    } else {
        &&& b1.connections() == b0.connections()
        &&& b1.counts() == b0.counts()
    }
}

/// Tracking a new connection and then seeing it close leaves the limiter as it was,
/// provided no address had a count of zero.
pub proof fn lemma_track_then_untrack(
    conns: Map<usize, IpAddr>,
    counts: Map<IpAddr, usize>,
    id: usize,
    ip: IpAddr,
)
    requires
        !conns.contains_key(id),
        forall|a: IpAddr| #[trigger] counts.contains_key(a) ==> counts[a] > 0,
        count_of(counts, ip) < usize::MAX,
    ensures
        conns.insert(id, ip).remove(id) == conns,
        counts_after_untrack(counts_after_track(counts, ip), conns.insert(id, ip)[id]) == counts,
{
    assert(conns.insert(id, ip).remove(id) =~= conns);
    if counts.contains_key(ip) {
        assert(counts_after_untrack(counts_after_track(counts, ip), ip) =~= counts);
    } else {
        assert(counts_after_untrack(counts_after_track(counts, ip), ip) =~= counts);
    }
}

/// The tracked connections of address `ip`.
pub open spec fn conns_of(conns: Map<usize, IpAddr>, ip: IpAddr) -> Set<usize> {
    conns.dom().filter(|id: usize| conns[id] == ip)
}

/// Whether the count of every address is the number of tracked connections it has.
pub open spec fn counts_match(conns: Map<usize, IpAddr>, counts: Map<IpAddr, usize>) -> bool {
    &&& conns.dom().finite()
    &&& forall|ip: IpAddr| count_of(counts, ip) == #[trigger] conns_of(conns, ip).len()
}

/// Tracking a connection that is not tracked yet keeps every address's count equal
/// to the number of its tracked connections. (Tracking a connection id that is
/// already tracked under another address does not: the old address keeps its
/// count.)
pub proof fn lemma_counts_match_after_track(
    conns: Map<usize, IpAddr>,
    counts: Map<IpAddr, usize>,
    id: usize,
    ip: IpAddr,
)
    requires
        counts_match(conns, counts),
        !conns.contains_key(id),
        count_of(counts, ip) < usize::MAX,
    ensures
        counts_match(conns.insert(id, ip), counts_after_track(counts, ip)),
{
    broadcast use vstd::set::group_set_axioms;
    let c2 = conns.insert(id, ip);
    assert(c2.dom() =~= conns.dom().insert(id));
    assert forall|a: IpAddr| count_of(counts_after_track(counts, ip), a) == #[trigger] conns_of(c2, a).len() by {
        conns.dom().lemma_len_filter(|x: usize| conns[x] == a);
        if a == ip {
            assert(conns_of(c2, a) =~= conns_of(conns, a).insert(id));
            assert(!conns_of(conns, a).contains(id));
        } else {
            assert(conns_of(c2, a) =~= conns_of(conns, a));
        }
        assert(count_of(counts, a) == conns_of(conns, a).len());
    }
}

/// Untracking a tracked connection keeps every address's count equal to the
/// number of its tracked connections.
pub proof fn lemma_counts_match_after_untrack(
    conns: Map<usize, IpAddr>,
    counts: Map<IpAddr, usize>,
    id: usize,
)
    requires
        counts_match(conns, counts),
        conns.contains_key(id),
    ensures
        counts_match(conns.remove(id), counts_after_untrack(counts, conns[id])),
{
    broadcast use vstd::set::group_set_axioms;
    let ip = conns[id];
    let c2 = conns.remove(id);
    assert(c2.dom() =~= conns.dom().remove(id));
    conns.dom().lemma_len_filter(|x: usize| conns[x] == ip);
    assert(conns_of(conns, ip).contains(id));
    assert(count_of(counts, ip) == conns_of(conns, ip).len());
    assert(conns_of(conns, ip).len() >= 1) by {
        assert(conns_of(conns, ip).remove(id).len() + 1 == conns_of(conns, ip).len());
    }
    assert forall|a: IpAddr| count_of(counts_after_untrack(counts, ip), a) == #[trigger] conns_of(c2, a).len() by {
        conns.dom().lemma_len_filter(|x: usize| conns[x] == a);
        assert(count_of(counts, a) == conns_of(conns, a).len());
        if a == ip {
            assert(conns_of(c2, a) =~= conns_of(conns, a).remove(id));
        } else {
            assert(conns_of(c2, a) =~= conns_of(conns, a));
        }
    }
}

} // verus!
