use crate::address::Address;
use vstd::prelude::*;

verus! {

/// Consecutive failures after which a peer is questionable.
pub const MAX_FAILURES: u32 = 3;

/// Seconds of silence after which a peer is questionable.
pub const STALE_AFTER: u64 = 900;

/// A UDP endpoint: an IPv6 address (IPv4 ones mapped into it) and a port.
#[derive(Clone, Copy, Debug, PartialEq, Eq, Hash)]
pub struct UdpEndpoint {
    pub ip: [u8; 16],
    pub port: u16,
}

/// How a peer can be reached.
#[derive(Clone, Copy, Debug, PartialEq, Eq, Hash)]
pub enum Transport {
    Udp(UdpEndpoint),
}

/// A peer: its identifier, the endpoints it can be reached at, and what is
/// known of its liveness.
#[derive(Debug)]
pub struct Node {
    pub address: Address,
    pub transports: Vec<Transport>,
    /// When the peer was last heard from, in seconds.
    pub last_seen: u64,
    /// Queries to the peer that went unanswered since it was last heard from.
    pub failures: u32,
}

/// What a peer record holds, as plain values.
pub struct NodeView {
    pub address: Address,
    pub transports: Seq<Transport>,
    pub last_seen: u64,
    pub failures: u32,
}

impl View for Node {
    type V = NodeView;

    open spec fn view(&self) -> NodeView {
        NodeView {
            address: self.address,
            transports: self.transports@,
            last_seen: self.last_seen,
            failures: self.failures,
        }
    }
}

/// The plain values of a sequence of peer records.
pub open spec fn views(s: Seq<Node>) -> Seq<NodeView> {
    s.map_values(|n: Node| n@)
}

/// A peer is questionable once too many queries to it went unanswered, or
/// once it has been silent for longer than the staleness window.
pub open spec fn questionable(n: NodeView, now: u64) -> bool {
    n.failures > MAX_FAILURES || (now >= n.last_seen && now - n.last_seen > STALE_AFTER)
}

impl Node {
    /// A peer first heard from at `now`, with no failures.
    pub fn new(address: Address, transports: Vec<Transport>, now: u64) -> (r: Node)
        requires
            transports@.len() > 0,
        ensures
            r@ == (NodeView { address, transports: transports@, last_seen: now, failures: 0 }),
    {
        Node { address, transports, last_seen: now, failures: 0 }
    }

    pub fn get_address(&self) -> (r: Address)
        ensures
            r == self.address,
    {
        self.address
    }

    /// Whether the peer is due for a liveness check at time `now`.
    pub fn is_questionable(&self, now: u64) -> (r: bool)
        ensures
            r == questionable(self@, now),
    {
        self.failures > MAX_FAILURES || (now >= self.last_seen && now - self.last_seen
            > STALE_AFTER)
    }

    /// The peer answered at time `now`: its silence and failures are forgotten.
    pub fn record_success(&mut self, now: u64)
        ensures
            final(self)@ == (NodeView { last_seen: now, failures: 0, ..old(self)@ }),
    {
        self.last_seen = now;
        self.failures = 0;
    }

    /// A query to the peer went unanswered.
    pub fn record_failure(&mut self)
        ensures
            final(self)@ == (NodeView {
                failures: if old(self).failures < u32::MAX {
                    (old(self).failures + 1) as u32
                } else {
                    u32::MAX
                },
                ..old(self)@
            }),
    {
        if self.failures < u32::MAX {
            self.failures = self.failures + 1;
        }
    }

    /// A copy of the record.
    pub fn duplicate(&self) -> (r: Node)
        ensures
            r@ == self@,
    {
        let mut transports: Vec<Transport> = Vec::new();
        let mut i: usize = 0;
        while i < self.transports.len()
            invariant
                i <= self.transports@.len(),
                transports@ == self.transports@.take(i as int),
            decreases self.transports@.len() - i,
        {
            transports.push(self.transports[i]);
            i = i + 1;
            assert(transports@ =~= self.transports@.take(i as int));
        }
        assert(transports@ =~= self.transports@);
        Node {
            address: self.address,
            transports,
            last_seen: self.last_seen,
            failures: self.failures,
        }
    }
}

} // verus!
