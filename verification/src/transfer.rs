//! How many bytes one connection carried.

use vstd::prelude::*;

verus! {

/// The bytes that went through a tunnel, by direction.
#[derive(Clone, Copy)]
pub struct TransferStats {
    pub client_to_upstream: u64,
    pub upstream_to_client: u64,
}

/// No bytes in either direction.
pub open spec fn no_transfer() -> TransferStats {
    TransferStats { client_to_upstream: 0, upstream_to_client: 0 }
}

impl Default for TransferStats {
    fn default() -> (r: TransferStats)
        ensures
            r == no_transfer(),
    {
        TransferStats { client_to_upstream: 0, upstream_to_client: 0 }
    }
}

/// Two transfers taken together.
pub open spec fn together(a: TransferStats, b: TransferStats) -> TransferStats {
    TransferStats {
        client_to_upstream: (a.client_to_upstream + b.client_to_upstream) as u64,
        upstream_to_client: (a.upstream_to_client + b.upstream_to_client) as u64,
    }
}

/// Transfers add up, direction by direction, in any order; without any bytes a
/// transfer adds nothing.
pub proof fn law_transfers_add_up(a: TransferStats, b: TransferStats)
    requires
        a.client_to_upstream + b.client_to_upstream <= u64::MAX,
        a.upstream_to_client + b.upstream_to_client <= u64::MAX,
    ensures
        together(a, b).client_to_upstream - a.client_to_upstream == b.client_to_upstream,
        together(a, b).upstream_to_client - a.upstream_to_client == b.upstream_to_client,
        together(a, b) == together(b, a),
        together(a, no_transfer()) == a,
{
}

impl TransferStats {
    /// Adds the bytes of another transfer.
    pub fn add(&mut self, other: TransferStats)
        requires
            old(self).client_to_upstream + other.client_to_upstream <= u64::MAX,
            old(self).upstream_to_client + other.upstream_to_client <= u64::MAX,
        ensures
            final(self).client_to_upstream == old(self).client_to_upstream
                + other.client_to_upstream,
            final(self).upstream_to_client == old(self).upstream_to_client
                + other.upstream_to_client,
            *final(self) == together(*old(self), other),
    {
        self.client_to_upstream = self.client_to_upstream + other.client_to_upstream;
        self.upstream_to_client = self.upstream_to_client + other.upstream_to_client;
    }
}

/// One of the two ways through a tunnel.
#[derive(Clone, Copy, PartialEq, Eq, Structural)]
pub enum Direction {
    ClientToUpstream,
    UpstreamToClient,
}

/// The counters of a tunnel that is open. They count modulo 2 to the 64th.
pub struct TransferCounters {
    pub client_to_upstream: u64,
    pub upstream_to_client: u64,
}

/// The counters after `n` more bytes went in one direction.
pub open spec fn carried(c: TransferStats, direction: Direction, n: u64) -> TransferStats {
    match direction {
        Direction::ClientToUpstream => TransferStats {
            client_to_upstream: ((c.client_to_upstream + n) % (u64::MAX + 1)) as u64,
            ..c
        },
        Direction::UpstreamToClient => TransferStats {
            upstream_to_client: ((c.upstream_to_client + n) % (u64::MAX + 1)) as u64,
            ..c
        },
    }
}

impl View for TransferCounters {
    type V = TransferStats;

    open spec fn view(&self) -> TransferStats {
        TransferStats {
            client_to_upstream: self.client_to_upstream,
            upstream_to_client: self.upstream_to_client,
        }
    }
}

impl Default for TransferCounters {
    fn default() -> (r: TransferCounters)
        ensures
            r@ == no_transfer(),
    {
        TransferCounters { client_to_upstream: 0, upstream_to_client: 0 }
    }
}

impl TransferCounters {
    /// Counts `n` more bytes in one direction.
    pub fn count(&mut self, direction: Direction, n: u64)
        ensures
            final(self)@ == carried(old(self)@, direction, n),
    {
        match direction {
            Direction::ClientToUpstream => {
                self.client_to_upstream = self.client_to_upstream.wrapping_add(n);
            },
            Direction::UpstreamToClient => {
                self.upstream_to_client = self.upstream_to_client.wrapping_add(n);
            },
        }
    }

    /// Reads the counters.
    pub fn snapshot(&self) -> (r: TransferStats)
        ensures
            r == self@,
    {
        TransferStats {
            client_to_upstream: self.client_to_upstream,
            upstream_to_client: self.upstream_to_client,
        }
    }
}

} // verus!
