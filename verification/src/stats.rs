//! Packet and byte counts of a connection.

use vstd::prelude::*;

verus! {

/// The counts that the transport keeps of a connection.
#[derive(Debug, Clone, Copy, PartialEq, Eq, Structural)]
pub struct ConnectionStats {
    pub recv_count: u64,
    pub recv_bytes: u64,
    pub sent_count: u64,
    pub sent_bytes: u64,
    pub lost_count: u64,
    pub lost_bytes: u64,
}

/// No packets.
pub open spec fn no_stats() -> ConnectionStats {
    ConnectionStats {
        recv_count: 0,
        recv_bytes: 0,
        sent_count: 0,
        sent_bytes: 0,
        lost_count: 0,
        lost_bytes: 0,
    }
}

/// The sums fit.
pub open spec fn stats_fit(a: ConnectionStats, b: ConnectionStats) -> bool {
    &&& a.recv_count + b.recv_count <= u64::MAX
    &&& a.recv_bytes + b.recv_bytes <= u64::MAX
    &&& a.sent_count + b.sent_count <= u64::MAX
    &&& a.sent_bytes + b.sent_bytes <= u64::MAX
    &&& a.lost_count + b.lost_count <= u64::MAX
    &&& a.lost_bytes + b.lost_bytes <= u64::MAX
}

/// Both together.
pub open spec fn stats_sum(a: ConnectionStats, b: ConnectionStats) -> ConnectionStats {
    ConnectionStats {
        recv_count: (a.recv_count + b.recv_count) as u64,
        recv_bytes: (a.recv_bytes + b.recv_bytes) as u64,
        sent_count: (a.sent_count + b.sent_count) as u64,
        sent_bytes: (a.sent_bytes + b.sent_bytes) as u64,
        lost_count: (a.lost_count + b.lost_count) as u64,
        lost_bytes: (a.lost_bytes + b.lost_bytes) as u64,
    }
}

impl Default for ConnectionStats {
    fn default() -> (r: Self)
        ensures
            r == no_stats(),
    {
        ConnectionStats {
            recv_count: 0,
            recv_bytes: 0,
            sent_count: 0,
            sent_bytes: 0,
            lost_count: 0,
            lost_bytes: 0,
        }
    }
}

/// Adds the counts of one connection to a total.
pub fn accum_conn_stats(total: &mut ConnectionStats, one: &ConnectionStats)
    requires
        stats_fit(*old(total), *one),
    ensures
        *final(total) == stats_sum(*old(total), *one),
{
    total.recv_count += one.recv_count;
    total.sent_count += one.sent_count;
    total.lost_count += one.lost_count;
    total.recv_bytes += one.recv_bytes;
    total.sent_bytes += one.sent_bytes;
    total.lost_bytes += one.lost_bytes;
}

} // verus!
