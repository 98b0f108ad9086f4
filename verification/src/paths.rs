//! The paths of a multipath connection, as far as the schedulers read them.

use vstd::prelude::*;

verus! {

/// Why no path was selected.
#[derive(Debug, Clone, Copy, PartialEq, Eq, Structural)]
pub enum Error {
    /// No path can send now.
    Done,
}

/// One path. Times are in nanoseconds.
#[derive(Debug)]
pub struct Path {
    pub id: usize,
    /// Validated and in use.
    pub active: bool,
    /// The congestion window admits another packet.
    pub can_send: bool,
    pub smoothed_rtt: u64,
    pub min_rtt: u64,
    pub latest_rtt: u64,
    /// Congestion window in bytes.
    pub cwnd: u64,
    pub bytes_in_flight: usize,
    /// Pacing rate in bytes per second.
    pub pacing_rate: Option<u64>,
    pub sent_count: u64,
    pub sent_bytes: u64,
    pub acked_count: u64,
    pub acked_bytes: u64,
    pub lost_count: u64,
    pub lost_bytes: u64,
    pub local_ip: String,
    /// The local address is the wildcard address.
    pub local_unspecified: bool,
    pub remote_ip: String,
}

/// The path can be selected.
pub open spec fn sendable(p: Path) -> bool {
    p.active && p.can_send
}

impl Path {
    /// A path that is active and has sent nothing.
    pub fn new(id: usize, local_ip: String, local_unspecified: bool, remote_ip: String) -> (r: Self)
        ensures
            r.id == id,
            sendable(r),
            r.local_ip@ == local_ip@,
            r.local_unspecified == local_unspecified,
            r.remote_ip@ == remote_ip@,
            r.smoothed_rtt == 0 && r.min_rtt == 0 && r.latest_rtt == 0,
            r.cwnd == 0 && r.bytes_in_flight == 0 && r.pacing_rate is None,
            r.sent_count == 0 && r.acked_count == 0 && r.lost_count == 0,
            r.sent_bytes == 0 && r.acked_bytes == 0 && r.lost_bytes == 0,
    {
        Path {
            id,
            active: true,
            can_send: true,
            smoothed_rtt: 0,
            min_rtt: 0,
            latest_rtt: 0,
            cwnd: 0,
            bytes_in_flight: 0,
            pacing_rate: None,
            sent_count: 0,
            sent_bytes: 0,
            acked_count: 0,
            acked_bytes: 0,
            lost_count: 0,
            lost_bytes: 0,
            local_ip,
            local_unspecified,
            remote_ip,
        }
    }

    /// Whether the path can be selected.
    pub fn is_sendable(&self) -> (r: bool)
        ensures
            r == sendable(*self),
    {
        self.active && self.can_send
    }

    /// The pacing rate, which is 0 where there is none.
    pub open spec fn pacing(self) -> u64 {
        match self.pacing_rate {
            Some(p) => p,
            None => 0,
        }
    }

    /// The pacing rate, which is 0 where there is none.
    pub fn pacing_or_zero(&self) -> (r: u64)
        ensures
            r == self.pacing(),
    {
        match self.pacing_rate {
            Some(p) => p,
            None => 0,
        }
    }
}

/// The paths of a connection, in the order of their ids.
#[derive(Debug)]
pub struct PathMap {
    pub paths: Vec<Path>,
}

/// Ids rise, and a table indexed by them can reach each of them.
pub open spec fn ordered(s: Seq<Path>) -> bool {
    &&& forall|i: int, j: int| 0 <= i < j < s.len() ==> #[trigger] s[i].id < #[trigger] s[j].id
    &&& forall|i: int| 0 <= i < s.len() ==> (#[trigger] s[i]).id < usize::MAX
}

/// The index of the path with the given id, or the number of paths.
pub open spec fn index_of(s: Seq<Path>, id: usize) -> int
    decreases s.len(),
{
    if s.len() == 0 || s[0].id == id {
        0
    } else {
        1 + index_of(s.subrange(1, s.len() as int), id)
    }
}

/// `index_of` finds the path with the id, where there is one.
pub proof fn lemma_index_of(s: Seq<Path>, id: usize, k: int)
    requires
        0 <= k <= s.len(),
        forall|j: int| 0 <= j < k ==> s[j].id != id,
        k < s.len() ==> s[k].id == id,
    ensures
        index_of(s, id) == k,
    decreases s.len(),
{
    if k > 0 {
        let t = s.subrange(1, s.len() as int);
        assert forall|j: int| 0 <= j < k - 1 implies t[j].id != id by {
            assert(t[j] == s[j + 1]);
        }
        lemma_index_of(t, id, k - 1);
    }
}

impl View for PathMap {
    type V = Seq<Path>;

    open spec fn view(&self) -> Seq<Path> {
        self.paths@
    }
}

impl PathMap {
    /// Ids rise.
    pub open spec fn wf(self) -> bool {
        ordered(self@)
    }

    /// The position of the path with the id, or the number of paths.
    pub fn position(&self, id: usize) -> (r: usize)
        ensures
            r == index_of(self@, id),
            r <= self@.len(),
            r < self@.len() ==> self@[r as int].id == id,
            r == self@.len() ==> forall|j: int| 0 <= j < r ==> self@[j].id != id,
    {
        let mut i: usize = 0;
        while i < self.paths.len() && self.paths[i].id != id
            invariant
                i <= self.paths.len(),
                forall|j: int| 0 <= j < i ==> self@[j].id != id,
            decreases self.paths.len() - i,
        {
            i += 1;
        }
        proof {
            lemma_index_of(self@, id, i as int);
        }
        i
    }
}

} // verus!
