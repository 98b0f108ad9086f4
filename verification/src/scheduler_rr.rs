//! The round-robin scheduler.

use crate::paths::{ordered, sendable, Error, Path, PathMap};
use crate::traffic_metrics::{recorded, traffic_start, TrafficMetricsCollector};
use std::collections::HashMap;
use vstd::prelude::*;

verus! {

broadcast use vstd::std_specs::hash::group_hash_axioms;

/// How often a path has been selected.
pub open spec fn sent_count(counts: Map<usize, u64>, id: usize) -> u64 {
    if counts.contains_key(id) {
        counts[id]
    } else {
        0
    }
}

/// The path at `b` is the one to select: it can send, no path that can send was
/// selected less often, and none before it as seldom.
pub open spec fn is_choice(paths: Seq<Path>, counts: Map<usize, u64>, b: int) -> bool {
    &&& 0 <= b < paths.len()
    &&& sendable(paths[b])
    &&& forall|i: int|
        0 <= i < paths.len() && sendable(#[trigger] paths[i]) ==> sent_count(counts, paths[b].id)
            <= sent_count(counts, paths[i].id)
    &&& forall|i: int|
        0 <= i < b && sendable(#[trigger] paths[i]) ==> sent_count(counts, paths[b].id)
            < sent_count(counts, paths[i].id)
}

/// There is one path to select at most.
pub proof fn choice_is_unique(paths: Seq<Path>, counts: Map<usize, u64>, a: int, b: int)
    requires
        is_choice(paths, counts, a),
        is_choice(paths, counts, b),
    ensures
        a == b,
{
    if a < b {
        assert(sendable(paths[a]));
    } else if b < a {
        assert(sendable(paths[b]));
    }
}

/// The counts after a selection.
pub open spec fn counted(counts: Map<usize, u64>, id: usize) -> Map<usize, u64> {
    counts.insert(id, (sent_count(counts, id) + 1) as u64)
}

/// The paths that can send have been selected equally often, up to one.
pub open spec fn balanced(paths: Seq<Path>, counts: Map<usize, u64>) -> bool {
    forall|i: int, j: int|
        0 <= i < paths.len() && 0 <= j < paths.len() && sendable(#[trigger] paths[i]) && sendable(
            #[trigger] paths[j],
        ) ==> sent_count(counts, paths[i].id) <= sent_count(counts, paths[j].id) + 1
}

/// Round robin gives an equal split: while the same paths can send, a selection
/// keeps their counts within one of each other.
pub proof fn selection_keeps_balance(paths: Seq<Path>, counts: Map<usize, u64>, b: int)
    requires
        ordered(paths),
        is_choice(paths, counts, b),
        balanced(paths, counts),
        sent_count(counts, paths[b].id) < u64::MAX,
    ensures
        balanced(paths, counted(counts, paths[b].id)),
{
    let after = counted(counts, paths[b].id);
    assert forall|i: int, j: int|
        0 <= i < paths.len() && 0 <= j < paths.len() && sendable(#[trigger] paths[i]) && sendable(
            #[trigger] paths[j],
        ) implies sent_count(after, paths[i].id) <= sent_count(after, paths[j].id) + 1 by {
        assert(sent_count(counts, paths[b].id) <= sent_count(counts, paths[j].id));
        assert(sent_count(counts, paths[i].id) <= sent_count(counts, paths[j].id) + 1);
        if i != b {
            assert(paths[i].id != paths[b].id) by {
                if i < b {
                    assert(paths[i].id < paths[b].id);
                } else {
                    assert(paths[b].id < paths[i].id);
                }
            }
        }
    }
}

/// Paths that were never selected are in balance.
pub proof fn no_selections_are_balanced(paths: Seq<Path>)
    ensures
        balanced(paths, Map::empty()),
{
}

// ───────────────────────────── runs ─────────────────────────────

/// The counts of a new scheduler after the selections `picks`.
pub open spec fn counts_after(picks: Seq<usize>) -> Map<usize, u64>
    decreases picks.len(),
{
    if picks.len() == 0 {
        Map::empty()
    } else {
        counted(counts_after(picks.drop_last()), picks.last())
    }
}

/// How many of the selections took the path.
pub open spec fn times(picks: Seq<usize>, id: usize) -> nat
    decreases picks.len(),
{
    if picks.len() == 0 {
        0
    } else {
        times(picks.drop_last(), id) + if picks.last() == id {
            1nat
        } else {
            0
        }
    }
}

/// The counts tell how many selections took each path.
pub proof fn lemma_counts_after(picks: Seq<usize>, id: usize)
    requires
        picks.len() <= u64::MAX,
    ensures
        sent_count(counts_after(picks), id) == times(picks, id),
        times(picks, id) <= picks.len(),
    decreases picks.len(),
{
    if picks.len() > 0 {
        lemma_counts_after(picks.drop_last(), id);
        lemma_counts_after(picks.drop_last(), picks.last());
    }
}

/// The path is selected among the paths, given the counts.
pub open spec fn is_pick(paths: Seq<Path>, counts: Map<usize, u64>, id: usize) -> bool {
    exists|b: int| #[trigger] is_choice(paths, counts, b) && id == paths[b].id
}

/// `picks` are the selections of a new scheduler that sees the paths `seen[i]` at
/// its selection `i`.
pub open spec fn is_run(seen: Seq<Seq<Path>>, picks: Seq<usize>) -> bool {
    &&& seen.len() == picks.len() <= u64::MAX
    &&& forall|i: int|
        0 <= i < picks.len() ==> ordered(#[trigger] seen[i]) && is_pick(
            seen[i],
            counts_after(picks.subrange(0, i)),
            picks[i],
        )
}

/// Every selection takes a path that can send and that the fewest earlier
/// selections took; among equals, the one with the smallest id.
pub proof fn fewest_so_far_is_selected(seen: Seq<Seq<Path>>, picks: Seq<usize>, i: int, k: int)
    requires
        is_run(seen, picks),
        0 <= i < picks.len(),
        0 <= k < seen[i].len(),
        sendable(seen[i][k]),
    ensures
        has_sendable(seen[i], picks[i]),
        ({
            let before = picks.subrange(0, i);
            let other = seen[i][k].id;
            ||| times(before, picks[i]) < times(before, other)
            ||| times(before, picks[i]) == times(before, other) && picks[i] <= other
        }),
{
    let before = picks.subrange(0, i);
    let paths = seen[i];
    let counts = counts_after(before);
    assert(ordered(paths));
    let b = choose|b: int| #[trigger] is_choice(paths, counts, b) && picks[i] == paths[b].id;
    lemma_counts_after(before, picks[i]);
    lemma_counts_after(before, paths[k].id);
    assert(sendable(paths[b]));
    if k < b {
        assert(sent_count(counts, paths[b].id) < sent_count(counts, paths[k].id));
    } else if b < k {
        assert(paths[b].id < paths[k].id);
    }
}

/// The ids of the paths that can send, in order.
pub open spec fn sendable_ids(paths: Seq<Path>) -> Seq<usize>
    decreases paths.len(),
{
    if paths.len() == 0 {
        Seq::empty()
    } else if sendable(paths.last()) {
        sendable_ids(paths.drop_last()).push(paths.last().id)
    } else {
        sendable_ids(paths.drop_last())
    }
}

/// A path with the id can send.
pub open spec fn has_sendable(paths: Seq<Path>, id: usize) -> bool {
    exists|i: int| 0 <= i < paths.len() && sendable(#[trigger] paths[i]) && paths[i].id == id
}

/// The ids are exactly those of the paths that can send, and rise.
proof fn lemma_sendable_ids(paths: Seq<Path>)
    requires
        ordered(paths),
    ensures
        forall|i: int|
            0 <= i < paths.len() && sendable(#[trigger] paths[i]) ==> sendable_ids(paths).contains(
                paths[i].id,
            ),
        forall|k: int|
            0 <= k < sendable_ids(paths).len() ==> has_sendable(
                paths,
                #[trigger] sendable_ids(paths)[k],
            ),
        forall|j: int, k: int|
            0 <= j < k < sendable_ids(paths).len() ==> #[trigger] sendable_ids(paths)[j]
                < #[trigger] sendable_ids(paths)[k],
    decreases paths.len(),
{
    if paths.len() > 0 {
        let front = paths.drop_last();
        let last = paths.len() - 1;
        assert(ordered(front)) by {
            assert forall|i: int, j: int| 0 <= i < j < front.len() implies #[trigger] front[i].id
                < #[trigger] front[j].id by {
                assert(front[i] == paths[i] && front[j] == paths[j]);
            }
            assert forall|i: int| 0 <= i < front.len() implies (#[trigger] front[i]).id
                < usize::MAX by {
                assert(front[i] == paths[i]);
            }
        }
        lemma_sendable_ids(front);
        let ids = sendable_ids(paths);
        let early = sendable_ids(front);
        assert forall|i: int| 0 <= i < paths.len() && sendable(#[trigger] paths[i]) implies ids.contains(
            paths[i].id,
        ) by {
            if i < last {
                assert(front[i] == paths[i]);
                let k = choose|k: int| 0 <= k < early.len() && early[k] == paths[i].id;
                assert(ids[k] == paths[i].id);
            } else {
                assert(ids[early.len() as int] == paths[i].id);
            }
        }
        assert forall|k: int| 0 <= k < ids.len() implies has_sendable(paths, #[trigger] ids[k]) by {
            if k < early.len() {
                assert(ids[k] == early[k]);
                let i = choose|i: int|
                    0 <= i < front.len() && sendable(#[trigger] front[i]) && front[i].id == early[k];
                assert(paths[i] == front[i]);
            } else {
                assert(sendable(paths[last]));
            }
        }
        assert forall|j: int, k: int| 0 <= j < k < ids.len() implies #[trigger] ids[j]
            < #[trigger] ids[k] by {
            assert(ids[j] == early[j]);
            if k < early.len() {
                assert(ids[k] == early[k]);
            } else {
                let i = choose|i: int|
                    0 <= i < front.len() && sendable(#[trigger] front[i]) && front[i].id == early[j];
                assert(paths[i].id < paths[last].id);
            }
        }
    }
}

/// While the same paths can send, the selections run through them in the order of
/// their ids, again and again, and take each of them equally often, up to one.
pub proof fn selections_go_round(seen: Seq<Seq<Path>>, picks: Seq<usize>, ids: Seq<usize>)
    requires
        is_run(seen, picks),
        ids.len() > 0,
        forall|i: int| 0 <= i < seen.len() ==> sendable_ids(#[trigger] seen[i]) == ids,
    ensures
        forall|i: int| 0 <= i < picks.len() ==> #[trigger] picks[i] == ids[i % ids.len() as int],
        forall|k: int|
            0 <= k < ids.len() ==> times(picks, #[trigger] ids[k]) == picks.len() / ids.len() + if k
                < picks.len() % ids.len() {
                1int
            } else {
                0
            },
    decreases picks.len(),
{
    let m = ids.len() as int;
    if picks.len() == 0 {
        assert(0int / m == 0 && 0int % m == 0) by (nonlinear_arith)
            requires
                m > 0,
        ;
    } else {
        let t = picks.len() - 1;
        let early = picks.drop_last();
        let front = seen.drop_last();
        assert forall|i: int| 0 <= i < early.len() implies ordered(#[trigger] front[i]) && is_pick(
            front[i],
            counts_after(early.subrange(0, i)),
            early[i],
        ) by {
            assert(front[i] == seen[i]);
            assert(early.subrange(0, i) =~= picks.subrange(0, i));
        }
        assert forall|i: int| 0 <= i < front.len() implies sendable_ids(#[trigger] front[i]) == ids by {
            assert(front[i] == seen[i]);
        }
        selections_go_round(front, early, ids);
        let q = t / m;
        let r = t % m;
        vstd::arithmetic::div_mod::lemma_fundamental_div_mod(t, m);
        assert(0 <= r < m) by (nonlinear_arith)
            requires
                r == t % m,
                m > 0,
        ;
        let paths = seen[t];
        assert(picks.subrange(0, t) =~= early);
        let counts = counts_after(early);
        let b = choose|b: int| #[trigger] is_choice(paths, counts, b) && picks[t] == paths[b].id;
        lemma_sendable_ids(paths);
        assert(sendable(paths[b]));
        let k = choose|k: int| 0 <= k < ids.len() && ids[k] == paths[b].id;
        let j = choose|j: int|
            0 <= j < paths.len() && sendable(#[trigger] paths[j]) && paths[j].id == ids[r];
        lemma_counts_after(early, ids[k]);
        lemma_counts_after(early, ids[r]);
        assert(sent_count(counts, paths[b].id) <= sent_count(counts, paths[j].id));
        if k > r {
            assert(ids[r] < ids[k]);
            if j >= b {
                if j > b {
                    assert(paths[b].id < paths[j].id);
                }
            }
            assert(sent_count(counts, paths[b].id) < sent_count(counts, paths[j].id));
        }
        assert(k == r);
        if r + 1 < m {
            assert(t + 1 == q * m + (r + 1)) by (nonlinear_arith)
                requires
                    t == m * q + r,
            ;
            vstd::arithmetic::div_mod::lemma_fundamental_div_mod_converse(t + 1, m, q, r + 1);
        } else {
            assert(t + 1 == (q + 1) * m + 0) by (nonlinear_arith)
                requires
                    t == m * q + r,
                    r + 1 == m,
            ;
            vstd::arithmetic::div_mod::lemma_fundamental_div_mod_converse(t + 1, m, q + 1, 0);
        }
        assert forall|i: int| 0 <= i < picks.len() implies #[trigger] picks[i] == ids[i % m] by {
            if i < t {
                assert(early[i] == picks[i]);
            }
        }
        assert forall|x: int| 0 <= x < ids.len() implies times(picks, #[trigger] ids[x]) == (t + 1)
            / m + if x < (t + 1) % m {
            1int
        } else {
            0
        } by {
            if x < r {
                assert(ids[x] < ids[r]);
            } else if r < x {
                assert(ids[r] < ids[x]);
            }
        }
    }
}

/// Distributes packets equally across the paths that can send.
///
/// Each selection takes the sendable path that was selected least often so far;
/// among equals, the one with the smallest id. This gives an equal split even
/// when one path has a full congestion window for a while.
pub struct RoundRobinScheduler {
    pub sent_counts: HashMap<usize, u64>,
    pub metrics: TrafficMetricsCollector,
}

impl RoundRobinScheduler {
    /// A scheduler that starts at `now`, which is the Unix second `unix_secs`.
    pub fn new(now: u64, unix_secs: u64) -> (r: Self)
        requires
            unix_secs <= crate::clock::UNIX_LIMIT,
        ensures
            r.sent_counts@ == Map::<usize, u64>::empty(),
            r.metrics.wf(),
            r.metrics@ == traffic_start(now, unix_secs),
    {
        RoundRobinScheduler {
            sent_counts: HashMap::new(),
            metrics: TrafficMetricsCollector::new(now, unix_secs),
        }
    }

    fn count_of(&self, id: usize) -> (r: u64)
        ensures
            r == sent_count(self.sent_counts@, id),
    {
        match self.sent_counts.get(&id) {
            Some(c) => *c,
            None => 0,
        }
    }

    /// Selects a path.
    pub fn on_select(&mut self, paths: &PathMap, now: u64) -> (r: Result<usize, Error>)
        requires
            paths.wf(),
            old(self).metrics.wf(),
            old(self).metrics.window_total < u64::MAX,
            forall|id: usize| sent_count(old(self).sent_counts@, id) < u64::MAX,
        ensures
            final(self).metrics.wf(),
            match r {
                Ok(pid) => exists|b: int|
                    {
                        &&& #[trigger] is_choice(paths@, old(self).sent_counts@, b)
                        &&& pid == paths@[b].id
                        &&& final(self).sent_counts@ == counted(old(self).sent_counts@, pid)
                        &&& final(self).metrics@ == recorded(
                            old(self).metrics@,
                            pid as int,
                            paths@,
                            now,
                        )
                    },
                Err(e) => e == Error::Done && *final(self) == *old(self),
            },
            r is Err <==> forall|i: int| 0 <= i < paths@.len() ==> !sendable(#[trigger] paths@[i]),
    {
        let mut best: Option<(usize, u64)> = None;
        let mut i: usize = 0;
        while i < paths.paths.len()
            invariant
                i <= paths@.len(),
                *self == *old(self),
                match best {
                    Some((b, count)) => {
                        &&& b < i
                        &&& count == sent_count(self.sent_counts@, paths@[b as int].id)
                        &&& is_choice(paths@.subrange(0, i as int), self.sent_counts@, b as int)
                    },
                    None => forall|j: int| 0 <= j < i ==> !sendable(#[trigger] paths@[j]),
                },
            decreases paths@.len() - i,
        {
            let ghost seen = paths@.subrange(0, i as int);
            let ghost next = paths@.subrange(0, i + 1);
            assert(next =~= seen.push(paths@[i as int]));
            if paths.paths[i].is_sendable() {
                let count: u64 = self.count_of(paths.paths[i].id);
                match best {
                    None => {
                        best = Some((i, count));
                    },
                    Some((b, best_count)) => {
                        assert(seen[b as int] == paths@[b as int]);
                        if count < best_count {
                            best = Some((i, count));
                        }
                    },
                }
            }
            proof {
                if let Some((b, count)) = best {
                    assert(next[b as int] == paths@[b as int]);
                    assert forall|k: int| 0 <= k < next.len() && sendable(#[trigger] next[k])
                        implies count <= sent_count(self.sent_counts@, next[k].id) by {
                        if k < i {
                            assert(seen[k] == next[k]);
                        }
                    }
                    assert forall|k: int| 0 <= k < b && sendable(#[trigger] next[k]) implies count
                        < sent_count(self.sent_counts@, next[k].id) by {
                        assert(seen[k] == next[k]);
                    }
                }
            }
            i += 1;
        }
        assert(paths@.subrange(0, i as int) =~= paths@);
        match best {
            Some((b, count)) => {
                let pid: usize = paths.paths[b].id;
                assert(sendable(paths@[b as int]));
                self.sent_counts.insert(pid, count + 1);
                self.metrics.record(pid, paths, now);
                assert(is_choice(paths@, old(self).sent_counts@, b as int));
                Ok(pid)
            },
            None => Err(Error::Done),
        }
    }
}

} // verus!
