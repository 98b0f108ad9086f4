//! What the LinUCB scheduler promises, from the transport's counts of the paths to
//! what a decision is taken on, trained with and reported as.

use crate::counts::at_least_one;
use crate::dense::at;
use crate::paths::{ordered, sendable, Path};
use crate::scheduler_linucb::{
    ack_counted, ack_plan, acked, idle_paths, is_plan, least_rtt, lemma_stats_of, most_pacing,
    path_stats, prepared, selected, stale_contexts, stats_of, training, without_stale, Context,
    LinUcbModel, PathStats, SelectPlan,
};
use crate::scores::is_ratio;
use vstd::prelude::*;

verus! {

// ───────────────────────────── the paths of a plan ─────────────────────────────

/// The plan holds the path.
pub open spec fn in_plan(plan: SelectPlan, pid: usize) -> bool {
    exists|k: int| 0 <= k < plan.stats@.len() && (#[trigger] plan.stats@[k]).pid == pid
}

/// Every path that can send has its entry.
proof fn lemma_entry_of(m: LinUcbModel, paths: Seq<Path>, i: int) -> (k: int)
    requires
        0 <= i < paths.len(),
        sendable(paths[i]),
    ensures
        0 <= k < stats_of(m, paths).len(),
        stats_of(m, paths)[k] == path_stats(m, paths[i]),
    decreases paths.len(),
{
    let front = paths.drop_last();
    if i < front.len() {
        let k = lemma_entry_of(m, front, i);
        assert(stats_of(m, paths)[k] == stats_of(m, front)[k]);
        k
    } else {
        stats_of(m, front).len() as int
    }
}

/// Every entry is that of a path that can send.
proof fn lemma_path_of(m: LinUcbModel, paths: Seq<Path>, k: int) -> (i: int)
    requires
        0 <= k < stats_of(m, paths).len(),
    ensures
        0 <= i < paths.len(),
        sendable(paths[i]),
        stats_of(m, paths)[k] == path_stats(m, paths[i]),
    decreases paths.len(),
{
    let front = paths.drop_last();
    if k < stats_of(m, front).len() {
        let i = lemma_path_of(m, front, k);
        assert(stats_of(m, paths)[k] == stats_of(m, front)[k]);
        assert(paths[i] == front[i]);
        i
    } else {
        paths.len() - 1
    }
}

proof fn lemma_id_is_unique(paths: Seq<Path>, i: int, j: int)
    requires
        ordered(paths),
        0 <= i < paths.len(),
        0 <= j < paths.len(),
        paths[i].id == paths[j].id,
    ensures
        i == j,
{
    if i < j {
        assert(paths[i].id < paths[j].id);
    } else if j < i {
        assert(paths[j].id < paths[i].id);
    }
}

/// The entry with the id of a path is that path's.
proof fn lemma_entry_is_path(m: LinUcbModel, paths: Seq<Path>, i: int, k: int)
    requires
        ordered(paths),
        0 <= i < paths.len(),
        0 <= k < stats_of(m, paths).len(),
        stats_of(m, paths)[k].pid == paths[i].id,
    ensures
        sendable(paths[i]),
        stats_of(m, paths)[k] == path_stats(m, paths[i]),
{
    let j = lemma_path_of(m, paths, k);
    lemma_id_is_unique(paths, i, j);
}

/// A plan holds exactly the paths that can send, each once, in the order of their
/// ids.
pub proof fn plan_holds_the_sendable_paths(
    m: LinUcbModel,
    paths: Seq<Path>,
    now: u64,
    plan: SelectPlan,
    i: int,
)
    requires
        ordered(paths),
        is_plan(m, paths, now, plan),
        0 <= i < paths.len(),
    ensures
        in_plan(plan, paths[i].id) <==> paths[i].active && paths[i].can_send,
        forall|k: int, l: int|
            0 <= k < l < plan.stats@.len() ==> #[trigger] plan.stats@[k].pid
                < #[trigger] plan.stats@[l].pid,
        plan.contexts@.len() == plan.stats@.len(),
        plan.selections@.len() == plan.stats@.len(),
{
    lemma_stats_of(m, paths);
    if sendable(paths[i]) {
        let k = lemma_entry_of(m, paths, i);
        assert(plan.stats@[k].pid == paths[i].id);
    }
    if in_plan(plan, paths[i].id) {
        let k = choose|k: int|
            0 <= k < plan.stats@.len() && (#[trigger] plan.stats@[k]).pid == paths[i].id;
        lemma_entry_is_path(m, paths, i, k);
    }
}

/// A plan holds the transport's counts of its paths.
pub proof fn plan_holds_the_counts(
    m: LinUcbModel,
    paths: Seq<Path>,
    now: u64,
    plan: SelectPlan,
    i: int,
    k: int,
)
    requires
        ordered(paths),
        is_plan(m, paths, now, plan),
        0 <= i < paths.len(),
        0 <= k < plan.stats@.len(),
        plan.stats@[k].pid == paths[i].id,
    ensures
        plan.stats@[k].bytes_in_flight == paths[i].bytes_in_flight,
        plan.stats@[k].cwnd == paths[i].cwnd,
        plan.stats@[k].sent == paths[i].sent_count,
        plan.stats@[k].lost == paths[i].lost_count,
        plan.stats@[k].sent_bytes == paths[i].sent_bytes,
        plan.stats@[k].pacing == (match paths[i].pacing_rate {
            Some(r) => r,
            None => 0,
        }),
{
    lemma_entry_is_path(m, paths, i, k);
}

// ───────────────────────────── features ─────────────────────────────

/// The reliability of a path is the part of its sent packets that was not lost:
/// `1 - min(lost, sent) / sent`, and 1 where nothing was sent.
pub proof fn reliability_is_what_was_not_lost(
    m: LinUcbModel,
    paths: Seq<Path>,
    now: u64,
    plan: SelectPlan,
    i: int,
    k: int,
)
    requires
        ordered(paths),
        is_plan(m, paths, now, plan),
        0 <= i < paths.len(),
        0 <= k < plan.stats@.len(),
        plan.stats@[k].pid == paths[i].id,
    ensures
        paths[i].sent_count == 0 ==> is_ratio(plan.contexts@[k].reliability, 1, 1),
        paths[i].sent_count > 0 && paths[i].lost_count <= paths[i].sent_count ==> is_ratio(
            plan.contexts@[k].reliability,
            paths[i].sent_count - paths[i].lost_count,
            paths[i].sent_count as int,
        ),
        paths[i].sent_count > 0 && paths[i].lost_count > paths[i].sent_count ==> is_ratio(
            plan.contexts@[k].reliability,
            0,
            1,
        ),
{
    lemma_entry_is_path(m, paths, i, k);
}

/// Of two paths that sent the same number of packets, the one that lost fewer has the
/// higher reliability, however many of their packets were acknowledged.
pub proof fn fewer_losses_are_more_reliable(
    m: LinUcbModel,
    paths: Seq<Path>,
    now: u64,
    plan: SelectPlan,
    i: int,
    k: int,
    j: int,
    l: int,
)
    requires
        ordered(paths),
        is_plan(m, paths, now, plan),
        0 <= i < paths.len(),
        0 <= k < plan.stats@.len(),
        plan.stats@[k].pid == paths[i].id,
        0 <= j < paths.len(),
        0 <= l < plan.stats@.len(),
        plan.stats@[l].pid == paths[j].id,
        paths[i].sent_count == paths[j].sent_count,
        paths[i].lost_count < paths[j].lost_count <= paths[j].sent_count,
    ensures
        plan.contexts@[l].reliability.le(plan.contexts@[k].reliability),
        !plan.contexts@[k].reliability.le(plan.contexts@[l].reliability),
{
    lemma_entry_is_path(m, paths, i, k);
    lemma_entry_is_path(m, paths, j, l);
    let n = paths[i].sent_count as int;
    let x = paths[i].lost_count as int;
    let y = paths[j].lost_count as int;
    assert((n - y) * n < (n - x) * n) by (nonlinear_arith)
        requires
            0 < n,
            x < y,
    ;
}

/// The headroom of a path is the part of its congestion window that is not in flight,
/// and 0 where there is no window or more is in flight.
pub proof fn headroom_is_what_is_not_in_flight(
    m: LinUcbModel,
    paths: Seq<Path>,
    now: u64,
    plan: SelectPlan,
    i: int,
    k: int,
)
    requires
        ordered(paths),
        is_plan(m, paths, now, plan),
        0 <= i < paths.len(),
        0 <= k < plan.stats@.len(),
        plan.stats@[k].pid == paths[i].id,
    ensures
        paths[i].bytes_in_flight >= paths[i].cwnd ==> is_ratio(
            plan.contexts@[k].cwnd_headroom,
            0,
            1,
        ),
        paths[i].bytes_in_flight < paths[i].cwnd ==> is_ratio(
            plan.contexts@[k].cwnd_headroom,
            paths[i].cwnd - paths[i].bytes_in_flight,
            paths[i].cwnd as int,
        ),
{
    lemma_entry_is_path(m, paths, i, k);
    let s = plan.contexts@[k].cwnd_headroom;
    let x = s.part();
    if paths[i].bytes_in_flight >= paths[i].cwnd {
        assert(x == 0);
    }
}

/// The round-trip time of a path at a decision, at least 1: the smoothed one of its
/// acknowledgements where there was one, the transport's smoothed one before.
pub open spec fn rtt_at_decision(m: LinUcbModel, p: Path) -> int {
    let rtt = if p.id < m.ack_counts.len() && m.ack_counts[p.id as int] > 0 && p.id
        < m.ema_rtt_ns.len() {
        m.ema_rtt_ns[p.id as int]
    } else {
        p.smoothed_rtt
    };
    if rtt == 0 {
        1
    } else {
        rtt as int
    }
}

/// A path that can send has this round-trip time.
pub open spec fn some_rtt(m: LinUcbModel, paths: Seq<Path>, x: int) -> bool {
    exists|j: int|
        0 <= j < paths.len() && sendable(#[trigger] paths[j]) && rtt_at_decision(m, paths[j]) == x
}

/// No path that can send has a smaller round-trip time, and one has this.
pub open spec fn smallest_rtt(m: LinUcbModel, paths: Seq<Path>, x: int) -> bool {
    &&& some_rtt(m, paths, x)
    &&& forall|j: int|
        0 <= j < paths.len() && sendable(#[trigger] paths[j]) ==> x <= rtt_at_decision(m, paths[j])
}

proof fn lemma_least_rtt(s: Seq<PathStats>)
    ensures
        forall|k: int| 0 <= k < s.len() ==> least_rtt(s) <= (#[trigger] s[k]).rtt_ns,
        s.len() > 0 ==> exists|k: int|
            0 <= k < s.len() && (#[trigger] s[k]).rtt_ns == least_rtt(s),
    decreases s.len(),
{
    if s.len() > 0 {
        let front = s.drop_last();
        lemma_least_rtt(front);
        assert forall|k: int| 0 <= k < s.len() implies least_rtt(s) <= (#[trigger] s[k]).rtt_ns by {
            if k < front.len() {
                assert(front[k] == s[k]);
            }
        }
        if least_rtt(s) == s.last().rtt_ns {
            assert(s[s.len() - 1].rtt_ns == least_rtt(s));
        } else if front.len() > 0 {
            let k = choose|k: int|
                0 <= k < front.len() && (#[trigger] front[k]).rtt_ns == least_rtt(front);
            assert(s[k].rtt_ns == least_rtt(s));
        }
    }
}

proof fn lemma_smallest_rtt(m: LinUcbModel, paths: Seq<Path>, x: int)
    requires
        smallest_rtt(m, paths, x),
    ensures
        x == at_least_one(least_rtt(stats_of(m, paths))),
{
    let s = stats_of(m, paths);
    lemma_least_rtt(s);
    let j = choose|j: int|
        0 <= j < paths.len() && sendable(#[trigger] paths[j]) && rtt_at_decision(m, paths[j]) == x;
    let k = lemma_entry_of(m, paths, j);
    assert(at_least_one(least_rtt(s)) <= x);
    let l = choose|l: int| 0 <= l < s.len() && (#[trigger] s[l]).rtt_ns == least_rtt(s);
    let i = lemma_path_of(m, paths, l);
    assert(x <= rtt_at_decision(m, paths[i]));
}

/// The latency feature of a path is the smallest round-trip time among the paths that
/// can send over its own: the fastest one has 1, one twice as slow has a half.
pub proof fn latency_is_smallest_over_own(
    m: LinUcbModel,
    paths: Seq<Path>,
    now: u64,
    plan: SelectPlan,
    i: int,
    k: int,
    x: int,
)
    requires
        ordered(paths),
        is_plan(m, paths, now, plan),
        0 <= i < paths.len(),
        0 <= k < plan.stats@.len(),
        plan.stats@[k].pid == paths[i].id,
        smallest_rtt(m, paths, x),
    ensures
        is_ratio(plan.contexts@[k].latency, x, rtt_at_decision(m, paths[i])),
{
    lemma_entry_is_path(m, paths, i, k);
    lemma_smallest_rtt(m, paths, x);
    assert(x <= rtt_at_decision(m, paths[i]));
}

/// The pacing rate of a path, 0 where it has none.
pub open spec fn rate_of(p: Path) -> int {
    match p.pacing_rate {
        Some(r) => r as int,
        None => 0,
    }
}

/// A path that can send has this pacing rate.
pub open spec fn some_rate(paths: Seq<Path>, x: int) -> bool {
    exists|j: int| 0 <= j < paths.len() && sendable(#[trigger] paths[j]) && rate_of(paths[j]) == x
}

/// No path that can send has a larger pacing rate, and one has this.
pub open spec fn largest_rate(paths: Seq<Path>, x: int) -> bool {
    &&& some_rate(paths, x)
    &&& forall|j: int|
        0 <= j < paths.len() && sendable(#[trigger] paths[j]) ==> rate_of(paths[j]) <= x
}

proof fn lemma_most_pacing(s: Seq<PathStats>)
    ensures
        forall|k: int| 0 <= k < s.len() ==> (#[trigger] s[k]).pacing <= most_pacing(s),
        s.len() > 0 ==> exists|k: int|
            0 <= k < s.len() && (#[trigger] s[k]).pacing == most_pacing(s),
    decreases s.len(),
{
    if s.len() > 0 {
        let front = s.drop_last();
        lemma_most_pacing(front);
        assert forall|k: int| 0 <= k < s.len() implies (#[trigger] s[k]).pacing <= most_pacing(
            s,
        ) by {
            if k < front.len() {
                assert(front[k] == s[k]);
            }
        }
        if most_pacing(s) == s.last().pacing {
            assert(s[s.len() - 1].pacing == most_pacing(s));
        } else if front.len() > 0 {
            let k = choose|k: int|
                0 <= k < front.len() && (#[trigger] front[k]).pacing == most_pacing(front);
            assert(s[k].pacing == most_pacing(s));
        }
    }
}

proof fn lemma_largest_rate(m: LinUcbModel, paths: Seq<Path>, x: int)
    requires
        largest_rate(paths, x),
    ensures
        x == most_pacing(stats_of(m, paths)),
{
    let s = stats_of(m, paths);
    lemma_most_pacing(s);
    let j = choose|j: int|
        0 <= j < paths.len() && sendable(#[trigger] paths[j]) && rate_of(paths[j]) == x;
    let k = lemma_entry_of(m, paths, j);
    assert(s[k].pacing <= most_pacing(s));
    let l = choose|l: int| 0 <= l < s.len() && (#[trigger] s[l]).pacing == most_pacing(s);
    let i = lemma_path_of(m, paths, l);
    assert(rate_of(paths[i]) <= x);
}

/// The pacing feature of a path is its pacing rate over the largest one among the
/// paths that can send, and 0 where none has a rate.
pub proof fn pacing_is_own_over_largest(
    m: LinUcbModel,
    paths: Seq<Path>,
    now: u64,
    plan: SelectPlan,
    i: int,
    k: int,
    x: int,
)
    requires
        ordered(paths),
        is_plan(m, paths, now, plan),
        0 <= i < paths.len(),
        0 <= k < plan.stats@.len(),
        plan.stats@[k].pid == paths[i].id,
        largest_rate(paths, x),
    ensures
        x > 0 ==> is_ratio(plan.contexts@[k].relative_pacing, rate_of(paths[i]), x),
        x == 0 ==> is_ratio(plan.contexts@[k].relative_pacing, 0, 1),
{
    lemma_entry_is_path(m, paths, i, k);
    lemma_largest_rate(m, paths, x);
    assert(rate_of(paths[i]) <= x);
    assert(0 * x == 0) by (nonlinear_arith);
}

/// Preparing a decision notes the smallest round-trip time and the largest pacing
/// rate, and changes nothing else.
pub proof fn preparing_notes_the_extremes(m: LinUcbModel, paths: Seq<Path>, x: int, y: int)
    requires
        smallest_rtt(m, paths, x),
        largest_rate(paths, y),
    ensures
        prepared(m, paths).last_min_rtt_ns == x,
        prepared(m, paths).last_max_pacing_bps == y,
        prepared(m, paths) == (LinUcbModel {
            last_min_rtt_ns: prepared(m, paths).last_min_rtt_ns,
            last_max_pacing_bps: prepared(m, paths).last_max_pacing_bps,
            ..m
        }),
{
    lemma_smallest_rtt(m, paths, x);
    lemma_largest_rate(m, paths, y);
    let j = choose|j: int|
        0 <= j < paths.len() && sendable(#[trigger] paths[j]) && rtt_at_decision(m, paths[j]) == x;
    let k = lemma_entry_of(m, paths, j);
}

proof fn lemma_idle_paths(m: LinUcbModel, s: Seq<PathStats>, now: u64, pid: usize)
    ensures
        idle_paths(m, s, now).contains(pid) <==> exists|k: int|
            0 <= k < s.len() && (#[trigger] s[k]).pid == pid && idle_for_ten_seconds(m, pid, now),
    decreases s.len(),
{
    if s.len() > 0 {
        let front = s.drop_last();
        let before = idle_paths(m, front, now);
        let all = idle_paths(m, s, now);
        lemma_idle_paths(m, front, now, pid);
        if all.contains(pid) {
            let i = choose|i: int| 0 <= i < all.len() && all[i] == pid;
            if i < before.len() {
                assert(before[i] == pid);
                let k = choose|k: int|
                    0 <= k < front.len() && (#[trigger] front[k]).pid == pid
                        && idle_for_ten_seconds(m, pid, now);
                assert(s[k].pid == pid);
            } else {
                assert(s[s.len() - 1].pid == pid);
            }
        }
        if exists|k: int|
            0 <= k < s.len() && (#[trigger] s[k]).pid == pid && idle_for_ten_seconds(
                m,
                pid,
                now,
            ) {
            let k = choose|k: int|
                0 <= k < s.len() && (#[trigger] s[k]).pid == pid && idle_for_ten_seconds(
                    m,
                    pid,
                    now,
                );
            if k < front.len() {
                assert(front[k].pid == pid);
                let i = choose|i: int| 0 <= i < before.len() && before[i] == pid;
                assert(all[i] == pid);
            } else {
                assert(all[all.len() - 1] == pid);
            }
        }
    }
}

/// The path was selected before, and more than ten seconds ago.
pub open spec fn idle_for_ten_seconds(m: LinUcbModel, pid: usize, now: u64) -> bool {
    &&& pid < m.last_selection_time.len()
    &&& m.last_selection_time[pid as int] matches Some(t) && now - t > 10_000_000_000
}

/// A plan forgets exactly the paths that can send and were last selected more than
/// ten seconds ago, and counts the selections of each of its paths.
pub proof fn plan_forgets_idle_paths(
    m: LinUcbModel,
    paths: Seq<Path>,
    now: u64,
    plan: SelectPlan,
    k: int,
)
    requires
        is_plan(m, paths, now, plan),
        0 <= k < plan.stats@.len(),
    ensures
        plan.forget@.contains(plan.stats@[k].pid) <==> idle_for_ten_seconds(
            m,
            plan.stats@[k].pid,
            now,
        ),
        plan.selections@[k] == (if plan.stats@[k].pid < m.total_counts.len() {
            m.total_counts[plan.stats@[k].pid as int]
        } else {
            0
        }),
{
    lemma_idle_paths(m, plan.stats@, now, plan.stats@[k].pid);
}

// ───────────────────────────── pending decisions ─────────────────────────────

/// The path has this decision pending, for at least a second.
pub open spec fn pending_for_a_second(m: LinUcbModel, pid: int, x: Context, now: u64) -> bool {
    &&& 0 <= pid < m.pending_context.len()
    &&& m.pending_context[pid] == Some(x)
    &&& pid < m.pending_since.len()
    &&& m.pending_since[pid] matches Some(t) && now - t >= 1_000_000_000
}

proof fn lemma_stale_contexts(
    m: LinUcbModel,
    now: u64,
    skip: Option<usize>,
    n: nat,
    pid: usize,
    x: Context,
)
    requires
        n <= m.pending_context.len() <= usize::MAX,
    ensures
        stale_contexts(m, now, skip, n).contains((pid, x)) <==> pid < n && pending_for_a_second(
            m,
            pid as int,
            x,
            now,
        ) && skip != Some(pid),
    decreases n,
{
    if n > 0 {
        let k = (n - 1) as nat;
        let before = stale_contexts(m, now, skip, k);
        let all = stale_contexts(m, now, skip, n);
        lemma_stale_contexts(m, now, skip, k, pid, x);
        if all.contains((pid, x)) {
            let i = choose|i: int| 0 <= i < all.len() && all[i] == (pid, x);
            if i < before.len() {
                assert(before[i] == (pid, x));
            }
        }
        if before.contains((pid, x)) {
            let i = choose|i: int| 0 <= i < before.len() && before[i] == (pid, x);
            assert(all[i] == (pid, x));
        }
        if pid == k && pending_for_a_second(m, pid as int, x, now) && skip != Some(pid) {
            assert(all[all.len() - 1] == (pid, x));
        }
    }
}

/// A decision is trained without reward exactly where it has been pending for at
/// least a second and its path is not the one that was just acknowledged; it is then
/// pending no more, and every other decision is left as it was.
pub proof fn decisions_are_dropped_after_a_second(
    m: LinUcbModel,
    now: u64,
    skip: Option<usize>,
    pid: usize,
    x: Context,
)
    requires
        m.pending_context.len() <= usize::MAX,
    ensures
        ({
            let n = m.pending_context.len();
            let w = without_stale(m, now, skip, n);
            let gone = pending_for_a_second(m, pid as int, x, now) && skip != Some(pid);
            &&& stale_contexts(m, now, skip, n).contains((pid, x)) <==> gone
            &&& gone ==> at(w.pending_context, pid as int, None) is None && at(
                w.pending_since,
                pid as int,
                None,
            ) is None
            &&& at(m.pending_context, pid as int, None) == Some(x) && !gone ==> at(
                w.pending_context,
                pid as int,
                None,
            ) == Some(x) && at(w.pending_since, pid as int, None) == at(
                m.pending_since,
                pid as int,
                None,
            )
        }),
{
    lemma_stale_contexts(m, now, skip, m.pending_context.len(), pid, x);
}

/// A decision makes its path's context pending from now on, or from when the path was
/// first selected since its last feedback, and is noted as its path's latest.
pub proof fn decision_is_noted(
    m: LinUcbModel,
    plan: SelectPlan,
    b: int,
    paths: Seq<Path>,
    now: u64,
    pid: usize,
)
    requires
        plan.wf(),
        0 <= b < plan.stats@.len(),
    ensures
        ({
            let n = selected(m, plan, b, paths, now);
            let won = pid == plan.stats@[b].pid;
            &&& won ==> n.last_selected == Some(pid)
            &&& at(n.pending_context, pid as int, None) == (if won {
                Some(plan.contexts@[b])
            } else {
                at(m.pending_context, pid as int, None)
            })
            &&& at(n.pending_since, pid as int, None) == (if won && at(
                m.pending_since,
                pid as int,
                None,
            ) is None {
                Some(now)
            } else {
                at(m.pending_since, pid as int, None)
            })
            &&& at(n.last_selection_time, pid as int, None) == (if won {
                Some(now)
            } else {
                at(m.last_selection_time, pid as int, None)
            })
            &&& n.total_selections == m.total_selections + 1
        }),
{
}

// ───────────────────────────── feedback ─────────────────────────────

/// How far a count rose, 0 where it fell.
pub open spec fn rise(before: u64, after: u64) -> int {
    if after >= before {
        after - before
    } else {
        0
    }
}

/// Feedback trains the context that was pending on the path. Its delivery is what was
/// acknowledged of what was sent since the training before: the rise of the path's
/// acknowledged packets over the rise of its sent ones, of which at least one counts.
pub proof fn delivery_is_acknowledged_over_sent(
    m: LinUcbModel,
    p: Path,
    ema_bits: u64,
    ema_ns: u64,
    fill_bits: u64,
    n: LinUcbModel,
    q: Path,
)
    requires
        p.id == q.id,
        training(m, p) is Some,
        n.prev_acked_count == acked(m, p, ema_bits, ema_ns, fill_bits).prev_acked_count,
        n.prev_sent_count == acked(m, p, ema_bits, ema_ns, fill_bits).prev_sent_count,
        training(n, q) is Some,
    ensures
        ({
            let r = training(n, q).unwrap().reward.delivery;
            let got = rise(p.acked_count, q.acked_count);
            let sent = rise(p.sent_count, q.sent_count);
            &&& sent > 0 && got <= sent ==> is_ratio(r, got, sent)
            &&& sent == 0 && got == 0 ==> is_ratio(r, 0, 1)
            &&& got > 0 && got >= sent ==> is_ratio(r, 1, 1)
        }),
{
}

/// The first training of a path counts all that it sent and had acknowledged.
pub proof fn first_delivery_counts_from_the_start(m: LinUcbModel, p: Path)
    requires
        p.id >= m.prev_acked_count.len(),
        p.id >= m.prev_sent_count.len(),
        training(m, p) is Some,
    ensures
        ({
            let r = training(m, p).unwrap().reward.delivery;
            &&& 0 < p.sent_count && p.acked_count <= p.sent_count ==> is_ratio(
                r,
                p.acked_count as int,
                p.sent_count as int,
            )
            &&& p.sent_count == 0 && p.acked_count == 0 ==> is_ratio(r, 0, 1)
            &&& p.acked_count > 0 && p.acked_count >= p.sent_count ==> is_ratio(r, 1, 1)
        }),
{
}

/// What is trained is the pending decision, with the headroom of the path now and the
/// smallest round-trip time of the latest decision.
pub proof fn training_is_of_the_pending_decision(m: LinUcbModel, p: Path, x: Context)
    ensures
        training(m, p) is Some <==> at(m.pending_context, p.id as int, None) is Some,
        at(m.pending_context, p.id as int, None) == Some(x) ==> ({
            let t = training(m, p).unwrap();
            &&& t.context == x
            &&& t.reward.min_rtt_ns == (if m.last_min_rtt_ns == 0 {
                1
            } else {
                m.last_min_rtt_ns
            })
            &&& p.bytes_in_flight >= p.cwnd ==> is_ratio(t.reward.headroom, 0, 1)
            &&& p.bytes_in_flight < p.cwnd ==> is_ratio(
                t.reward.headroom,
                p.cwnd - p.bytes_in_flight,
                p.cwnd as int,
            )
        }),
{
    if training(m, p) is Some {
        let s = training(m, p).unwrap().reward.headroom;
        if p.bytes_in_flight >= p.cwnd {
            assert(s.part() == 0);
        }
    }
}

/// Only training moves the counts that a delivery starts from, and only those of its
/// own path: decisions, their preparation, dropped decisions and acknowledgements on a
/// path with nothing pending keep them.
pub proof fn only_training_moves_the_counts(
    m: LinUcbModel,
    plan: SelectPlan,
    b: int,
    paths: Seq<Path>,
    now: u64,
    skip: Option<usize>,
    p: Path,
    bits: u64,
    ns: u64,
    fill: u64,
    other: usize,
)
    ensures
        prepared(m, paths).prev_acked_count == m.prev_acked_count,
        prepared(m, paths).prev_sent_count == m.prev_sent_count,
        selected(m, plan, b, paths, now).prev_acked_count == m.prev_acked_count,
        selected(m, plan, b, paths, now).prev_sent_count == m.prev_sent_count,
        without_stale(m, now, skip, m.pending_context.len()).prev_acked_count
            == m.prev_acked_count,
        without_stale(m, now, skip, m.pending_context.len()).prev_sent_count == m.prev_sent_count,
        ack_counted(m, p.id).prev_acked_count == m.prev_acked_count,
        ack_counted(m, p.id).prev_sent_count == m.prev_sent_count,
        training(m, p) is None || other != p.id ==> at(
            acked(m, p, bits, ns, fill).prev_acked_count,
            other as int,
            0,
        ) == at(m.prev_acked_count, other as int, 0) && at(
            acked(m, p, bits, ns, fill).prev_sent_count,
            other as int,
            0,
        ) == at(m.prev_sent_count, other as int, 0),
{
}

/// An acknowledgement is smoothed with the path's latest round-trip time, at least 1,
/// onto what was stored for the path before; the first eight adapt fast.
pub proof fn smoothing_goes_on_from_what_was_stored(
    m: LinUcbModel,
    p: Path,
    bits: u64,
    ns: u64,
    fill: u64,
    q: Path,
)
    requires
        p.id == q.id,
    ensures
        ({
            let n = acked(m, p, bits, ns, fill);
            &&& ack_plan(n, q).old_ema_bits == Some(bits)
            &&& at(n.ema_rtt_ns, p.id as int, 0) == ns
            &&& p.id >= m.ema_rtt_bits.len() ==> ack_plan(m, p).old_ema_bits is None
            &&& ack_plan(m, q).rtt_ns == (if q.latest_rtt == 0 {
                1
            } else {
                q.latest_rtt
            })
            &&& ack_plan(m, q).warming_up <==> at(m.ack_counts, q.id as int, 0) < 8
            &&& at(m.ack_counts, p.id as int, 0) < u64::MAX ==> at(
                ack_counted(m, p.id).ack_counts,
                p.id as int,
                0,
            ) == at(m.ack_counts, p.id as int, 0) + 1
        }),
{
}

/// A path that was passed over when the table of smoothed round-trip times grew starts
/// at the value that it is given for that; the other paths keep theirs.
pub proof fn new_paths_start_at_the_fill_value(
    m: LinUcbModel,
    p: Path,
    bits: u64,
    ns: u64,
    fill: u64,
    q: Path,
)
    requires
        q.id != p.id,
    ensures
        ({
            let n = acked(m, p, bits, ns, fill);
            &&& q.id < m.ema_rtt_bits.len() ==> ack_plan(n, q).old_ema_bits == ack_plan(
                m,
                q,
            ).old_ema_bits && n.ema_rtt_bits[q.id as int] == m.ema_rtt_bits[q.id as int]
            &&& m.ema_rtt_bits.len() <= q.id < p.id ==> ack_plan(n, q).old_ema_bits == Some(fill)
            &&& at(n.ema_rtt_ns, q.id as int, 0) == at(m.ema_rtt_ns, q.id as int, 0)
            &&& n.ack_counts == m.ack_counts
        }),
{
}

} // verus!
