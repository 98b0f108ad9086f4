//! What the records of the schedulers promise: each row holds its own path's counts,
//! and what it says of a second is what happened since the record before.

use crate::dense::{at, lemma_placed_at};
use crate::linucb_laws::{rate_of, rise};
use crate::paths::{index_of, lemma_index_of, ordered, Path};
use crate::scheduler_epsilon_greedy::{
    arm_or_new, greedy_selected, Candidate, GreedyEventModel, GreedyModel,
};
use crate::scheduler_linucb::{
    addrs_noted, all_sent_since, linucb_start, selected, stats_noted, stats_ordered, LinUcbModel,
    PathStats, SelectPlan,
};
use crate::traffic_metrics::{recorded, sent_noted, traffic_start, TrafficModel};
use vstd::prelude::*;

verus! {

/// A record is due: there was none before, or the last one is at least a second old.
pub open spec fn record_is_due(last: Option<u64>, now: u64) -> bool {
    last matches Some(t) ==> now - t >= 1_000_000_000
}

// ───────────────────────────── traffic ─────────────────────────────

/// A selection takes a record exactly where the last one is a second old or there is
/// none; the record is numbered, timed and has a row for every path.
pub proof fn traffic_is_recorded_once_a_second(
    m: TrafficModel,
    best: int,
    paths: Seq<Path>,
    now: u64,
)
    ensures
        ({
            let n = recorded(m, best, paths, now);
            let secs = if now >= m.start_time {
                (now - m.start_time) / 1_000_000_000
            } else {
                0
            };
            if record_is_due(m.last_log, now) {
                let r = n.records.last();
                &&& n.records == m.records.push(r)
                &&& r.step == m.records.len()
                &&& r.elapsed_s == secs
                &&& r.timestamp == m.start_unix_secs + secs
                &&& r.window_ns is Some <==> m.last_log is Some
                &&& m.last_log matches Some(t) ==> r.window_ns == Some((now - t) as u64)
                &&& r.rows.len() == paths.len()
                &&& n.last_log == Some(now)
                &&& n.window_total == 0
            } else {
                &&& n.records == m.records
                &&& n.last_log == m.last_log
                &&& n.window_total == m.window_total + 1
                &&& n.prev_sent_bytes == m.prev_sent_bytes
            }
        }),
{
}

/// The row of a path holds the transport's counts of that path, and its share of the
/// selections since the record before, this one included.
pub proof fn traffic_row_holds_its_paths_counts(
    m: TrafficModel,
    best: int,
    paths: Seq<Path>,
    now: u64,
    i: int,
)
    requires
        0 <= best,
        0 <= i < paths.len(),
        record_is_due(m.last_log, now),
        at(m.window_counts, best, 0) < u64::MAX,
        m.window_total < u64::MAX,
    ensures
        ({
            let row = recorded(m, best, paths, now).records.last().rows[i];
            let p = paths[i];
            &&& row.pid == p.id
            &&& row.rtt_us == p.smoothed_rtt / 1000
            &&& row.cwnd == p.cwnd
            &&& row.bytes_in_flight == p.bytes_in_flight
            &&& row.pacing == rate_of(p)
            &&& row.sent_count == p.sent_count
            &&& row.lost_count == p.lost_count
            &&& row.count == at(m.window_counts, p.id as int, 0) + (if p.id == best {
                1int
            } else {
                0
            })
            &&& row.total == m.window_total + 1
        }),
{
}

proof fn lemma_sent_noted(prev: Seq<u64>, paths: Seq<Path>, i: int)
    requires
        ordered(paths),
        0 <= i < paths.len(),
    ensures
        at(sent_noted(prev, paths), paths[i].id as int, 0) == paths[i].sent_bytes,
    decreases paths.len(),
{
    let front = paths.drop_last();
    let last = paths.len() - 1;
    lemma_placed_at(
        sent_noted(prev, front),
        paths.last().id as int,
        paths.last().sent_bytes,
        0,
        paths[i].id as int,
    );
    if i < last {
        assert(paths[i].id < paths[last].id);
        assert forall|a: int, b: int| 0 <= a < b < front.len() implies #[trigger] front[a].id
            < #[trigger] front[b].id by {
            assert(front[a] == paths[a] && front[b] == paths[b]);
        }
        assert forall|a: int| 0 <= a < front.len() implies (#[trigger] front[a]).id
            < usize::MAX by {
            assert(front[a] == paths[a]);
        }
        lemma_sent_noted(prev, front, i);
        assert(front[i] == paths[i]);
    }
}

/// Between two records a path sent what its sent bytes rose by: the bytes of a row are
/// the path's sent bytes less those at the record before, whatever was selected in
/// between.
pub proof fn traffic_row_counts_bytes_since_the_last_record(
    m: TrafficModel,
    best: int,
    before: Seq<Path>,
    then: u64,
    n: TrafficModel,
    next: int,
    paths: Seq<Path>,
    now: u64,
    i: int,
    j: int,
)
    requires
        ordered(before),
        0 <= i < before.len(),
        record_is_due(m.last_log, then),
        n.prev_sent_bytes == recorded(m, best, before, then).prev_sent_bytes,
        0 <= j < paths.len(),
        paths[j].id == before[i].id,
        record_is_due(n.last_log, now),
    ensures
        recorded(n, next, paths, now).records.last().rows[j].delta_bytes == rise(
            before[i].sent_bytes,
            paths[j].sent_bytes,
        ),
{
    lemma_sent_noted(m.prev_sent_bytes, before, i);
}

/// A path that no record held counts its bytes from the start.
pub proof fn first_traffic_row_counts_all_bytes(
    m: TrafficModel,
    best: int,
    paths: Seq<Path>,
    now: u64,
    i: int,
)
    requires
        0 <= i < paths.len(),
        paths[i].id >= m.prev_sent_bytes.len(),
        record_is_due(m.last_log, now),
    ensures
        recorded(m, best, paths, now).records.last().rows[i].delta_bytes == paths[i].sent_bytes,
{
}

// ───────────────────────────── LinUCB ─────────────────────────────

/// A decision takes a record exactly where the last one is a second old or there is
/// none; the record is numbered and timed, and has a row for every path of the plan
/// with the plan's counts and features of it.
pub proof fn linucb_is_recorded_once_a_second(
    m: LinUcbModel,
    plan: SelectPlan,
    b: int,
    paths: Seq<Path>,
    now: u64,
    k: int,
)
    requires
        plan.wf(),
        0 <= b < plan.stats@.len(),
        0 <= k < plan.stats@.len(),
        at(m.window_counts, plan.stats@[b].pid as int, 0) < u64::MAX,
        at(m.total_counts, plan.stats@[b].pid as int, 0) < u64::MAX,
        m.window_total < u64::MAX,
    ensures
        ({
            let n = selected(m, plan, b, paths, now);
            let won = if k == b {
                1int
            } else {
                0
            };
            let pid = plan.stats@[k].pid as int;
            let secs = if now >= m.start_time {
                (now - m.start_time) / 1_000_000_000
            } else {
                0
            };
            if record_is_due(m.last_log, now) {
                let r = n.records.last();
                let row = r.rows[k];
                &&& n.records == m.records.push(r)
                &&& n.snapshots.len() == m.snapshots.len() + 1
                &&& r.step == m.records.len()
                &&& r.elapsed_s == secs
                &&& r.timestamp == m.start_unix_secs + secs
                &&& r.rows.len() == plan.stats@.len()
                &&& row.stats == plan.stats@[k]
                &&& row.context == plan.contexts@[k]
                &&& row.count == at(m.window_counts, pid, 0) + won
                &&& row.total == m.window_total + 1
                &&& row.samples == at(m.total_counts, pid, 0) + won
                &&& n.last_log == Some(now)
                &&& n.window_total == 0
                &&& at(n.window_counts, pid, 0) == 0
            } else {
                &&& n.records == m.records
                &&& n.snapshots == m.snapshots
                &&& n.last_log == m.last_log
                &&& n.window_total == m.window_total + 1
                &&& at(n.window_counts, pid, 0) == at(m.window_counts, pid, 0) + won
                &&& n.prev_sent_bytes == m.prev_sent_bytes
            }
        }),
{
    let s = plan.stats@;
    if k < b {
        assert(s[k].pid < s[b].pid);
    } else if b < k {
        assert(s[b].pid < s[k].pid);
    }
}

/// A row shows the smallest and the latest round-trip time of its own path, in whole
/// microseconds.
pub proof fn linucb_row_shows_its_paths_times(
    m: LinUcbModel,
    plan: SelectPlan,
    b: int,
    paths: Seq<Path>,
    now: u64,
    k: int,
    i: int,
)
    requires
        ordered(paths),
        0 <= k < plan.stats@.len(),
        0 <= i < paths.len(),
        plan.stats@[k].pid == paths[i].id,
        record_is_due(m.last_log, now),
    ensures
        ({
            let row = selected(m, plan, b, paths, now).records.last().rows[k];
            &&& row.min_rtt_us == paths[i].min_rtt / 1000
            &&& row.latest_rtt_us == paths[i].latest_rtt / 1000
        }),
{
    assert forall|j: int| 0 <= j < i implies paths[j].id != paths[i].id by {
        assert(paths[j].id < paths[i].id);
    }
    lemma_index_of(paths, paths[i].id, i);
}

proof fn lemma_stats_noted(prev: Seq<Option<u64>>, stats: Seq<PathStats>, k: int)
    requires
        stats_ordered(stats),
        0 <= k < stats.len(),
    ensures
        at(stats_noted(prev, stats), stats[k].pid as int, None) == Some(stats[k].sent_bytes),
    decreases stats.len(),
{
    let front = stats.drop_last();
    let last = stats.len() - 1;
    lemma_placed_at(
        stats_noted(prev, front),
        stats.last().pid as int,
        Some(stats.last().sent_bytes),
        None,
        stats[k].pid as int,
    );
    if k < last {
        assert(stats[k].pid < stats[last].pid);
        assert forall|a: int, b: int| 0 <= a < b < front.len() implies #[trigger] front[a].pid
            < #[trigger] front[b].pid by {
            assert(front[a] == stats[a] && front[b] == stats[b]);
        }
        assert forall|a: int| 0 <= a < front.len() implies (#[trigger] front[a]).pid
            < usize::MAX by {
            assert(front[a] == stats[a]);
        }
        lemma_stats_noted(prev, front, k);
        assert(front[k] == stats[k]);
    }
}

/// Between two records that both hold a path it sent what its sent bytes rose by,
/// whatever was decided in between.
pub proof fn linucb_row_counts_bytes_since_the_last_record(
    m: LinUcbModel,
    before: SelectPlan,
    b: int,
    earlier: Seq<Path>,
    then: u64,
    n: LinUcbModel,
    plan: SelectPlan,
    c: int,
    paths: Seq<Path>,
    now: u64,
    i: int,
    k: int,
)
    requires
        before.wf(),
        0 <= i < before.stats@.len(),
        record_is_due(m.last_log, then),
        n.prev_sent_bytes == selected(m, before, b, earlier, then).prev_sent_bytes,
        0 <= k < plan.stats@.len(),
        plan.stats@[k].pid == before.stats@[i].pid,
        record_is_due(n.last_log, now),
    ensures
        selected(n, plan, c, paths, now).records.last().rows[k].delta_bytes == rise(
            before.stats@[i].sent_bytes,
            plan.stats@[k].sent_bytes,
        ),
{
    lemma_stats_noted(m.prev_sent_bytes, before.stats@, i);
}

/// The sum of what each row counted.
pub open spec fn bytes_of_rows(
    m: LinUcbModel,
    plan: SelectPlan,
    b: int,
    paths: Seq<Path>,
    now: u64,
    k: nat,
) -> int
    decreases k,
{
    if k == 0 {
        0
    } else {
        bytes_of_rows(m, plan, b, paths, now, (k - 1) as nat) + selected(
            m,
            plan,
            b,
            paths,
            now,
        ).records.last().rows[k - 1].delta_bytes
    }
}

proof fn lemma_sum_of_rows(
    m: LinUcbModel,
    plan: SelectPlan,
    b: int,
    paths: Seq<Path>,
    now: u64,
    k: nat,
)
    requires
        k <= plan.stats@.len(),
        record_is_due(m.last_log, now),
        bytes_of_rows(m, plan, b, paths, now, k) <= u64::MAX,
    ensures
        bytes_of_rows(m, plan, b, paths, now, k) >= 0,
        all_sent_since(m.prev_sent_bytes, plan.stats@.subrange(0, k as int)) == bytes_of_rows(
            m,
            plan,
            b,
            paths,
            now,
            k,
        ),
    decreases k,
{
    if k > 0 {
        let j = (k - 1) as nat;
        lemma_rows_nonnegative(m, plan, b, paths, now, j);
        lemma_sum_of_rows(m, plan, b, paths, now, j);
        let s = plan.stats@.subrange(0, k as int);
        assert(s.drop_last() =~= plan.stats@.subrange(0, j as int));
        assert(s.last() == plan.stats@[j as int]);
    }
}

proof fn lemma_rows_nonnegative(
    m: LinUcbModel,
    plan: SelectPlan,
    b: int,
    paths: Seq<Path>,
    now: u64,
    k: nat,
)
    ensures
        bytes_of_rows(m, plan, b, paths, now, k) >= 0,
    decreases k,
{
    if k > 0 {
        lemma_rows_nonnegative(m, plan, b, paths, now, (k - 1) as nat);
    }
}

/// The total of a record is the sum of its rows, so that the shares of the bytes add
/// up to the whole.
pub proof fn linucb_rows_sum_up(
    m: LinUcbModel,
    plan: SelectPlan,
    b: int,
    paths: Seq<Path>,
    now: u64,
    k: int,
)
    requires
        0 <= k < plan.stats@.len(),
        record_is_due(m.last_log, now),
        bytes_of_rows(m, plan, b, paths, now, plan.stats@.len()) <= u64::MAX,
    ensures
        selected(m, plan, b, paths, now).records.last().rows[k].total_delta == bytes_of_rows(
            m,
            plan,
            b,
            paths,
            now,
            plan.stats@.len(),
        ),
{
    lemma_sum_of_rows(m, plan, b, paths, now, plan.stats@.len());
    assert(plan.stats@.subrange(0, plan.stats@.len() as int) =~= plan.stats@);
}

proof fn lemma_addrs_noted(
    addrs: Seq<Option<Seq<char>>>,
    stats: Seq<PathStats>,
    paths: Seq<Path>,
    pid: usize,
)
    ensures
        at(addrs, pid as int, None) is Some ==> at(
            addrs_noted(addrs, stats, paths),
            pid as int,
            None,
        ) == at(addrs, pid as int, None),
        at(addrs, pid as int, None) is None ==> ({
            let k = index_of(paths, pid);
            let a = at(addrs_noted(addrs, stats, paths), pid as int, None);
            if k < paths.len() && exists|j: int|
                0 <= j < stats.len() && (#[trigger] stats[j]).pid == pid {
                a == Some(
                    if paths[k].local_unspecified {
                        paths[k].remote_ip@
                    } else {
                        paths[k].local_ip@
                    },
                )
            } else {
                a is None
            }
        }),
    decreases stats.len(),
{
    if stats.len() > 0 {
        let front = stats.drop_last();
        let last = stats.len() - 1;
        lemma_addrs_noted(addrs, front, paths, pid);
        let before = addrs_noted(addrs, front, paths);
        let x = addrs_noted(addrs, stats, paths)[stats.last().pid as int];
        lemma_placed_at(before, stats.last().pid as int, x, None, pid as int);
        if stats.last().pid == pid {
            assert(stats[last].pid == pid);
        }
        if exists|j: int| 0 <= j < front.len() && (#[trigger] front[j]).pid == pid {
            let j = choose|j: int| 0 <= j < front.len() && (#[trigger] front[j]).pid == pid;
            assert(stats[j].pid == pid);
        }
        if exists|j: int| 0 <= j < stats.len() && (#[trigger] stats[j]).pid == pid {
            let j = choose|j: int| 0 <= j < stats.len() && (#[trigger] stats[j]).pid == pid;
            if j < last {
                assert(front[j].pid == pid);
            }
        }
    }
}

/// A path is named by its local address, or by the remote one where the local one is
/// the wildcard address; the name that it got first stays.
pub proof fn path_is_named_by_its_address(
    m: LinUcbModel,
    plan: SelectPlan,
    b: int,
    paths: Seq<Path>,
    now: u64,
    k: int,
    i: int,
)
    requires
        ordered(paths),
        0 <= k < plan.stats@.len(),
        0 <= i < paths.len(),
        plan.stats@[k].pid == paths[i].id,
    ensures
        ({
            let known = at(m.path_addrs, paths[i].id as int, None);
            at(selected(m, plan, b, paths, now).path_addrs, paths[i].id as int, None) == (if known
                is Some {
                known
            } else if paths[i].local_unspecified {
                Some(paths[i].remote_ip@)
            } else {
                Some(paths[i].local_ip@)
            })
        }),
{
    assert forall|j: int| 0 <= j < i implies paths[j].id != paths[i].id by {
        assert(paths[j].id < paths[i].id);
    }
    lemma_index_of(paths, paths[i].id, i);
    lemma_addrs_noted(m.path_addrs, plan.stats@, paths, paths[i].id);
}

// ───────────────────────────── epsilon-greedy ─────────────────────────────

/// A selection is recorded exactly where the last selection record is a second old or
/// there is none: the record names the selected path, and holds of every candidate its
/// features, its share of the selections since the record before, and its arm.
pub proof fn selection_is_recorded_once_a_second(
    m: GreedyModel,
    c: Seq<Candidate>,
    b: int,
    paths: Seq<Path>,
    now: u64,
    k: int,
)
    requires
        0 <= b < c.len(),
        0 <= k < c.len(),
        at(m.counts, c[b].pid as int, 0) < u64::MAX,
        m.counts_total < u64::MAX,
    ensures
        ({
            let n = greedy_selected(m, c, b, paths, now);
            let won = if c[k].pid == c[b].pid {
                1int
            } else {
                0
            };
            let secs = if now >= m.metrics.start_time {
                (now - m.metrics.start_time) / 1_000_000_000
            } else {
                0
            };
            if record_is_due(m.last_log, now) {
                let r = n.records.last();
                &&& n.records == m.records.push(r)
                &&& r.step == m.records.len()
                &&& r.elapsed_s == secs
                &&& r.timestamp == m.metrics.start_unix_secs + secs
                &&& n.last_log == Some(now)
                &&& n.counts_total == 0
                &&& at(n.counts, c[k].pid as int, 0) == 0
                &&& r.event matches GreedyEventModel::Selection { selected: pid, rows } && {
                    &&& pid == c[b].pid
                    &&& rows.len() == c.len()
                    &&& rows[k].pid == c[k].pid
                    &&& rows[k].context == c[k].context
                    &&& rows[k].count == at(m.counts, c[k].pid as int, 0) + won
                    &&& rows[k].total == m.counts_total + 1
                    &&& rows[k].arm == arm_or_new(n, c[k].pid as int)
                }
            } else {
                &&& n.records == m.records
                &&& n.last_log == m.last_log
                &&& n.counts_total == m.counts_total + 1
                &&& at(n.counts, c[k].pid as int, 0) == at(m.counts, c[k].pid as int, 0) + won
            }
        }),
{
}

/// Every selection enters the traffic metrics as a selection of its path.
pub proof fn selection_enters_the_traffic_metrics(
    m: GreedyModel,
    c: Seq<Candidate>,
    b: int,
    paths: Seq<Path>,
    now: u64,
)
    requires
        0 <= b < c.len(),
    ensures
        greedy_selected(m, c, b, paths, now).metrics == recorded(
            m.metrics,
            c[b].pid as int,
            paths,
            now,
        ),
{
}

// ───────────────────────────── starting ─────────────────────────────

/// A scheduler and a collector start with nothing selected, nothing pending, nothing
/// acknowledged and nothing recorded, at the time that they are given.
pub proof fn nothing_is_counted_at_the_start(now: u64, unix_secs: u64, pid: int)
    ensures
        ({
            let m = linucb_start(now, unix_secs);
            &&& m.start_time == now && m.start_unix_secs == unix_secs
            &&& m.last_log is None && m.last_selected is None
            &&& m.window_total == 0 && m.total_selections == 0
            &&& at(m.window_counts, pid, 0) == 0 && at(m.total_counts, pid, 0) == 0
            &&& at(m.ack_counts, pid, 0) == 0
            &&& at(m.prev_acked_count, pid, 0) == 0 && at(m.prev_sent_count, pid, 0) == 0
            &&& at(m.prev_sent_bytes, pid, None) is None
            &&& at(m.pending_context, pid, None) is None && at(m.pending_since, pid, None) is None
            &&& at(m.last_selection_time, pid, None) is None
            &&& m.records.len() == 0 && m.snapshots.len() == 0
        }),
        ({
            let t = traffic_start(now, unix_secs);
            &&& t.start_time == now && t.start_unix_secs == unix_secs
            &&& t.last_log is None && t.window_total == 0 && t.records.len() == 0
            &&& at(t.window_counts, pid, 0) == 0 && at(t.prev_sent_bytes, pid, 0) == 0
        }),
{
}

} // verus!
