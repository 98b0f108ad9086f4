//! What the epsilon-greedy scheduler promises, from the transport's counts of the
//! paths to what a selection is taken on and what feedback observes and rewards.

use crate::dense::at;
use crate::linucb_laws::{rate_of, rise};
use crate::paths::{ordered, sendable, Path};
use crate::scheduler_epsilon_greedy::{
    arm_or_new, candidate, candidates, greedy_acked, greedy_prepared, greedy_selected, in_pool,
    least_rtt, least_selections, lemma_arms_ensured, lemma_least_selections, lemma_pool,
    lemma_samples_placed, most_active_pacing, most_pacing, new_arm, path_feedback, pool,
    samples_total, selections_of, sendable_paths, stale_trained, stale_trainings, ArmState,
    Candidate, GreedyEventModel, GreedyModel, StaleTraining, UpdateSource,
};
use crate::scores::{is_ratio, lemma_plain_ratio};
use vstd::prelude::*;

verus! {

// ───────────────────────────── candidates ─────────────────────────────

/// The position of a path among those that can send.
proof fn lemma_sendable_at(paths: Seq<Path>, i: int) -> (k: int)
    requires
        0 <= i < paths.len(),
        sendable(paths[i]),
    ensures
        0 <= k < sendable_paths(paths).len(),
        sendable_paths(paths)[k] == paths[i],
    decreases paths.len(),
{
    let front = paths.drop_last();
    if i < front.len() {
        let k = lemma_sendable_at(front, i);
        assert(sendable_paths(paths)[k] == sendable_paths(front)[k]);
        k
    } else {
        sendable_paths(front).len() as int
    }
}

proof fn lemma_sendable_from(paths: Seq<Path>, k: int) -> (i: int)
    requires
        0 <= k < sendable_paths(paths).len(),
    ensures
        0 <= i < paths.len(),
        sendable(paths[i]),
        sendable_paths(paths)[k] == paths[i],
    decreases paths.len(),
{
    let front = paths.drop_last();
    if k < sendable_paths(front).len() {
        let i = lemma_sendable_from(front, k);
        assert(sendable_paths(paths)[k] == sendable_paths(front)[k]);
        assert(front[i] == paths[i]);
        i
    } else {
        paths.len() - 1
    }
}

proof fn lemma_candidate_is_path(paths: Seq<Path>, i: int, k: int)
    requires
        ordered(paths),
        0 <= i < paths.len(),
        0 <= k < candidates(paths).len(),
        candidates(paths)[k].pid == paths[i].id,
    ensures
        sendable(paths[i]),
        sendable_paths(paths)[k] == paths[i],
{
    let j = lemma_sendable_from(paths, k);
    if i < j {
        assert(paths[i].id < paths[j].id);
    } else if j < i {
        assert(paths[j].id < paths[i].id);
    }
}

/// A path is among the candidates.
pub open spec fn is_candidate(c: Seq<Candidate>, pid: usize) -> bool {
    exists|k: int| 0 <= k < c.len() && (#[trigger] c[k]).pid == pid
}

/// The candidates are exactly the paths that can send.
pub proof fn candidates_are_the_sendable_paths(paths: Seq<Path>, i: int)
    requires
        ordered(paths),
        0 <= i < paths.len(),
    ensures
        is_candidate(candidates(paths), paths[i].id) <==> paths[i].active && paths[i].can_send,
{
    let c = candidates(paths);
    if sendable(paths[i]) {
        let k = lemma_sendable_at(paths, i);
        assert(c[k].pid == paths[i].id);
    }
    if is_candidate(c, paths[i].id) {
        let k = choose|k: int| 0 <= k < c.len() && (#[trigger] c[k]).pid == paths[i].id;
        lemma_candidate_is_path(paths, i, k);
    }
}

/// The transport's smoothed round-trip time, at least 1.
pub open spec fn smoothed(p: Path) -> int {
    if p.smoothed_rtt == 0 {
        1
    } else {
        p.smoothed_rtt as int
    }
}

/// A path that can send has this round-trip time.
pub open spec fn some_smoothed(paths: Seq<Path>, x: int) -> bool {
    exists|j: int| 0 <= j < paths.len() && sendable(#[trigger] paths[j]) && smoothed(paths[j]) == x
}

/// No path that can send has a smaller round-trip time, and one has this.
pub open spec fn smallest_smoothed(paths: Seq<Path>, x: int) -> bool {
    &&& some_smoothed(paths, x)
    &&& forall|j: int|
        0 <= j < paths.len() && sendable(#[trigger] paths[j]) ==> x <= smoothed(paths[j])
}

/// A path that can send has this pacing rate, and none has a larger one.
pub open spec fn fastest(paths: Seq<Path>, x: int) -> bool {
    &&& exists|j: int|
        0 <= j < paths.len() && sendable(#[trigger] paths[j]) && rate_of(paths[j]) == x
    &&& forall|j: int|
        0 <= j < paths.len() && sendable(#[trigger] paths[j]) ==> rate_of(paths[j]) <= x
}

proof fn lemma_least_rtt(s: Seq<Path>)
    ensures
        forall|k: int| 0 <= k < s.len() ==> least_rtt(s) <= smoothed(#[trigger] s[k]),
        s.len() > 0 ==> exists|k: int|
            0 <= k < s.len() && smoothed(#[trigger] s[k]) == least_rtt(s),
    decreases s.len(),
{
    if s.len() > 0 {
        let front = s.drop_last();
        lemma_least_rtt(front);
        assert forall|k: int| 0 <= k < s.len() implies least_rtt(s) <= smoothed(
            #[trigger] s[k],
        ) by {
            if k < front.len() {
                assert(front[k] == s[k]);
            }
        }
        if least_rtt(s) == smoothed(s.last()) {
            assert(smoothed(s[s.len() - 1]) == least_rtt(s));
        } else if front.len() > 0 {
            let k = choose|k: int|
                0 <= k < front.len() && smoothed(#[trigger] front[k]) == least_rtt(front);
            assert(smoothed(s[k]) == least_rtt(s));
        }
    }
}

proof fn lemma_most_pacing(s: Seq<Path>)
    ensures
        forall|k: int| 0 <= k < s.len() ==> rate_of(#[trigger] s[k]) <= most_pacing(s),
        s.len() > 0 ==> exists|k: int|
            0 <= k < s.len() && rate_of(#[trigger] s[k]) == most_pacing(s),
    decreases s.len(),
{
    if s.len() > 0 {
        let front = s.drop_last();
        lemma_most_pacing(front);
        assert forall|k: int| 0 <= k < s.len() implies rate_of(#[trigger] s[k]) <= most_pacing(
            s,
        ) by {
            if k < front.len() {
                assert(front[k] == s[k]);
            }
        }
        if most_pacing(s) == rate_of(s.last()) {
            assert(rate_of(s[s.len() - 1]) == most_pacing(s));
        } else if front.len() > 0 {
            let k = choose|k: int|
                0 <= k < front.len() && rate_of(#[trigger] front[k]) == most_pacing(front);
            assert(rate_of(s[k]) == most_pacing(s));
        }
    }
}

/// The features of a candidate come from its path: the smallest round-trip time of the
/// candidates over its own, the part of its congestion window that is not in flight,
/// and its pacing rate over the largest one.
pub proof fn features_follow_the_path(paths: Seq<Path>, i: int, k: int, x: int, y: int)
    requires
        ordered(paths),
        0 <= i < paths.len(),
        0 <= k < candidates(paths).len(),
        candidates(paths)[k].pid == paths[i].id,
        smallest_smoothed(paths, x),
        fastest(paths, y),
    ensures
        ({
            let f = candidates(paths)[k].context;
            let p = paths[i];
            &&& is_ratio(f.latency, x, smoothed(p))
            &&& p.bytes_in_flight >= p.cwnd ==> is_ratio(f.cwnd_headroom, 0, 1)
            &&& p.bytes_in_flight < p.cwnd ==> is_ratio(
                f.cwnd_headroom,
                p.cwnd - p.bytes_in_flight,
                p.cwnd as int,
            )
            &&& y > 0 ==> is_ratio(f.relative_pacing, rate_of(p), y)
            &&& y == 0 ==> is_ratio(f.relative_pacing, 0, 1)
        }),
{
    let s = sendable_paths(paths);
    lemma_candidate_is_path(paths, i, k);
    lemma_least_rtt(s);
    lemma_most_pacing(s);
    let j = choose|j: int|
        0 <= j < paths.len() && sendable(#[trigger] paths[j]) && smoothed(paths[j]) == x;
    let a = lemma_sendable_at(paths, j);
    let b = choose|b: int| 0 <= b < s.len() && smoothed(#[trigger] s[b]) == least_rtt(s);
    let c = lemma_sendable_from(paths, b);
    assert(smoothed(s[a]) == x && x <= smoothed(paths[c]));
    assert(x == least_rtt(s));
    let j = choose|j: int|
        0 <= j < paths.len() && sendable(#[trigger] paths[j]) && rate_of(paths[j]) == y;
    let a = lemma_sendable_at(paths, j);
    let b = choose|b: int| 0 <= b < s.len() && rate_of(#[trigger] s[b]) == most_pacing(s);
    let c = lemma_sendable_from(paths, b);
    assert(rate_of(s[a]) == y && rate_of(paths[c]) <= y);
    assert(y == most_pacing(s));
    assert(x <= smoothed(paths[i]));
    assert(rate_of(paths[i]) <= y);
    let p = paths[i];
    let f = candidates(paths)[k].context;
    assert(candidates(paths)[k] == candidate(p, least_rtt(s), most_pacing(s)));
    if p.bytes_in_flight >= p.cwnd {
        assert(f.cwnd_headroom.part() == 0);
    }
}

// ───────────────────────────── feedback ─────────────────────────────

/// The loss that feedback observes is that of the packets since the feedback before:
/// the rise of the path's lost packets over the rise of its lost and acknowledged
/// packets together. Nothing is observed where neither rose.
pub proof fn observed_loss_is_lost_over_outcomes(
    m: GreedyModel,
    p: Path,
    before: Seq<Path>,
    then: u64,
    n: GreedyModel,
    q: Path,
    paths: Seq<Path>,
    now: u64,
)
    requires
        p.id == q.id,
        ({
            let a = arm_or_new(greedy_acked(m, p, before, then), p.id as int);
            let b = arm_or_new(n, p.id as int);
            a.prev == b.prev && a.counters_initialized == b.counters_initialized
        }),
        q.acked_count + q.lost_count <= u64::MAX,
    ensures
        ({
            let loss = path_feedback(n, q, paths, now).1;
            let lost = rise(p.lost_count, q.lost_count);
            let acknowledged = rise(p.acked_count, q.acked_count);
            &&& loss is Some <==> lost + acknowledged > 0
            &&& loss is Some ==> is_ratio(loss.unwrap().loss, lost, lost + acknowledged)
            &&& loss is Some && q.lost_count <= p.lost_count ==> is_ratio(
                loss.unwrap().loss,
                0,
                1,
            )
            &&& loss is Some ==> (loss.unwrap().first <==> !arm_or_new(
                n,
                p.id as int,
            ).loss_ewma_init)
        }),
{
    let loss = path_feedback(n, q, paths, now).1;
    let lost = rise(p.lost_count, q.lost_count);
    let acknowledged = rise(p.acked_count, q.acked_count);
    assert(arm_or_new(n, p.id as int).prev.lost_pkts == p.lost_count);
    assert(arm_or_new(n, p.id as int).prev.acked_pkts == p.acked_count);
    if loss is Some {
        lemma_plain_ratio(loss.unwrap().loss);
    }
}

/// The feedback window of the path holds what its packets did from `p` to `q`, and the
/// latest feedback was at `q`.
pub open spec fn window_spans(n: GreedyModel, p: Path, q: Path) -> bool {
    let a = arm_or_new(n, q.id as int);
    &&& p.id == q.id
    &&& p.lost_count <= q.lost_count
    &&& p.acked_count <= q.acked_count
    &&& a.counters_initialized
    &&& a.window.lost_pkts == q.lost_count - p.lost_count
    &&& a.window.acked_pkts == q.acked_count - p.acked_count
    &&& a.prev.lost_pkts == q.lost_count
    &&& a.prev.acked_pkts == q.acked_count
    &&& a.prev.sent_bytes == q.sent_bytes
    &&& a.prev.acked_bytes == q.acked_bytes
    &&& a.prev.lost_bytes == q.lost_bytes
}

/// The first feedback on a path opens its window there.
pub proof fn first_feedback_opens_the_window(m: GreedyModel, p: Path, paths: Seq<Path>, now: u64)
    requires
        at(m.arms, p.id as int, None) is None || !arm_or_new(m, p.id as int).counters_initialized
            && arm_or_new(m, p.id as int).window == new_arm().window,
    ensures
        path_feedback(m, p, paths, now).1 is None,
        path_feedback(m, p, paths, now).2 is None,
        window_spans(greedy_acked(m, p, paths, now), p, p),
{
}

/// Feedback either extends the window up to itself, or closes it and opens the next
/// one there.
pub proof fn feedback_extends_or_closes_the_window(
    n: GreedyModel,
    p: Path,
    q: Path,
    r: Path,
    paths: Seq<Path>,
    now: u64,
)
    requires
        window_spans(n, p, q),
        r.id == q.id,
        q.lost_count <= r.lost_count,
        q.acked_count <= r.acked_count,
    ensures
        window_spans(greedy_acked(n, r, paths, now), p, r) || window_spans(
            greedy_acked(n, r, paths, now),
            r,
            r,
        ),
        path_feedback(n, r, paths, now).2 is Some ==> window_spans(
            greedy_acked(n, r, paths, now),
            r,
            r,
        ),
{
}

/// The loss of a closed window's reward is the rise of the path's lost packets over the
/// window, divided by all its outcomes; in particular it is 0 where no packet was lost
/// in it.
pub proof fn rewarded_loss_is_lost_over_outcomes(
    n: GreedyModel,
    p: Path,
    q: Path,
    r: Path,
    paths: Seq<Path>,
    now: u64,
)
    requires
        window_spans(n, p, q),
        r.id == q.id,
        q.lost_count <= r.lost_count,
        q.acked_count <= r.acked_count,
        r.lost_count + r.acked_count <= u64::MAX,
        path_feedback(n, r, paths, now).2 is Some,
    ensures
        ({
            let w = path_feedback(n, r, paths, now).2.unwrap().reward;
            let lost = r.lost_count - p.lost_count;
            let acknowledged = r.acked_count - p.acked_count;
            &&& is_ratio(w.loss, lost, lost + acknowledged)
            &&& lost == 0 ==> is_ratio(w.loss, 0, 1)
        }),
{
    let w = path_feedback(n, r, paths, now).2.unwrap().reward;
    assert(w.loss.num == r.lost_count - p.lost_count);
    assert(w.loss.den == (r.lost_count - p.lost_count) + (r.acked_count - p.acked_count));
    lemma_plain_ratio(w.loss);
}

/// The delivery of a reward is acknowledged over sent bytes: what the window held, and
/// what both rose by since the feedback before.
pub proof fn rewarded_delivery_is_acknowledged_over_sent_bytes(
    n: GreedyModel,
    p: Path,
    q: Path,
    r: Path,
    paths: Seq<Path>,
    now: u64,
)
    requires
        window_spans(n, p, q),
        r.id == q.id,
        q.sent_bytes <= r.sent_bytes,
        q.acked_bytes <= r.acked_bytes,
        arm_or_new(n, q.id as int).window.sent_bytes <= q.sent_bytes,
        arm_or_new(n, q.id as int).window.acked_bytes <= q.acked_bytes,
        path_feedback(n, r, paths, now).2 is Some,
    ensures
        ({
            let a = arm_or_new(n, q.id as int);
            let w = path_feedback(n, r, paths, now).2.unwrap().reward;
            let sent = a.window.sent_bytes + (r.sent_bytes - q.sent_bytes);
            let got = a.window.acked_bytes + (r.acked_bytes - q.acked_bytes);
            &&& w.sent_bytes == sent
            &&& sent > 0
            &&& got <= sent ==> is_ratio(w.delivery, got, sent)
            &&& got > sent ==> is_ratio(w.delivery, 1, 1)
        }),
{
}

/// Feedback that leaves the window open adds what the path's bytes rose by to it, but
/// for feedback without an outcome, which leaves the window alone.
pub proof fn open_window_gathers_bytes(
    n: GreedyModel,
    p: Path,
    q: Path,
    r: Path,
    paths: Seq<Path>,
    now: u64,
)
    requires
        window_spans(n, p, q),
        r.id == q.id,
        q.lost_count <= r.lost_count,
        q.acked_count <= r.acked_count,
        q.sent_bytes <= r.sent_bytes,
        q.acked_bytes <= r.acked_bytes,
        q.lost_bytes <= r.lost_bytes,
        arm_or_new(n, q.id as int).window.sent_bytes <= q.sent_bytes,
        arm_or_new(n, q.id as int).window.acked_bytes <= q.acked_bytes,
        arm_or_new(n, q.id as int).window.lost_bytes <= q.lost_bytes,
    ensures
        ({
            let a = arm_or_new(n, q.id as int).window;
            let b = arm_or_new(greedy_acked(n, r, paths, now), q.id as int).window;
            let quiet = q.lost_count == r.lost_count && q.acked_count == r.acked_count;
            &&& quiet ==> b == a
            &&& !quiet ==> {
                ||| b.sent_bytes == a.sent_bytes + (r.sent_bytes - q.sent_bytes) && b.acked_bytes
                    == a.acked_bytes + (r.acked_bytes - q.acked_bytes) && b.lost_bytes
                    == a.lost_bytes + (r.lost_bytes - q.lost_bytes)
                ||| b == new_arm().window
            }
        }),
{
}

/// An active path has this pacing rate, or it is 0, and no active path has a larger one.
pub open spec fn fastest_active(paths: Seq<Path>, x: int) -> bool {
    &&& x == 0 || exists|j: int|
        0 <= j < paths.len() && (#[trigger] paths[j]).active && rate_of(paths[j]) == x
    &&& forall|j: int|
        0 <= j < paths.len() && (#[trigger] paths[j]).active ==> rate_of(paths[j]) <= x
    &&& x >= 0
}

proof fn lemma_most_active_pacing(paths: Seq<Path>)
    ensures
        fastest_active(paths, most_active_pacing(paths) as int),
    decreases paths.len(),
{
    if paths.len() > 0 {
        let front = paths.drop_last();
        lemma_most_active_pacing(front);
        let x = most_active_pacing(paths) as int;
        assert forall|j: int|
            0 <= j < paths.len() && (#[trigger] paths[j]).active implies rate_of(paths[j]) <= x by {
            if j < front.len() {
                assert(front[j] == paths[j]);
            }
        }
        if x != 0 {
            if x == most_active_pacing(front) {
                let j = choose|j: int|
                    0 <= j < front.len() && (#[trigger] front[j]).active && rate_of(front[j]) == x;
                assert(paths[j].active && rate_of(paths[j]) == x);
            } else {
                let j = paths.len() - 1;
                assert(paths[j].active && rate_of(paths[j]) == x);
            }
        }
    }
}

/// The rest of a reward: the rate is measured against the larger of the path's own
/// pacing rate and the largest of an active path; the window's length runs from its
/// start; the latency is the smallest round-trip time seen over the present one, at
/// least a quarter; the saturation is what is in flight of the congestion window.
#[verifier::rlimit(30)]
pub proof fn reward_follows_the_path(n: GreedyModel, r: Path, paths: Seq<Path>, now: u64, x: int)
    requires
        path_feedback(n, r, paths, now).2 is Some,
        fastest_active(paths, x),
    ensures
        ({
            let a = arm_or_new(n, r.id as int);
            let f = path_feedback(n, r, paths, now).2.unwrap();
            let w = f.reward;
            let base = if a.base_rtt_ns == 0 || smoothed(r) < a.base_rtt_ns {
                smoothed(r)
            } else {
                a.base_rtt_ns as int
            };
            &&& f.decisions == a.pending_decisions
            &&& f.decisions > 0
            &&& w.baseline == (if rate_of(r) > x {
                rate_of(r)
            } else {
                x
            })
            &&& w.window_ns == (match a.window_start {
                Some(t) => if now >= t {
                    now - t
                } else {
                    0
                },
                None => 0,
            })
            &&& base * 4 >= smoothed(r) ==> is_ratio(w.latency, base, smoothed(r))
            &&& base * 4 < smoothed(r) ==> is_ratio(w.latency, 1, 4)
            &&& w.saturation is Some <==> r.cwnd > 0
            &&& 0 < r.cwnd && r.bytes_in_flight <= r.cwnd ==> is_ratio(
                w.saturation.unwrap(),
                r.bytes_in_flight as int,
                r.cwnd as int,
            )
            &&& 0 < r.cwnd < r.bytes_in_flight ==> is_ratio(w.saturation.unwrap(), 1, 1)
        }),
{
    lemma_most_active_pacing(paths);
    let y = most_active_pacing(paths) as int;
    assert(x == y) by {
        if x != 0 {
            let j = choose|j: int|
                0 <= j < paths.len() && (#[trigger] paths[j]).active && rate_of(paths[j]) == x;
            assert(rate_of(paths[j]) <= y);
        }
        if y != 0 {
            let j = choose|j: int|
                0 <= j < paths.len() && (#[trigger] paths[j]).active && rate_of(paths[j]) == y;
            assert(rate_of(paths[j]) <= x);
        }
    }
}

/// A window is rewarded exactly where decisions are pending, the feedback brings an
/// outcome, something was sent in the window, and the window holds at least 32
/// outcomes or has been open for at least 250 milliseconds.
pub proof fn window_is_rewarded_when_it_is_full_or_old(
    n: GreedyModel,
    p: Path,
    q: Path,
    r: Path,
    paths: Seq<Path>,
    now: u64,
)
    requires
        window_spans(n, p, q),
        r.id == q.id,
        q.lost_count <= r.lost_count,
        q.acked_count <= r.acked_count,
        q.sent_bytes <= r.sent_bytes,
        arm_or_new(n, q.id as int).window.sent_bytes <= q.sent_bytes,
        r.lost_count + r.acked_count <= u64::MAX,
    ensures
        ({
            let a = arm_or_new(n, q.id as int);
            let outcomes = (r.lost_count - p.lost_count) + (r.acked_count - p.acked_count);
            let fresh = q.lost_count < r.lost_count || q.acked_count < r.acked_count;
            let sent = a.window.sent_bytes > 0 || q.sent_bytes < r.sent_bytes;
            let aged = a.window_start matches Some(t) && now - t >= 250_000_000;
            path_feedback(n, r, paths, now).2 is Some <==> {
                &&& a.pending_decisions > 0
                &&& fresh
                &&& sent
                &&& outcomes >= 32 || aged
            }
        }),
{
}

/// The base round-trip time of a path is the smallest that feedback with an outcome, or
/// the first one, saw.
pub proof fn base_time_is_the_smallest_seen(n: GreedyModel, r: Path, paths: Seq<Path>, now: u64)
    ensures
        ({
            let a = arm_or_new(n, r.id as int);
            let b = arm_or_new(greedy_acked(n, r, paths, now), r.id as int);
            let observed = !a.counters_initialized || path_feedback(n, r, paths, now).1 is Some;
            &&& observed && a.base_rtt_ns == 0 ==> b.base_rtt_ns == smoothed(r)
            &&& observed && a.base_rtt_ns > 0 ==> b.base_rtt_ns <= a.base_rtt_ns && b.base_rtt_ns
                <= smoothed(r) && (b.base_rtt_ns == a.base_rtt_ns || b.base_rtt_ns == smoothed(r))
            &&& !observed ==> b.base_rtt_ns == a.base_rtt_ns
        }),
{
}

/// The first observed loss replaces the smoothed one; every later one is smoothed in.
pub proof fn first_loss_comes_once(
    n: GreedyModel,
    r: Path,
    paths: Seq<Path>,
    now: u64,
    q: Path,
    others: Seq<Path>,
    later: u64,
)
    requires
        q.id == r.id,
        path_feedback(n, r, paths, now).1 is Some,
        path_feedback(greedy_acked(n, r, paths, now), q, others, later).1 is Some,
    ensures
        !path_feedback(greedy_acked(n, r, paths, now), q, others, later).1.unwrap().first,
{
}

/// A window opens with the first outcome after the last one was closed, or right when
/// it was closed, and keeps its start while it is open.
pub proof fn window_keeps_its_start(n: GreedyModel, r: Path, paths: Seq<Path>, now: u64)
    requires
        path_feedback(n, r, paths, now).1 is Some,
    ensures
        ({
            let a = arm_or_new(n, r.id as int);
            let b = arm_or_new(greedy_acked(n, r, paths, now), r.id as int);
            let closed = b.window == new_arm().window;
            &&& closed ==> b.window_start == Some(now)
            &&& !closed && a.window_start is Some ==> b.window_start == a.window_start
            &&& !closed && a.window_start is None ==> b.window_start == Some(now)
            &&& !closed ==> b.pending_decisions == a.pending_decisions && b.pending_since
                == a.pending_since
        }),
{
}

/// An update is recorded with its number, its time, and how many updates all paths had
/// together, this one included.
pub proof fn update_is_recorded_with_its_time(n: GreedyModel, r: Path, paths: Seq<Path>, now: u64)
    requires
        path_feedback(n, r, paths, now).2 is Some,
        arm_or_new(n, r.id as int).samples < u64::MAX,
    ensures
        ({
            let rec = greedy_acked(n, r, paths, now).records.last();
            let secs = if now >= n.metrics.start_time {
                (now - n.metrics.start_time) / 1_000_000_000
            } else {
                0
            };
            &&& rec.step == n.records.len()
            &&& rec.elapsed_s == secs
            &&& rec.timestamp == n.metrics.start_unix_secs + secs
            &&& rec.total_samples == samples_total(n.arms) + 1
        }),
{
    let a = arm_or_new(greedy_acked(n, r, paths, now), r.id as int);
    lemma_samples_placed(n.arms, r.id as int, Some(a));
}

/// All updates are the sum of those of each path.
pub proof fn updates_sum_up(arms: Seq<Option<ArmState>>, a: Option<ArmState>)
    ensures
        samples_total(Seq::<Option<ArmState>>::empty()) == 0,
        samples_total(arms.push(a)) == samples_total(arms) + (if a is Some {
            a.unwrap().samples as int
        } else {
            0
        }),
{
    assert(arms.push(a).drop_last() =~= arms);
}

/// Preparing a selection notes the smallest round-trip time of the paths that can send
/// and gives each of them an arm, a new one where it had none, and changes nothing
/// else.
pub proof fn preparing_keeps_the_arms(m: GreedyModel, paths: Seq<Path>, x: int, i: int, pid: int)
    requires
        ordered(paths),
        smallest_smoothed(paths, x),
        0 <= i < paths.len(),
        sendable(paths[i]),
        0 <= pid,
    ensures
        ({
            let n = greedy_prepared(m, paths);
            &&& n.last_min_rtt_ns == x
            &&& at(n.arms, paths[i].id as int, None) is Some
            &&& at(m.arms, pid, None) is Some ==> at(n.arms, pid, None) == at(m.arms, pid, None)
            &&& n.metrics == m.metrics && n.counts == m.counts && n.counts_total == m.counts_total
                && n.last_log == m.last_log && n.records == m.records
        }),
{
    let s = sendable_paths(paths);
    let c = candidates(paths);
    lemma_least_rtt(s);
    let j = choose|j: int|
        0 <= j < paths.len() && sendable(#[trigger] paths[j]) && smoothed(paths[j]) == x;
    let a = lemma_sendable_at(paths, j);
    let b = choose|b: int| 0 <= b < s.len() && smoothed(#[trigger] s[b]) == least_rtt(s);
    let d = lemma_sendable_from(paths, b);
    assert(smoothed(s[a]) == x && x <= smoothed(paths[d]));
    lemma_arms_ensured(m.arms, c);
    let k = lemma_sendable_at(paths, i);
    assert(c[k].pid == paths[i].id);
    assert(at(m.arms, pid, None) is Some ==> at(greedy_prepared(m, paths).arms, pid, None) == at(
        m.arms,
        pid,
        None,
    ));
}

// ───────────────────────────── stale decisions ─────────────────────────────

/// The path has decisions pending for more than a second.
pub open spec fn pending_too_long(arms: Seq<Option<ArmState>>, pid: int, now: u64) -> bool {
    &&& 0 <= pid < arms.len()
    &&& arms[pid] matches Some(a) && a.pending_decisions > 0 && (a.pending_since matches Some(
        t,
    ) && now - t > 1_000_000_000)
}

proof fn lemma_stale_trainings(arms: Seq<Option<ArmState>>, now: u64, n: nat, x: StaleTraining)
    requires
        n <= arms.len() <= usize::MAX,
    ensures
        stale_trainings(arms, now, n).contains(x) <==> {
            &&& x.path_id < n
            &&& pending_too_long(arms, x.path_id as int, now)
            &&& x.decisions == arms[x.path_id as int].unwrap().pending_decisions
            &&& x.samples == arms[x.path_id as int].unwrap().samples
        },
    decreases n,
{
    if n > 0 {
        let k = (n - 1) as nat;
        let before = stale_trainings(arms, now, k);
        let all = stale_trainings(arms, now, n);
        lemma_stale_trainings(arms, now, k, x);
        if all.contains(x) {
            let i = choose|i: int| 0 <= i < all.len() && all[i] == x;
            if i < before.len() {
                assert(before[i] == x);
            }
        }
        if before.contains(x) {
            let i = choose|i: int| 0 <= i < before.len() && before[i] == x;
            assert(all[i] == x);
        }
        if x.path_id == k && pending_too_long(arms, k as int, now) && x.decisions
            == arms[k as int].unwrap().pending_decisions && x.samples
            == arms[k as int].unwrap().samples {
            assert(all[all.len() - 1] == x);
        }
    }
}

/// Decisions are trained without reward exactly where they have been pending for more
/// than a second: all that are pending on the path, with the number of its updates so
/// far.
pub proof fn decisions_are_stale_after_a_second(
    arms: Seq<Option<ArmState>>,
    now: u64,
    x: StaleTraining,
)
    requires
        arms.len() <= usize::MAX,
    ensures
        stale_trainings(arms, now, arms.len()).contains(x) <==> {
            &&& pending_too_long(arms, x.path_id as int, now)
            &&& x.decisions == arms[x.path_id as int].unwrap().pending_decisions
            &&& x.samples == arms[x.path_id as int].unwrap().samples
        },
{
    lemma_stale_trainings(arms, now, arms.len(), x);
}

proof fn lemma_stale_arm(m: GreedyModel, now: u64, n: nat, pid: int)
    requires
        0 <= pid < m.arms.len(),
        n <= m.arms.len(),
    ensures
        stale_trained(m, now, n).arms.len() == m.arms.len(),
        ({
            let a = m.arms[pid];
            let b = stale_trained(m, now, n).arms[pid];
            if pid < n && pending_too_long(m.arms, pid, now) {
                &&& b is Some
                &&& b.unwrap().pending_decisions == 0
                &&& b.unwrap().pending_since is None
                &&& b.unwrap().selections == a.unwrap().selections
                &&& b.unwrap().samples == (a.unwrap().samples + 1) as u64
                &&& b.unwrap().prev == a.unwrap().prev
                &&& b.unwrap().window == new_arm().window
                &&& b.unwrap().window_start == Some(now)
            } else {
                b is Some <==> a is Some
            }
        }),
        pid >= n || m.arms[pid] is None || m.arms[pid].unwrap().pending_since is None
            ==> stale_trained(m, now, n).arms[pid] == m.arms[pid],
        m.arms[pid] is Some && m.arms[pid].unwrap().pending_since is Some && now
            - m.arms[pid].unwrap().pending_since.unwrap() <= 1_000_000_000 ==> stale_trained(
            m,
            now,
            n,
        ).arms[pid] == m.arms[pid],
    decreases n,
{
    if n > 0 {
        lemma_stale_arm(m, now, (n - 1) as nat, pid);
    }
}

/// What is stale is trained at once and no longer pending: the path keeps its
/// selections and the counts of its last feedback, has one update more, and begins a
/// new window. Paths with younger decisions, or none, stay as they are.
pub proof fn stale_decisions_are_released(m: GreedyModel, now: u64, pid: int)
    requires
        0 <= pid < m.arms.len(),
        m.arms[pid] is Some,
        m.arms[pid].unwrap().samples < u64::MAX,
    ensures
        ({
            let a = m.arms[pid].unwrap();
            let b = stale_trained(m, now, m.arms.len()).arms[pid].unwrap();
            if pending_too_long(m.arms, pid, now) {
                &&& b.pending_decisions == 0
                &&& b.pending_since is None
                &&& b.selections == a.selections
                &&& b.samples == a.samples + 1
                &&& b.prev == a.prev
                &&& b.window == new_arm().window
                &&& b.window_start == Some(now)
            } else {
                a.pending_since is None || now - a.pending_since.unwrap() <= 1_000_000_000 ==> b
                    == a
            }
        }),
{
    lemma_stale_arm(m, now, m.arms.len(), pid);
}

proof fn lemma_stale_keeps_counts(m: GreedyModel, now: u64, n: nat, pid: int)
    requires
        n <= m.arms.len(),
        0 <= pid,
    ensures
        stale_trained(m, now, n).arms.len() == m.arms.len(),
        ({
            let a = arm_or_new(m, pid);
            let b = arm_or_new(stale_trained(m, now, n), pid);
            &&& b.prev == a.prev
            &&& b.counters_initialized == a.counters_initialized
            &&& b.loss_ewma_init == a.loss_ewma_init
            &&& b.base_rtt_ns == a.base_rtt_ns
            &&& b.window == a.window && b.window_start == a.window_start || b.window
                == new_arm().window && b.window_start == Some(now)
        }),
    decreases n,
{
    if n > 0 {
        lemma_stale_keeps_counts(m, now, (n - 1) as nat, pid);
        if pid == n - 1 {
            lemma_stale_untouched(m, now, (n - 1) as nat, pid);
        }
    }
}

proof fn lemma_stale_untouched(m: GreedyModel, now: u64, n: nat, pid: int)
    requires
        n <= pid < m.arms.len(),
    ensures
        stale_trained(m, now, n).arms.len() == m.arms.len(),
        stale_trained(m, now, n).arms[pid] == m.arms[pid],
    decreases n,
{
    if n > 0 {
        lemma_stale_untouched(m, now, (n - 1) as nat, pid);
    }
}

/// Between two acknowledgements on a path, the second observes the loss of the packets
/// between them: the rise of the lost packets over the rise of the lost and
/// acknowledged ones together, whatever was trained for want of feedback in between.
pub proof fn loss_is_observed_between_acknowledgements(
    m: GreedyModel,
    p: Path,
    before: Seq<Path>,
    then: u64,
    q: Path,
    paths: Seq<Path>,
    now: u64,
)
    requires
        p.id == q.id,
        q.acked_count + q.lost_count <= u64::MAX,
    ensures
        ({
            let once = greedy_acked(m, p, before, then);
            let n = stale_trained(once, now, once.arms.len());
            let loss = path_feedback(n, q, paths, now).1;
            let lost = rise(p.lost_count, q.lost_count);
            let acknowledged = rise(p.acked_count, q.acked_count);
            &&& loss is Some <==> lost + acknowledged > 0
            &&& loss is Some ==> is_ratio(loss.unwrap().loss, lost, lost + acknowledged)
            &&& loss is Some && q.lost_count <= p.lost_count ==> is_ratio(
                loss.unwrap().loss,
                0,
                1,
            )
        }),
{
    let once = greedy_acked(m, p, before, then);
    let n = stale_trained(once, now, once.arms.len());
    lemma_stale_keeps_counts(once, now, once.arms.len(), p.id as int);
    observed_loss_is_lost_over_outcomes(m, p, before, then, n, q, paths, now);
}

/// Training stale decisions either leaves the window of a path alone or begins it anew
/// at the latest feedback.
pub proof fn stale_training_keeps_or_restarts_the_window(m: GreedyModel, p: Path, q: Path, now: u64)
    requires
        window_spans(m, p, q),
    ensures
        ({
            let n = stale_trained(m, now, m.arms.len());
            window_spans(n, p, q) || window_spans(n, q, q)
        }),
{
    lemma_stale_keeps_counts(m, now, m.arms.len(), q.id as int);
}

proof fn lemma_stale_records(m: GreedyModel, now: u64, n: nat, k: int)
    requires
        n <= m.arms.len(),
    ensures
        ({
            let done = stale_trained(m, now, n);
            let t = stale_trainings(m.arms, now, n);
            let old_len = m.records.len();
            &&& done.records.len() == old_len + t.len()
            &&& done.metrics == m.metrics
            &&& 0 <= k < old_len ==> done.records[k] == m.records[k]
            &&& old_len <= k < old_len + t.len() ==> {
                let r = done.records[k];
                &&& r.step == k
                &&& r.event matches GreedyEventModel::Update { path_id, arm, source } && {
                    &&& path_id == t[k - old_len].path_id
                    &&& source is StaleTimeout
                    &&& arm.pending_decisions == 0
                }
            }
        }),
    decreases n,
{
    if n > 0 {
        lemma_stale_records(m, now, (n - 1) as nat, k);
    }
}

/// Every training without reward leaves one record, in order, that names its path and
/// says that the decisions were stale; the records before it stay.
pub proof fn stale_decisions_are_recorded(m: GreedyModel, now: u64, k: int)
    ensures
        ({
            let done = stale_trained(m, now, m.arms.len());
            let t = stale_trainings(m.arms, now, m.arms.len());
            &&& done.records.len() == m.records.len() + t.len()
            &&& 0 <= k < m.records.len() ==> done.records[k] == m.records[k]
            &&& 0 <= k < t.len() ==> {
                let r = done.records[m.records.len() + k];
                &&& r.step == m.records.len() + k
                &&& r.event matches GreedyEventModel::Update { path_id, arm, source } && {
                    &&& path_id == t[k].path_id
                    &&& source is StaleTimeout
                    &&& arm.pending_decisions == 0
                }
            }
        }),
{
    lemma_stale_records(m, now, m.arms.len(), k);
    lemma_stale_records(m, now, m.arms.len(), m.records.len() + k);
}

// ───────────────────────────── selecting ─────────────────────────────

/// Which candidates may be drawn: while one of them has fewer than five selections,
/// those that no other has fewer than; then all of them where the scheduler explores,
/// and else those that tie with the best prediction.
pub proof fn pool_warms_up_then_explores_or_exploits(
    arms: Seq<Option<ArmState>>,
    c: Seq<Candidate>,
    explore: bool,
    tied: Seq<bool>,
    k: usize,
)
    requires
        c.len() <= usize::MAX,
        tied.len() == c.len(),
        k < c.len(),
    ensures
        ({
            let drawn = pool(arms, c, explore, tied, c.len()).contains(k);
            let warm = forall|i: int|
                0 <= i < c.len() ==> selections_of(arms, #[trigger] c[i]) >= 5;
            let fewest = forall|i: int|
                0 <= i < c.len() ==> selections_of(arms, c[k as int]) <= selections_of(
                    arms,
                    #[trigger] c[i],
                );
            &&& !warm ==> (drawn <==> fewest)
            &&& warm && explore && c.len() > 1 ==> drawn
            &&& warm && !(explore && c.len() > 1) ==> (drawn <==> tied[k as int])
        }),
{
    lemma_pool(arms, c, explore, tied, c.len());
    lemma_least_selections(arms, c);
    let p = pool(arms, c, explore, tied, c.len());
    let j = choose|j: int|
        0 <= j < c.len() && selections_of(arms, #[trigger] c[j]) == least_selections(arms, c);
    assert(selections_of(arms, c[j]) == least_selections(arms, c));
    if p.contains(k) {
        let i = choose|i: int| 0 <= i < p.len() && p[i] == k;
        assert(in_pool(arms, c, explore, tied, p[i] as int));
    }
    if in_pool(arms, c, explore, tied, k as int) {
        assert(p.contains((k as int) as usize));
    }
    assert(in_pool(arms, c, explore, tied, k as int) <==> p.contains(k));
}

/// A selection counts for its path alone: one selection and one pending decision more,
/// pending from now on or since the first one.
pub proof fn selection_counts_for_its_path(
    m: GreedyModel,
    c: Seq<Candidate>,
    b: int,
    paths: Seq<Path>,
    now: u64,
    pid: usize,
)
    requires
        0 <= b < c.len(),
        arm_or_new(m, c[b].pid as int).selections < u64::MAX,
        arm_or_new(m, c[b].pid as int).pending_decisions < u64::MAX,
    ensures
        ({
            let n = greedy_selected(m, c, b, paths, now);
            let before = arm_or_new(m, pid as int);
            let after = arm_or_new(n, pid as int);
            if pid == c[b].pid {
                &&& after.selections == before.selections + 1
                &&& after.pending_decisions == before.pending_decisions + 1
                &&& after.pending_since == (if before.pending_since is Some {
                    before.pending_since
                } else {
                    Some(now)
                })
                &&& after.samples == before.samples
                &&& after.prev == before.prev
                &&& after.counters_initialized == before.counters_initialized
                &&& after.window == before.window
                &&& after.window_start == before.window_start
                &&& after.base_rtt_ns == before.base_rtt_ns
                &&& after.loss_ewma_init == before.loss_ewma_init
            } else {
                after == before
            }
        }),
{
}

/// Feedback on a path leaves the arms of the others alone, and trains its own at most
/// once.
pub proof fn feedback_concerns_its_path(
    m: GreedyModel,
    p: Path,
    paths: Seq<Path>,
    now: u64,
    pid: usize,
)
    requires
        arm_or_new(m, p.id as int).samples < u64::MAX,
    ensures
        ({
            let n = greedy_acked(m, p, paths, now);
            let trained = path_feedback(m, p, paths, now).2 is Some;
            &&& pid != p.id ==> at(n.arms, pid as int, None) == at(m.arms, pid as int, None)
            &&& arm_or_new(n, p.id as int).samples == arm_or_new(m, p.id as int).samples + (
            if trained {
                1int
            } else {
                0
            })
            &&& arm_or_new(n, p.id as int).selections == arm_or_new(m, p.id as int).selections
            &&& n.records.len() == m.records.len() + (if trained {
                1int
            } else {
                0
            })
            &&& trained ==> n.records.last().event == (GreedyEventModel::Update {
                path_id: p.id,
                arm: arm_or_new(n, p.id as int),
                source: UpdateSource::AckFeedback,
            })
            &&& n.counts == m.counts && n.counts_total == m.counts_total && n.metrics == m.metrics
        }),
{
}

} // verus!
