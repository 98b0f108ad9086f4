//! The LinUCB scheduler: a contextual bandit over the paths.
//!
//! At each decision it builds a context for every path that can send, scores
//! each, and selects the path with the highest score. A selected context stays
//! pending until an acknowledgement on its path trains the model with a reward,
//! or until it is stale and trains the model with no reward.
//!
//! The bookkeeping is here: which contexts are built, which path wins, what
//! stays pending, what is trained with which counts, and what is reported. The
//! linear model itself computes in doubles and is kept by the caller, which
//! hands scores and smoothed round-trip times in by their bits.

use crate::clock::{
    elapsed, elapsed_ns, elapsed_secs, is_second_passed, second_passed, NANOS_PER_SEC, UNIX_LIMIT,
};
use crate::counts::{at_least_one, risen};
use crate::dense::{
    at, clear_counts, get, lemma_entry_at_most_total, lemma_total_placed, lemma_total_zeros,
    placed, put, total, zeros,
};
use crate::json_line::{json_line, Fields};
use crate::numerals::{decimal, decimal_string, push_decimal};
use crate::paths::{index_of, ordered, sendable, Error, Path, PathMap};
use crate::scores::{
    full, full_score, is_winner, no_score, none, none_is_least, rest, rest_of, share, share_falls_with_denominator,
    share_grows_with_numerator, share_of, winner, Score,
};
use crate::text::{join, joined, opt_text, pad_left, padded_left, texts};
use crate::traffic_metrics::{make_path_key, make_step_fields, path_key, step_fields};
use vstd::prelude::*;
use vstd::string::StringExecFns;

verus! {

/// A decision without feedback for this long is trained once with no reward.
pub const STALE_DECISION_TIMEOUT: u64 = 1_000_000_000;

/// A path that was not selected for longer than this is partly forgotten.
pub const IDLE_FORGET_THRESHOLD: u64 = 10_000_000_000;

/// Acknowledgements on a path during which its round-trip time adapts fast.
pub const EMA_WARMUP_ACKS: u64 = 8;

// ───────────────────────────── contexts and rewards ─────────────────────────────

/// The features of a path at a decision, beside a constant bias of 1. Higher is
/// better for each.
#[derive(Debug, Clone, Copy, PartialEq, Eq, Structural)]
pub struct Context {
    /// Smallest round-trip time over the path's own.
    pub latency: Score,
    /// The part of the congestion window that is not in flight.
    pub cwnd_headroom: Score,
    /// The part of the packets that was not lost.
    pub reliability: Score,
    /// Pacing rate over the largest one.
    pub relative_pacing: Score,
}

/// The features of a path.
pub open spec fn context(
    rtt_ns: u64,
    min_rtt_ns: u64,
    bytes_in_flight: u64,
    cwnd: u64,
    lost: u64,
    sent: u64,
    pacing: u64,
    max_pacing: u64,
) -> Context {
    Context {
        latency: if rtt_ns > 0 && min_rtt_ns > 0 {
            share(min_rtt_ns, rtt_ns)
        } else {
            full()
        },
        cwnd_headroom: if cwnd > 0 {
            rest(bytes_in_flight, cwnd)
        } else {
            none()
        },
        reliability: if sent > 0 {
            rest(lost, sent)
        } else {
            rest(0, 1)
        },
        relative_pacing: if pacing > 0 && max_pacing > 0 {
            share(pacing, max_pacing)
        } else {
            none()
        },
    }
}

/// Every feature is between 0 and 1.
pub proof fn features_are_scores(
    rtt_ns: u64,
    min_rtt_ns: u64,
    bytes_in_flight: u64,
    cwnd: u64,
    lost: u64,
    sent: u64,
    pacing: u64,
    max_pacing: u64,
)
    ensures
        ({
            let x = context(
                rtt_ns,
                min_rtt_ns,
                bytes_in_flight,
                cwnd,
                lost,
                sent,
                pacing,
                max_pacing,
            );
            x.latency.wf() && x.cwnd_headroom.wf() && x.reliability.wf() && x.relative_pacing.wf()
        }),
{
}

/// Features are higher for better paths: one with no higher round-trip time, no
/// more bytes in flight, no more packets lost and no lower pacing rate scores at
/// least as high in every feature.
pub proof fn features_are_higher_is_better(
    good_rtt: u64,
    bad_rtt: u64,
    min_rtt: u64,
    good_bif: u64,
    bad_bif: u64,
    cwnd: u64,
    good_lost: u64,
    bad_lost: u64,
    sent: u64,
    good_pacing: u64,
    bad_pacing: u64,
    max_pacing: u64,
)
    requires
        0 < good_rtt <= bad_rtt,
        good_bif <= bad_bif,
        good_lost <= bad_lost,
        bad_pacing <= good_pacing,
    ensures
        ({
            let good = context(
                good_rtt,
                min_rtt,
                good_bif,
                cwnd,
                good_lost,
                sent,
                good_pacing,
                max_pacing,
            );
            let bad = context(
                bad_rtt,
                min_rtt,
                bad_bif,
                cwnd,
                bad_lost,
                sent,
                bad_pacing,
                max_pacing,
            );
            &&& bad.latency.le(good.latency)
            &&& bad.cwnd_headroom.le(good.cwnd_headroom)
            &&& bad.reliability.le(good.reliability)
            &&& bad.relative_pacing.le(good.relative_pacing)
        }),
{
    share_falls_with_denominator(min_rtt, good_rtt, bad_rtt);
    if cwnd > 0 {
        share_grows_with_numerator(good_bif, bad_bif, cwnd);
    }
    if sent > 0 {
        share_grows_with_numerator(good_lost, bad_lost, sent);
    }
    if max_pacing > 0 {
        share_grows_with_numerator(bad_pacing, good_pacing, max_pacing);
        none_is_least(share(good_pacing, max_pacing));
    }
}

/// The features of a path.
pub fn make_context(
    rtt_ns: u64,
    min_rtt_ns: u64,
    bytes_in_flight: usize,
    cwnd: u64,
    lost: u64,
    sent: u64,
    pacing: u64,
    max_pacing: u64,
) -> (r: Context)
    ensures
        r == context(
            rtt_ns,
            min_rtt_ns,
            bytes_in_flight as u64,
            cwnd,
            lost,
            sent,
            pacing,
            max_pacing,
        ),
{
    Context {
        latency: if rtt_ns > 0 && min_rtt_ns > 0 {
            share_of(min_rtt_ns, rtt_ns)
        } else {
            full_score()
        },
        cwnd_headroom: if cwnd > 0 {
            rest_of(bytes_in_flight as u64, cwnd)
        } else {
            no_score()
        },
        reliability: if sent > 0 {
            rest_of(lost, sent)
        } else {
            rest_of(0, 1)
        },
        relative_pacing: if pacing > 0 && max_pacing > 0 {
            share_of(pacing, max_pacing)
        } else {
            no_score()
        },
    }
}

/// What the reward of an acknowledged decision is made of: the reward is
/// `delivery · exp(1 − clamp(rtt / min_rtt_ns, 1, 4)) · sqrt(headroom)`.
#[derive(Debug, Clone, Copy, PartialEq, Eq, Structural)]
pub struct RewardParts {
    /// Acknowledged packets over sent ones, of which at least one counts.
    pub delivery: Score,
    /// The smallest round-trip time, at least 1.
    pub min_rtt_ns: u64,
    /// The part of the congestion window that is not in flight.
    pub headroom: Score,
}

/// The parts of a reward.
pub open spec fn reward_parts(
    delta_acked: u64,
    delta_sent: u64,
    min_rtt_ns: u64,
    bytes_in_flight: u64,
    cwnd: u64,
) -> RewardParts {
    RewardParts {
        delivery: share(delta_acked, at_least_one(delta_sent)),
        min_rtt_ns: at_least_one(min_rtt_ns),
        headroom: if cwnd > 0 {
            rest(bytes_in_flight, cwnd)
        } else {
            rest(1, 1)
        },
    }
}

/// The parts of the reward for feedback on a path.
pub fn observed_reward(
    delta_acked: u64,
    delta_sent: u64,
    min_rtt_ns: u64,
    bytes_in_flight: usize,
    cwnd: u64,
) -> (r: RewardParts)
    ensures
        r == reward_parts(delta_acked, delta_sent, min_rtt_ns, bytes_in_flight as u64, cwnd),
{
    RewardParts {
        delivery: if delta_sent >= 1 {
            share_of(delta_acked, delta_sent)
        } else {
            share_of(delta_acked, 1)
        },
        min_rtt_ns: if min_rtt_ns >= 1 {
            min_rtt_ns
        } else {
            1
        },
        headroom: if cwnd > 0 {
            rest_of(bytes_in_flight as u64, cwnd)
        } else {
            rest_of(1, 1)
        },
    }
}

// ───────────────────────────── state ─────────────────────────────

/// The counts of one path that enter a decision.
#[derive(Debug, Clone, Copy)]
pub struct PathStats {
    pub pid: usize,
    pub rtt_ns: u64,
    pub bytes_in_flight: usize,
    pub cwnd: u64,
    pub sent: u64,
    pub lost: u64,
    pub pacing: u64,
    pub sent_bytes: u64,
}

/// What a metrics record holds of one path.
#[derive(Debug, Clone, Copy)]
pub struct LinUcbRow {
    pub stats: PathStats,
    pub context: Context,
    /// Selections of the path in the window.
    pub count: u64,
    /// Selections of all paths in the window.
    pub total: u64,
    /// Selections of the path since the start.
    pub samples: u64,
    /// Bytes sent on the path since the record before.
    pub delta_bytes: u64,
    /// Bytes sent on all paths since the record before.
    pub total_delta: u64,
    pub min_rtt_us: u64,
    pub latest_rtt_us: u64,
}

/// The metrics of one second.
pub struct LinUcbRecord {
    pub step: u64,
    /// Unix time in seconds.
    pub timestamp: u64,
    /// Seconds since the scheduler was made.
    pub elapsed_s: u64,
    pub rows: Vec<LinUcbRow>,
}

/// [`LinUcbRecord`] with the rows as a sequence.
#[verifier::ext_equal]
pub struct LinUcbRecordModel {
    pub step: nat,
    pub timestamp: nat,
    pub elapsed_s: nat,
    pub rows: Seq<LinUcbRow>,
}

impl View for LinUcbRecord {
    type V = LinUcbRecordModel;

    open spec fn view(&self) -> LinUcbRecordModel {
        LinUcbRecordModel {
            step: self.step as nat,
            timestamp: self.timestamp as nat,
            elapsed_s: self.elapsed_s as nat,
            rows: self.rows@,
        }
    }
}

/// The LinUCB scheduler without its linear model. Times are in nanoseconds.
pub struct LinUCBScheduler {
    pub last_min_rtt_ns: u64,
    pub last_selected: Option<usize>,
    pub last_log: Option<u64>,
    /// Selections by path in the window.
    pub window_counts: Vec<u64>,
    pub window_total: u64,
    /// Selections by path since the start.
    pub total_counts: Vec<u64>,
    pub total_selections: u64,
    pub path_addrs: Vec<Option<String>>,
    pub snapshots: Vec<String>,
    pub start_time: u64,
    /// Unix time in seconds at the start.
    pub start_unix_secs: u64,
    /// Smoothed round-trip times, as the bits of doubles in nanoseconds.
    pub ema_rtt_bits: Vec<u64>,
    /// Smoothed round-trip times in whole nanoseconds.
    pub ema_rtt_ns: Vec<u64>,
    pub ack_counts: Vec<u64>,
    pub records: Vec<LinUcbRecord>,
    /// Sent bytes by path at the last record that held it.
    pub prev_sent_bytes: Vec<Option<u64>>,
    /// The context of the latest decision for a path that awaits feedback.
    pub pending_context: Vec<Option<Context>>,
    /// When the first decision for a path that awaits feedback was taken.
    pub pending_since: Vec<Option<u64>>,
    pub last_max_pacing_bps: u64,
    /// When a path was last selected.
    pub last_selection_time: Vec<Option<u64>>,
    /// Acknowledged packets by path at the last training.
    pub prev_acked_count: Vec<u64>,
    /// Sent packets by path at the last training.
    pub prev_sent_count: Vec<u64>,
}

/// [`LinUCBScheduler`] with its tables as sequences.
#[verifier::ext_equal]
pub struct LinUcbModel {
    pub last_min_rtt_ns: u64,
    pub last_selected: Option<usize>,
    pub last_log: Option<u64>,
    pub window_counts: Seq<u64>,
    pub window_total: nat,
    pub total_counts: Seq<u64>,
    pub total_selections: nat,
    pub path_addrs: Seq<Option<Seq<char>>>,
    pub snapshots: Seq<Seq<char>>,
    pub start_time: u64,
    pub start_unix_secs: u64,
    pub ema_rtt_bits: Seq<u64>,
    pub ema_rtt_ns: Seq<u64>,
    pub ack_counts: Seq<u64>,
    pub records: Seq<LinUcbRecordModel>,
    pub prev_sent_bytes: Seq<Option<u64>>,
    pub pending_context: Seq<Option<Context>>,
    pub pending_since: Seq<Option<u64>>,
    pub last_max_pacing_bps: u64,
    pub last_selection_time: Seq<Option<u64>>,
    pub prev_acked_count: Seq<u64>,
    pub prev_sent_count: Seq<u64>,
}

/// The texts of a table of optional strings.
pub open spec fn addr_texts(v: Seq<Option<String>>) -> Seq<Option<Seq<char>>> {
    v.map_values(|s: Option<String>| opt_text(s))
}

impl View for LinUCBScheduler {
    type V = LinUcbModel;

    open spec fn view(&self) -> LinUcbModel {
        LinUcbModel {
            last_min_rtt_ns: self.last_min_rtt_ns,
            last_selected: self.last_selected,
            last_log: self.last_log,
            window_counts: self.window_counts@,
            window_total: self.window_total as nat,
            total_counts: self.total_counts@,
            total_selections: self.total_selections as nat,
            path_addrs: addr_texts(self.path_addrs@),
            snapshots: texts(self.snapshots@),
            start_time: self.start_time,
            start_unix_secs: self.start_unix_secs,
            ema_rtt_bits: self.ema_rtt_bits@,
            ema_rtt_ns: self.ema_rtt_ns@,
            ack_counts: self.ack_counts@,
            records: self.records@.map_values(|r: LinUcbRecord| r@),
            prev_sent_bytes: self.prev_sent_bytes@,
            pending_context: self.pending_context@,
            pending_since: self.pending_since@,
            last_max_pacing_bps: self.last_max_pacing_bps,
            last_selection_time: self.last_selection_time@,
            prev_acked_count: self.prev_acked_count@,
            prev_sent_count: self.prev_sent_count@,
        }
    }
}

/// The scheduler at its start.
pub open spec fn linucb_start(now: u64, unix_secs: u64) -> LinUcbModel {
    LinUcbModel {
        last_min_rtt_ns: 1,
        last_selected: None,
        last_log: None,
        window_counts: Seq::empty(),
        window_total: 0,
        total_counts: Seq::empty(),
        total_selections: 0,
        path_addrs: Seq::empty(),
        snapshots: Seq::empty(),
        start_time: now,
        start_unix_secs: unix_secs,
        ema_rtt_bits: Seq::empty(),
        ema_rtt_ns: Seq::empty(),
        ack_counts: Seq::empty(),
        records: Seq::empty(),
        prev_sent_bytes: Seq::empty(),
        pending_context: Seq::empty(),
        pending_since: Seq::empty(),
        last_max_pacing_bps: 0,
        last_selection_time: Seq::empty(),
        prev_acked_count: Seq::empty(),
        prev_sent_count: Seq::empty(),
    }
}

// ───────────────────────────── pending decisions ─────────────────────────────

/// The decision on the path is stale.
pub open spec fn is_stale(since: Seq<Option<u64>>, pid: int, now: u64) -> bool {
    match at(since, pid, None) {
        Some(t) => elapsed(t, now) >= STALE_DECISION_TIMEOUT,
        None => false,
    }
}

/// The pending decisions that are dropped at `now`: the stale ones on the first
/// `n` paths, except on the path `skip`.
pub open spec fn dropped(m: LinUcbModel, now: u64, skip: Option<usize>, pid: int) -> bool {
    &&& 0 <= pid < m.pending_context.len()
    &&& !(skip matches Some(s) && s == pid)
    &&& is_stale(m.pending_since, pid, now)
}

/// The contexts to train with no reward, among the first `n` paths.
pub open spec fn stale_contexts(m: LinUcbModel, now: u64, skip: Option<usize>, n: nat) -> Seq<
    (usize, Context),
>
    decreases n,
{
    if n == 0 {
        Seq::empty()
    } else {
        let before = stale_contexts(m, now, skip, (n - 1) as nat);
        match at(m.pending_context, n - 1, None) {
            Some(x) if dropped(m, now, skip, n - 1) => before.push(((n - 1) as usize, x)),
            _ => before,
        }
    }
}

/// The scheduler without the dropped decisions on the first `n` paths.
pub open spec fn without_stale(
    m: LinUcbModel,
    now: u64,
    skip: Option<usize>,
    n: nat,
) -> LinUcbModel {
    LinUcbModel {
        pending_context: Seq::new(
            m.pending_context.len(),
            |i: int|
                if i < n && dropped(m, now, skip, i) {
                    None
                } else {
                    m.pending_context[i]
                },
        ),
        pending_since: Seq::new(
            m.pending_since.len(),
            |i: int|
                if i < n && dropped(m, now, skip, i) {
                    None
                } else {
                    m.pending_since[i]
                },
        ),
        ..m
    }
}

/// A decision is dropped once: right after the stale ones were dropped, none of
/// the paths that were looked at is stale any more.
pub proof fn stale_decisions_are_dropped_once(m: LinUcbModel, now: u64, skip: Option<usize>)
    ensures
        ({
            let n = m.pending_context.len();
            let w = without_stale(m, now, skip, n);
            stale_contexts(w, now, skip, n) == Seq::<(usize, Context)>::empty()
        }),
{
    lemma_none_stale(m, now, skip, m.pending_context.len());
}

proof fn lemma_none_stale(m: LinUcbModel, now: u64, skip: Option<usize>, n: nat)
    requires
        n <= m.pending_context.len(),
    ensures
        stale_contexts(
            without_stale(m, now, skip, m.pending_context.len()),
            now,
            skip,
            n,
        ) == Seq::<(usize, Context)>::empty(),
    decreases n,
{
    if n > 0 {
        lemma_none_stale(m, now, skip, (n - 1) as nat);
    }
}

/// A selection of the path with this context makes it pending. The context of
/// the latest selection counts; the time is that of the first.
pub open spec fn marked(m: LinUcbModel, pid: int, x: Context, now: u64) -> LinUcbModel {
    LinUcbModel {
        pending_context: placed(m.pending_context, pid, Some(x), None),
        pending_since: placed(
            m.pending_since,
            pid,
            match at(m.pending_since, pid, None) {
                Some(t) => Some(t),
                None => Some(now),
            },
            None,
        ),
        ..m
    }
}

/// The pending decision on the path is taken away.
pub open spec fn taken(m: LinUcbModel, pid: int) -> LinUcbModel {
    if 0 <= pid < m.pending_context.len() {
        LinUcbModel {
            pending_context: m.pending_context.update(pid, None),
            pending_since: if pid < m.pending_since.len() {
                m.pending_since.update(pid, None)
            } else {
                m.pending_since
            },
            ..m
        }
    } else {
        m
    }
}

/// Repeated selections of a path do not put off its timeout: a later selection
/// replaces the context and keeps the time.
pub proof fn timeout_is_not_deferred(
    m: LinUcbModel,
    pid: int,
    x: Context,
    now: u64,
    y: Context,
    later: u64,
)
    requires
        0 <= pid,
    ensures
        ({
            let once = marked(m, pid, x, now);
            let twice = marked(once, pid, y, later);
            &&& at(twice.pending_context, pid, None) == Some(y)
            &&& at(twice.pending_since, pid, None) == at(once.pending_since, pid, None)
        }),
{
}

/// A pending decision is trained once: after it was taken there is none.
pub proof fn decision_is_taken_once(m: LinUcbModel, pid: int)
    requires
        0 <= pid,
    ensures
        at(taken(m, pid).pending_context, pid, None) is None,
        taken(taken(m, pid), pid) == taken(m, pid),
{
    assert(taken(taken(m, pid), pid) =~= taken(m, pid));
}

impl LinUCBScheduler {
    /// The window adds up, a timestamp fits, and sent bytes are noted for recorded
    /// paths alone.
    pub open spec fn wf(self) -> bool {
        &&& total(self.window_counts@) == self.window_total
        &&& self.start_unix_secs <= UNIX_LIMIT
        &&& noted_are_recorded(self@.prev_sent_bytes, self@.records)
    }

    /// A scheduler that starts at `now`, which is the Unix second `unix_secs`.
    pub fn new(now: u64, unix_secs: u64) -> (r: Self)
        requires
            unix_secs <= UNIX_LIMIT,
        ensures
            r.wf(),
            r@ == linucb_start(now, unix_secs),
    {
        let r = LinUCBScheduler {
            last_min_rtt_ns: 1,
            last_selected: None,
            last_log: None,
            window_counts: Vec::new(),
            window_total: 0,
            total_counts: Vec::new(),
            total_selections: 0,
            path_addrs: Vec::new(),
            snapshots: Vec::new(),
            start_time: now,
            start_unix_secs: unix_secs,
            ema_rtt_bits: Vec::new(),
            ema_rtt_ns: Vec::new(),
            ack_counts: Vec::new(),
            records: Vec::new(),
            prev_sent_bytes: Vec::new(),
            pending_context: Vec::new(),
            pending_since: Vec::new(),
            last_max_pacing_bps: 0,
            last_selection_time: Vec::new(),
            prev_acked_count: Vec::new(),
            prev_sent_count: Vec::new(),
        };
        assert(r@ =~= linucb_start(now, unix_secs));
        r
    }

    /// Makes the context pending on the path.
    pub fn mark_pending_context(&mut self, path_id: usize, x: Context, now: u64)
        requires
            path_id < usize::MAX,
        ensures
            final(self)@ == marked(old(self)@, path_id as int, x, now),
            final(self).wf() == old(self).wf(),
    {
        put(&mut self.pending_context, path_id, Some(x), None);
        let since = match get(&self.pending_since, path_id, None) {
            Some(t) => Some(t),
            None => Some(now),
        };
        put(&mut self.pending_since, path_id, since, None);
        assert(self@ =~= marked(old(self)@, path_id as int, x, now));
    }

    /// Takes the pending context of the path away.
    pub fn take_pending_context(&mut self, path_id: usize) -> (r: Option<Context>)
        ensures
            r == at(old(self)@.pending_context, path_id as int, None),
            final(self)@ == taken(old(self)@, path_id as int),
            final(self).wf() == old(self).wf(),
    {
        if path_id >= self.pending_context.len() {
            return None;
        }
        if path_id < self.pending_since.len() {
            self.pending_since.set(path_id, None);
        }
        let x = self.pending_context[path_id];
        self.pending_context.set(path_id, None);
        assert(self@ =~= taken(old(self)@, path_id as int));
        x
    }

    /// Drops the stale decisions, except on the path `skip_path_id`, and returns
    /// the contexts to train with no reward.
    pub fn penalize_stale_pending(&mut self, now: u64, skip_path_id: Option<usize>) -> (r: Vec<
        (usize, Context),
    >)
        ensures
            r@ == stale_contexts(
                old(self)@,
                now,
                skip_path_id,
                old(self)@.pending_context.len(),
            ),
            final(self)@ == without_stale(
                old(self)@,
                now,
                skip_path_id,
                old(self)@.pending_context.len(),
            ),
            final(self).wf() == old(self).wf(),
    {
        let ghost m = self@;
        let mut r: Vec<(usize, Context)> = Vec::new();
        let mut i: usize = 0;
        assert(self@ =~= without_stale(m, now, skip_path_id, 0));
        while i < self.pending_context.len()
            invariant
                i <= self.pending_context.len(),
                self.pending_context.len() == m.pending_context.len(),
                self@ == without_stale(m, now, skip_path_id, i as nat),
                r@ == stale_contexts(m, now, skip_path_id, i as nat),
                self.wf() == old(self).wf(),
            decreases self.pending_context.len() - i,
        {
            let skipped = match skip_path_id {
                Some(s) => s == i,
                None => false,
            };
            assert(at(self.pending_since@, i as int, None) == at(m.pending_since, i as int, None));
            assert(self.pending_context@[i as int] == m.pending_context[i as int]);
            let stale = match get(&self.pending_since, i, None) {
                Some(t) => elapsed_ns(t, now) >= STALE_DECISION_TIMEOUT,
                None => false,
            };
            if !skipped && stale {
                let x = self.pending_context[i];
                if let Some(c) = x {
                    self.pending_context.set(i, None);
                    r.push((i, c));
                }
                if i < self.pending_since.len() {
                    self.pending_since.set(i, None);
                }
                assert(dropped(m, now, skip_path_id, i as int));
            } else {
                assert(!dropped(m, now, skip_path_id, i as int));
            }
            i += 1;
            assert(self@ =~= without_stale(m, now, skip_path_id, i as nat));
        }
        r
    }
}

// ───────────────────────────── preparing a decision ─────────────────────────────

/// The round-trip time that a decision uses: the smoothed one of the
/// acknowledgements, or the transport's where there was none.
pub open spec fn decision_rtt(m: LinUcbModel, p: Path) -> u64 {
    if at(m.ack_counts, p.id as int, 0) > 0 && p.id < m.ema_rtt_ns.len() {
        m.ema_rtt_ns[p.id as int]
    } else {
        p.smoothed_rtt
    }
}

/// The counts of a path.
pub open spec fn path_stats(m: LinUcbModel, p: Path) -> PathStats {
    PathStats {
        pid: p.id,
        rtt_ns: decision_rtt(m, p),
        bytes_in_flight: p.bytes_in_flight,
        cwnd: p.cwnd,
        sent: p.sent_count,
        lost: p.lost_count,
        pacing: p.pacing(),
        sent_bytes: p.sent_bytes,
    }
}

/// The counts of the paths that can send, in order.
pub open spec fn stats_of(m: LinUcbModel, paths: Seq<Path>) -> Seq<PathStats>
    decreases paths.len(),
{
    if paths.len() == 0 {
        Seq::empty()
    } else if sendable(paths.last()) {
        stats_of(m, paths.drop_last()).push(path_stats(m, paths.last()))
    } else {
        stats_of(m, paths.drop_last())
    }
}

/// The smallest round-trip time.
pub open spec fn least_rtt(stats: Seq<PathStats>) -> u64
    decreases stats.len(),
{
    if stats.len() == 0 {
        u64::MAX
    } else {
        let before = least_rtt(stats.drop_last());
        if stats.last().rtt_ns < before {
            stats.last().rtt_ns
        } else {
            before
        }
    }
}

/// The largest pacing rate.
pub open spec fn most_pacing(stats: Seq<PathStats>) -> u64
    decreases stats.len(),
{
    if stats.len() == 0 {
        0
    } else {
        let before = most_pacing(stats.drop_last());
        if stats.last().pacing > before {
            stats.last().pacing
        } else {
            before
        }
    }
}

/// The context of a path among the others.
pub open spec fn stats_context(s: PathStats, min_rtt: u64, max_pacing: u64) -> Context {
    context(
        s.rtt_ns,
        min_rtt,
        s.bytes_in_flight as u64,
        s.cwnd,
        s.lost,
        s.sent,
        s.pacing,
        max_pacing,
    )
}

/// The path was selected before, and not for longer than the threshold.
pub open spec fn is_idle(m: LinUcbModel, pid: int, now: u64) -> bool {
    match at(m.last_selection_time, pid, None) {
        Some(t) => elapsed(t, now) > IDLE_FORGET_THRESHOLD,
        None => false,
    }
}

/// The idle paths, in order.
pub open spec fn idle_paths(m: LinUcbModel, stats: Seq<PathStats>, now: u64) -> Seq<usize>
    decreases stats.len(),
{
    if stats.len() == 0 {
        Seq::empty()
    } else if is_idle(m, stats.last().pid as int, now) {
        idle_paths(m, stats.drop_last(), now).push(stats.last().pid)
    } else {
        idle_paths(m, stats.drop_last(), now)
    }
}

/// What a decision is taken on.
pub struct SelectPlan {
    /// The paths that can send.
    pub stats: Vec<PathStats>,
    /// Their contexts.
    pub contexts: Vec<Context>,
    /// How often each was selected; the exploration decays with it.
    pub selections: Vec<u64>,
    /// The paths whose model is to be partly forgotten first.
    pub forget: Vec<usize>,
}

/// The plan for the paths.
pub open spec fn is_plan(m: LinUcbModel, paths: Seq<Path>, now: u64, plan: SelectPlan) -> bool {
    let stats = stats_of(m, paths);
    &&& plan.stats@ == stats
    &&& plan.contexts@ == Seq::new(
        stats.len(),
        |i: int| stats_context(stats[i], at_least_one(least_rtt(stats)), most_pacing(stats)),
    )
    &&& plan.selections@ == Seq::new(
        stats.len(),
        |i: int| at(m.total_counts, stats[i].pid as int, 0),
    )
    &&& plan.forget@ == idle_paths(m, stats, now)
}

/// The scheduler once a decision was prepared.
pub open spec fn prepared(m: LinUcbModel, paths: Seq<Path>) -> LinUcbModel {
    let stats = stats_of(m, paths);
    if stats.len() == 0 {
        m
    } else {
        LinUcbModel {
            last_min_rtt_ns: at_least_one(least_rtt(stats)),
            last_max_pacing_bps: most_pacing(stats),
            ..m
        }
    }
}

/// The paths of a decision do not depend on what the scheduler has seen.
proof fn lemma_same_pids(m: LinUcbModel, other: LinUcbModel, paths: Seq<Path>)
    ensures
        stats_of(m, paths).len() == stats_of(other, paths).len(),
        forall|i: int|
            0 <= i < stats_of(m, paths).len() ==> (#[trigger] stats_of(m, paths)[i]).pid
                == stats_of(other, paths)[i].pid,
    decreases paths.len(),
{
    if paths.len() > 0 {
        let front = paths.drop_last();
        lemma_same_pids(m, other, front);
        assert forall|i: int| 0 <= i < stats_of(m, paths).len() implies (#[trigger] stats_of(
            m,
            paths,
        )[i]).pid == stats_of(other, paths)[i].pid by {
            if i < stats_of(m, front).len() {
                assert(stats_of(m, paths)[i] == stats_of(m, front)[i]);
                assert(stats_of(other, paths)[i] == stats_of(other, front)[i]);
            }
        }
    }
}

/// Exploration follows the selections of a path, not its acknowledgements: with
/// other acknowledgements, the counts that the exploration of each path goes by
/// are the same.
pub proof fn exploration_follows_selections(
    m: LinUcbModel,
    acks: Seq<u64>,
    paths: Seq<Path>,
    now: u64,
    plan: SelectPlan,
    other: SelectPlan,
)
    requires
        is_plan(m, paths, now, plan),
        is_plan(LinUcbModel { ack_counts: acks, ..m }, paths, now, other),
    ensures
        plan.selections@ == other.selections@,
{
    lemma_same_pids(m, LinUcbModel { ack_counts: acks, ..m }, paths);
    assert(plan.selections@ =~= other.selections@);
}

/// A decision can be prepared exactly where a path can send.
pub proof fn lemma_stats_of(m: LinUcbModel, paths: Seq<Path>)
    requires
        ordered(paths),
    ensures
        stats_of(m, paths).len() == 0 <==> forall|i: int|
            0 <= i < paths.len() ==> !sendable(#[trigger] paths[i]),
        stats_ordered(stats_of(m, paths)),
        forall|k: int| #![trigger stats_of(m, paths)[k]]
            0 <= k < stats_of(m, paths).len() ==> exists|i: int|
                0 <= i < paths.len() && #[trigger] paths[i].id == stats_of(m, paths)[k].pid,
    decreases paths.len(),
{
    if paths.len() > 0 {
        let front = paths.drop_last();
        assert(ordered(front)) by {
            assert forall|i: int, j: int| 0 <= i < j < front.len() implies #[trigger] front[i].id
                < #[trigger] front[j].id by {
                assert(front[i] == paths[i] && front[j] == paths[j]);
            }
            assert forall|i: int| 0 <= i < front.len() implies (#[trigger] front[i]).id
                < usize::MAX by {
                assert(front[i] == paths[i]);
            }
        }
        lemma_stats_of(m, front);
        let s = stats_of(m, paths);
        let t = stats_of(m, front);
        let last = paths.len() - 1;
        assert forall|k: int| #![trigger s[k]] 0 <= k < s.len() implies exists|i: int|
            0 <= i < paths.len() && #[trigger] paths[i].id == s[k].pid by {
            if k < t.len() {
                assert(s[k] == t[k]);
                let i = choose|i: int| 0 <= i < front.len() && #[trigger] front[i].id == t[k].pid;
                assert(paths[i].id == s[k].pid);
            } else {
                assert(paths[last].id == s[k].pid);
            }
        }
        if sendable(paths.last()) {
            assert(sendable(paths[last]));
            assert forall|i: int, j: int| 0 <= i < j < s.len() implies #[trigger] s[i].pid
                < #[trigger] s[j].pid by {
                assert(s[i] == t[i]);
                if j < t.len() {
                    assert(s[j] == t[j]);
                } else {
                    let k = choose|k: int|
                        0 <= k < front.len() && #[trigger] front[k].id == t[i].pid;
                    assert(paths[k].id < paths[last].id);
                }
            }
            assert forall|i: int| 0 <= i < s.len() implies (#[trigger] s[i]).pid < usize::MAX by {
                if i < t.len() {
                    assert(s[i] == t[i]);
                }
            }
        } else {
            if forall|i: int| 0 <= i < front.len() ==> !sendable(#[trigger] front[i]) {
                assert forall|i: int| 0 <= i < paths.len() implies !sendable(
                    #[trigger] paths[i],
                ) by {
                    if i < last {
                        assert(front[i] == paths[i]);
                    }
                }
            } else {
                let i = choose|i: int| 0 <= i < front.len() && sendable(#[trigger] front[i]);
                assert(sendable(paths[i]));
            }
        }
    }
}

/// Path ids rise, and a table indexed by them can reach each of them.
pub open spec fn stats_ordered(s: Seq<PathStats>) -> bool {
    &&& forall|i: int, j: int| 0 <= i < j < s.len() ==> #[trigger] s[i].pid < #[trigger] s[j].pid
    &&& forall|i: int| 0 <= i < s.len() ==> (#[trigger] s[i]).pid < usize::MAX
}

impl LinUCBScheduler {
    fn collect_stats(&self, paths: &PathMap) -> (r: Vec<PathStats>)
        ensures
            r@ == stats_of(self@, paths@),
    {
        let mut r: Vec<PathStats> = Vec::new();
        let mut i: usize = 0;
        assert(paths@.subrange(0, 0) =~= Seq::<Path>::empty());
        while i < paths.paths.len()
            invariant
                i <= paths@.len(),
                r@ == stats_of(self@, paths@.subrange(0, i as int)),
            decreases paths@.len() - i,
        {
            let p = &paths.paths[i];
            proof {
                let next = paths@.subrange(0, i + 1);
                assert(next.drop_last() =~= paths@.subrange(0, i as int));
                assert(next.last() == *p);
            }
            if p.is_sendable() {
                let rtt_ns: u64 = if get(&self.ack_counts, p.id, 0) > 0 && p.id
                    < self.ema_rtt_ns.len() {
                    self.ema_rtt_ns[p.id]
                } else {
                    p.smoothed_rtt
                };
                r.push(
                    PathStats {
                        pid: p.id,
                        rtt_ns,
                        bytes_in_flight: p.bytes_in_flight,
                        cwnd: p.cwnd,
                        sent: p.sent_count,
                        lost: p.lost_count,
                        pacing: p.pacing_or_zero(),
                        sent_bytes: p.sent_bytes,
                    },
                );
            }
            i += 1;
        }
        assert(paths@.subrange(0, i as int) =~= paths@);
        r
    }

    /// Drops the stale decisions, which are returned to be trained without
    /// reward, and prepares a decision among the paths that can send.
    pub fn begin_select(&mut self, paths: &PathMap, now: u64) -> (r: (
        Vec<(usize, Context)>,
        Result<SelectPlan, Error>,
    ))
        requires
            paths.wf(),
        ensures
            final(self).wf() == old(self).wf(),
            r.0@ == stale_contexts(old(self)@, now, None, old(self)@.pending_context.len()),
            ({
                let m = without_stale(old(self)@, now, None, old(self)@.pending_context.len());
                &&& final(self)@ == prepared(m, paths@)
                &&& match r.1 {
                    Ok(plan) => is_plan(m, paths@, now, plan) && plan.wf(),
                    Err(e) => e == Error::Done,
                }
            }),
            r.1 is Err <==> forall|i: int|
                0 <= i < paths@.len() ==> !sendable(#[trigger] paths@[i]),
    {
        let stale = self.penalize_stale_pending(now, None);
        let plan = self.prepare_select(paths, now);
        (stale, plan)
    }

    /// Prepares a decision among the paths that can send.
    pub fn prepare_select(&mut self, paths: &PathMap, now: u64) -> (r: Result<SelectPlan, Error>)
        requires
            paths.wf(),
        ensures
            final(self)@ == prepared(old(self)@, paths@),
            final(self).wf() == old(self).wf(),
            match r {
                Ok(plan) => is_plan(old(self)@, paths@, now, plan) && plan.wf(),
                Err(e) => e == Error::Done,
            },
            r is Err <==> forall|i: int| 0 <= i < paths@.len() ==> !sendable(#[trigger] paths@[i]),
    {
        let ghost m = self@;
        let stats = self.collect_stats(paths);
        proof {
            lemma_stats_of(m, paths@);
        }
        if stats.len() == 0 {
            return Err(Error::Done);
        }
        let mut min_rtt_ns: u64 = u64::MAX;
        let mut max_pacing: u64 = 0;
        let mut forget: Vec<usize> = Vec::new();
        let mut selections: Vec<u64> = Vec::new();
        let mut i: usize = 0;
        assert(stats@.subrange(0, 0) =~= Seq::<PathStats>::empty());
        while i < stats.len()
            invariant
                i <= stats@.len(),
                self@ == m,
                min_rtt_ns == least_rtt(stats@.subrange(0, i as int)),
                max_pacing == most_pacing(stats@.subrange(0, i as int)),
                forget@ == idle_paths(m, stats@.subrange(0, i as int), now),
                selections@ =~= Seq::new(
                    i as nat,
                    |j: int| at(m.total_counts, stats@[j].pid as int, 0),
                ),
            decreases stats@.len() - i,
        {
            let s = stats[i];
            proof {
                let next = stats@.subrange(0, i + 1);
                assert(next.drop_last() =~= stats@.subrange(0, i as int));
                assert(next.last() == s);
            }
            if s.rtt_ns < min_rtt_ns {
                min_rtt_ns = s.rtt_ns;
            }
            if s.pacing > max_pacing {
                max_pacing = s.pacing;
            }
            let idle = match get(&self.last_selection_time, s.pid, None) {
                Some(t) => elapsed_ns(t, now) > IDLE_FORGET_THRESHOLD,
                None => false,
            };
            if idle {
                forget.push(s.pid);
            }
            selections.push(get(&self.total_counts, s.pid, 0));
            i += 1;
        }
        assert(stats@.subrange(0, i as int) =~= stats@);
        if min_rtt_ns < 1 {
            min_rtt_ns = 1;
        }
        self.last_min_rtt_ns = min_rtt_ns;
        self.last_max_pacing_bps = max_pacing;
        let mut contexts: Vec<Context> = Vec::new();
        let mut k: usize = 0;
        while k < stats.len()
            invariant
                k <= stats@.len(),
                contexts@ =~= Seq::new(
                    k as nat,
                    |j: int| stats_context(stats@[j], min_rtt_ns, max_pacing),
                ),
            decreases stats@.len() - k,
        {
            let s = stats[k];
            contexts.push(
                make_context(
                    s.rtt_ns,
                    min_rtt_ns,
                    s.bytes_in_flight,
                    s.cwnd,
                    s.lost,
                    s.sent,
                    s.pacing,
                    max_pacing,
                ),
            );
            k += 1;
        }
        assert(self@ =~= prepared(m, paths@));
        Ok(SelectPlan { stats, contexts, selections, forget })
    }
}

impl SelectPlan {
    /// There is a path, each has a context, and path ids rise.
    pub open spec fn wf(self) -> bool {
        &&& self.stats@.len() > 0
        &&& self.contexts@.len() == self.stats@.len()
        &&& self.selections@.len() == self.stats@.len()
        &&& stats_ordered(self.stats@)
    }
}

// ───────────────────────────── taking a decision ─────────────────────────────

/// The address that stands for a path: its local one, or the remote one where
/// the local one is the wildcard address.
pub open spec fn path_addr(p: Path) -> Seq<char> {
    if p.local_unspecified {
        p.remote_ip@
    } else {
        p.local_ip@
    }
}

/// The address table once the paths of the decision were noted. An address that
/// is known stays.
pub open spec fn addrs_noted(
    addrs: Seq<Option<Seq<char>>>,
    stats: Seq<PathStats>,
    paths: Seq<Path>,
) -> Seq<Option<Seq<char>>>
    decreases stats.len(),
{
    if stats.len() == 0 {
        addrs
    } else {
        let before = addrs_noted(addrs, stats.drop_last(), paths);
        let pid = stats.last().pid;
        let k = index_of(paths, pid);
        placed(
            before,
            pid as int,
            match at(before, pid as int, None) {
                Some(a) => Some(a),
                None => if k < paths.len() {
                    Some(path_addr(paths[k]))
                } else {
                    None
                },
            },
            None,
        )
    }
}

/// A share in percent with at most one decimal, given in tenths of a percent.
pub open spec fn tenths_text(tenths: nat) -> Seq<char> {
    if tenths % 10 == 0 {
        decimal(tenths / 10) + "%"@
    } else {
        decimal(tenths / 10) + "."@ + decimal(tenths % 10) + "%"@
    }
}

/// The address of a path, or a question mark.
pub open spec fn addr_or_unknown(addrs: Seq<Option<Seq<char>>>, pid: int) -> Seq<char> {
    match at(addrs, pid, None) {
        Some(a) => a,
        None => "?"@,
    }
}

/// The share of one path in a snapshot.
pub open spec fn share_text(pid: nat, addr: Seq<char>, tenths: nat) -> Seq<char> {
    "path["@ + decimal(pid) + "] "@ + addr + " "@ + tenths_text(tenths)
}

/// The shares of the selected paths among the first `n`.
pub open spec fn share_texts(
    counts: Seq<u64>,
    addrs: Seq<Option<Seq<char>>>,
    sum: nat,
    n: nat,
) -> Seq<Seq<char>>
    decreases n,
{
    if n == 0 {
        Seq::empty()
    } else {
        let before = share_texts(counts, addrs, sum, (n - 1) as nat);
        let cnt = counts[n - 1];
        if cnt == 0 {
            before
        } else {
            before.push(
                share_text(
                    (n - 1) as nat,
                    addr_or_unknown(addrs, n - 1),
                    (cnt as nat * 1000) / sum,
                ),
            )
        }
    }
}

/// The line of one second in the summary.
pub open spec fn snapshot_text(
    elapsed_s: nat,
    counts: Seq<u64>,
    addrs: Seq<Option<Seq<char>>>,
    sum: nat,
) -> Seq<char> {
    "  t="@ + pad_left(decimal(elapsed_s), 3) + "s:  "@ + joined(
        share_texts(counts, addrs, sum, counts.len()),
        "  |  "@,
    )
}

/// The bytes sent on a path since the last record that held it. A path that no
/// record held yet counts from now.
pub open spec fn sent_since(prev: Seq<Option<u64>>, s: PathStats) -> u64 {
    match at(prev, s.pid as int, None) {
        Some(before) => risen(s.sent_bytes, before),
        None => 0,
    }
}

/// The bytes sent on all paths since the last record, as far as they fit.
pub open spec fn all_sent_since(prev: Seq<Option<u64>>, stats: Seq<PathStats>) -> u64
    decreases stats.len(),
{
    if stats.len() == 0 {
        0
    } else {
        let sum = all_sent_since(prev, stats.drop_last()) + sent_since(prev, stats.last());
        if sum <= u64::MAX {
            sum as u64
        } else {
            u64::MAX
        }
    }
}

/// The table of sent bytes with the present value of the paths.
pub open spec fn stats_noted(prev: Seq<Option<u64>>, stats: Seq<PathStats>) -> Seq<Option<u64>>
    decreases stats.len(),
{
    if stats.len() == 0 {
        prev
    } else {
        placed(
            stats_noted(prev, stats.drop_last()),
            stats.last().pid as int,
            Some(stats.last().sent_bytes),
            None,
        )
    }
}

/// The metrics of one path, in a scheduler whose counters include the decision.
pub open spec fn linucb_row(
    m: LinUcbModel,
    s: PathStats,
    x: Context,
    total_delta: u64,
    paths: Seq<Path>,
) -> LinUcbRow {
    let k = index_of(paths, s.pid);
    LinUcbRow {
        stats: s,
        context: x,
        count: at(m.window_counts, s.pid as int, 0),
        total: m.window_total as u64,
        samples: at(m.total_counts, s.pid as int, 0),
        delta_bytes: sent_since(m.prev_sent_bytes, s),
        total_delta,
        min_rtt_us: if k < paths.len() {
            paths[k].min_rtt / 1000
        } else {
            0
        },
        latest_rtt_us: if k < paths.len() {
            paths[k].latest_rtt / 1000
        } else {
            0
        },
    }
}

/// The counters, the pending decision and the addresses after a decision for the
/// path at `b`.
pub open spec fn counted(
    m: LinUcbModel,
    plan: SelectPlan,
    b: int,
    paths: Seq<Path>,
    now: u64,
) -> LinUcbModel {
    let pid = plan.stats@[b].pid;
    LinUcbModel {
        window_counts: placed(
            m.window_counts,
            pid as int,
            (at(m.window_counts, pid as int, 0) + 1) as u64,
            0,
        ),
        total_counts: placed(
            m.total_counts,
            pid as int,
            (at(m.total_counts, pid as int, 0) + 1) as u64,
            0,
        ),
        window_total: m.window_total + 1,
        total_selections: m.total_selections + 1,
        last_selection_time: placed(m.last_selection_time, pid as int, Some(now), None),
        path_addrs: addrs_noted(m.path_addrs, plan.stats@, paths),
        last_selected: Some(pid),
        ..marked(m, pid as int, plan.contexts@[b], now)
    }
}

/// The report of a second, taken and the window begun anew.
pub open spec fn reported(
    m: LinUcbModel,
    plan: SelectPlan,
    paths: Seq<Path>,
    now: u64,
) -> LinUcbModel {
    let secs = elapsed_secs(m.start_time, now);
    let stats = plan.stats@;
    let total_delta = all_sent_since(m.prev_sent_bytes, stats);
    LinUcbModel {
        snapshots: m.snapshots.push(
            snapshot_text(secs as nat, m.window_counts, m.path_addrs, m.window_total),
        ),
        records: m.records.push(
            LinUcbRecordModel {
                step: m.records.len(),
                timestamp: (m.start_unix_secs + secs) as nat,
                elapsed_s: secs as nat,
                rows: Seq::new(
                    stats.len(),
                    |i: int| linucb_row(m, stats[i], plan.contexts@[i], total_delta, paths),
                ),
            },
        ),
        last_log: Some(now),
        window_counts: zeros(m.window_counts.len()),
        window_total: 0,
        prev_sent_bytes: stats_noted(m.prev_sent_bytes, stats),
        ..m
    }
}

/// The scheduler after a decision for the path at `b`.
pub open spec fn selected(
    m: LinUcbModel,
    plan: SelectPlan,
    b: int,
    paths: Seq<Path>,
    now: u64,
) -> LinUcbModel {
    let w = counted(m, plan, b, paths, now);
    if second_passed(m.last_log, now) {
        reported(w, plan, paths, now)
    } else {
        w
    }
}

/// A record holds the path.
pub open spec fn has_row(records: Seq<LinUcbRecordModel>, pid: usize) -> bool {
    exists|i: int, j: int|
        0 <= i < records.len() && 0 <= j < records[i].rows.len() && (
        #[trigger] records[i].rows[j]).stats.pid == pid
}

/// Sent bytes are noted only for paths that a record holds.
pub open spec fn noted_are_recorded(
    prev: Seq<Option<u64>>,
    records: Seq<LinUcbRecordModel>,
) -> bool {
    forall|pid: usize| #[trigger]
        at(prev, pid as int, None) is Some ==> has_row(records, pid)
}

/// Only the noted paths gain an entry.
proof fn lemma_stats_noted(prev: Seq<Option<u64>>, stats: Seq<PathStats>, pid: usize)
    requires
        at(stats_noted(prev, stats), pid as int, None) is Some,
    ensures
        at(prev, pid as int, None) is Some || exists|i: int|
            0 <= i < stats.len() && (#[trigger] stats[i]).pid == pid,
    decreases stats.len(),
{
    if stats.len() > 0 {
        let front = stats.drop_last();
        if stats.last().pid == pid {
            assert(stats[stats.len() - 1].pid == pid);
        } else {
            lemma_stats_noted(prev, front, pid);
            if at(prev, pid as int, None) is None {
                let i = choose|i: int| 0 <= i < front.len() && (#[trigger] front[i]).pid == pid;
                assert(stats[i].pid == pid);
            }
        }
    }
}

/// A decision keeps the noted bytes in step with the records.
pub proof fn selection_keeps_noted(
    m: LinUcbModel,
    plan: SelectPlan,
    b: int,
    paths: Seq<Path>,
    now: u64,
)
    requires
        noted_are_recorded(m.prev_sent_bytes, m.records),
    ensures
        noted_are_recorded(
            selected(m, plan, b, paths, now).prev_sent_bytes,
            selected(m, plan, b, paths, now).records,
        ),
{
    let n = selected(m, plan, b, paths, now);
    let stats = plan.stats@;
    if second_passed(m.last_log, now) {
        let last = m.records.len() as int;
        assert forall|pid: usize| #[trigger]
            at(n.prev_sent_bytes, pid as int, None) is Some implies has_row(n.records, pid) by {
            lemma_stats_noted(m.prev_sent_bytes, stats, pid);
            if at(m.prev_sent_bytes, pid as int, None) is Some {
                let (i, j) = choose|i: int, j: int|
                    0 <= i < m.records.len() && 0 <= j < m.records[i].rows.len() && (
                    #[trigger] m.records[i].rows[j]).stats.pid == pid;
                assert(n.records[i].rows[j].stats.pid == pid);
            } else {
                let k = choose|k: int| 0 <= k < stats.len() && (#[trigger] stats[k]).pid == pid;
                assert(n.records[last].rows[k].stats.pid == pid);
            }
        }
    }
}

/// The first record of a path reports no bytes for it: what it sent before is not
/// taken for the traffic of one second, whatever its id is.
pub proof fn first_record_reports_no_bytes(
    m: LinUcbModel,
    plan: SelectPlan,
    b: int,
    paths: Seq<Path>,
    now: u64,
    i: int,
)
    requires
        noted_are_recorded(m.prev_sent_bytes, m.records),
        0 <= i < plan.stats@.len(),
        !has_row(m.records, plan.stats@[i].pid),
        second_passed(m.last_log, now),
    ensures
        ({
            let n = selected(m, plan, b, paths, now);
            &&& n.records.len() == m.records.len() + 1
            &&& n.records.last().rows[i].stats == plan.stats@[i]
            &&& n.records.last().rows[i].delta_bytes == 0
        }),
{
    let pid = plan.stats@[i].pid;
    assert(at(m.prev_sent_bytes, pid as int, None) is None);
}

/// The counts of the window keep summing up to its total, so the shares in a
/// snapshot are shares of all selections in it.
pub proof fn selection_keeps_window(
    m: LinUcbModel,
    plan: SelectPlan,
    b: int,
    paths: Seq<Path>,
    now: u64,
)
    requires
        total(m.window_counts) == m.window_total,
        m.window_total < u64::MAX,
        0 <= b < plan.stats@.len(),
    ensures
        total(counted(m, plan, b, paths, now).window_counts) == m.window_total + 1,
        ({
            let w = selected(m, plan, b, paths, now);
            total(w.window_counts) == w.window_total
        }),
{
    let pid = plan.stats@[b].pid as int;
    lemma_entry_at_most_total(m.window_counts, pid);
    lemma_total_placed(m.window_counts, pid, (at(m.window_counts, pid, 0) + 1) as u64);
    lemma_total_zeros(counted(m, plan, b, paths, now).window_counts.len());
}

/// A decision counts for the selected path alone.
pub proof fn selection_counts_one_path(
    m: LinUcbModel,
    plan: SelectPlan,
    b: int,
    paths: Seq<Path>,
    now: u64,
    pid: int,
)
    requires
        0 <= b < plan.stats@.len(),
        0 <= pid,
        at(m.total_counts, plan.stats@[b].pid as int, 0) < u64::MAX,
    ensures
        at(selected(m, plan, b, paths, now).total_counts, pid, 0) == at(m.total_counts, pid, 0) + (
        if pid == plan.stats@[b].pid {
            1int
        } else {
            0
        }),
        pid != plan.stats@[b].pid ==> at(
            selected(m, plan, b, paths, now).pending_context,
            pid,
            None,
        ) == at(m.pending_context, pid, None),
{
}

/// The share in tenths of a percent.
fn tenths_string(tenths: u64) -> (r: String)
    ensures
        r@ == tenths_text(tenths as nat),
{
    let mut r = decimal_string(tenths / 10);
    if tenths % 10 != 0 {
        r.append(".");
        push_decimal(&mut r, tenths % 10);
    }
    r.append("%");
    r
}

/// The address of a path, or a question mark.
fn addr_string(addrs: &Vec<Option<String>>, pid: usize) -> (r: String)
    ensures
        r@ == addr_or_unknown(addr_texts(addrs@), pid as int),
{
    if pid < addrs.len() {
        match &addrs[pid] {
            Some(a) => a.clone(),
            None => String::from_str("?"),
        }
    } else {
        String::from_str("?")
    }
}

/// The line of one second in the summary.
fn snapshot_line(
    elapsed_s: u64,
    counts: &Vec<u64>,
    addrs: &Vec<Option<String>>,
    sum: u64,
) -> (r: String)
    requires
        total(counts@) == sum,
        0 < sum <= u64::MAX / 1000,
    ensures
        r@ == snapshot_text(elapsed_s as nat, counts@, addr_texts(addrs@), sum as nat),
{
    let mut parts: Vec<String> = Vec::new();
    let mut i: usize = 0;
    assert(texts(parts@) =~= share_texts(counts@, addr_texts(addrs@), sum as nat, 0));
    while i < counts.len()
        invariant
            i <= counts@.len(),
            total(counts@) == sum,
            0 < sum <= u64::MAX / 1000,
            texts(parts@) == share_texts(counts@, addr_texts(addrs@), sum as nat, i as nat),
        decreases counts@.len() - i,
    {
        let cnt: u64 = counts[i];
        proof {
            lemma_entry_at_most_total(counts@, i as int);
        }
        if cnt != 0 {
            let mut part = String::from_str("path[");
            push_decimal(&mut part, i as u64);
            part.append("] ");
            let addr = addr_string(addrs, i);
            part.append(addr.as_str());
            part.append(" ");
            let share = tenths_string(cnt * 1000 / sum);
            part.append(share.as_str());
            let ghost before = texts(parts@);
            parts.push(part);
            assert(texts(parts@) =~= before.push(part@));
        }
        i += 1;
    }
    let mut r = String::from_str("  t=");
    let time = padded_left(decimal_string(elapsed_s).as_str(), 3);
    r.append(time.as_str());
    r.append("s:  ");
    let body = join(&parts, "  |  ");
    r.append(body.as_str());
    r
}

impl LinUCBScheduler {
    /// Every counter that a decision raises has room.
    pub open spec fn has_room(self) -> bool {
        &&& self.window_total < u64::MAX / 1000
        &&& self.total_selections < u64::MAX
        &&& forall|i: int|
            0 <= i < self.total_counts@.len() ==> (#[trigger] self.total_counts@[i]) < u64::MAX
    }

    fn note_addrs(&mut self, stats: &Vec<PathStats>, paths: &PathMap)
        requires
            stats_ordered(stats@),
        ensures
            final(self)@ == (LinUcbModel {
                path_addrs: addrs_noted(old(self)@.path_addrs, stats@, paths@),
                ..old(self)@
            }),
    {
        let ghost m = self@;
        let mut i: usize = 0;
        assert(stats@.subrange(0, 0) =~= Seq::<PathStats>::empty());
        while i < stats.len()
            invariant
                i <= stats@.len(),
                stats_ordered(stats@),
                self@ == (LinUcbModel {
                    path_addrs: addrs_noted(m.path_addrs, stats@.subrange(0, i as int), paths@),
                    ..m
                }),
            decreases stats@.len() - i,
        {
            let pid: usize = stats[i].pid;
            let ghost before = self@.path_addrs;
            proof {
                let next = stats@.subrange(0, i + 1);
                assert(next.drop_last() =~= stats@.subrange(0, i as int));
            }
            while self.path_addrs.len() <= pid
                invariant
                    pid < usize::MAX,
                    self@ == (LinUcbModel { path_addrs: self@.path_addrs, ..m }),
                    self.path_addrs@.len() >= before.len(),
                    self.path_addrs@.len() <= before.len() || self.path_addrs@.len() <= pid + 1,
                    forall|j: int|
                        0 <= j < self@.path_addrs.len() ==> #[trigger] self@.path_addrs[j] == at(
                            before,
                            j,
                            None,
                        ),
                decreases pid + 1 - self.path_addrs.len(),
            {
                let ghost prev = self@.path_addrs;
                self.path_addrs.push(None);
                assert(self@.path_addrs =~= prev.push(None));
                assert(self@ =~= (LinUcbModel { path_addrs: self@.path_addrs, ..m }));
            }
            let known = self.path_addrs[pid].is_some();
            assert(self@.path_addrs[pid as int] == at(before, pid as int, None));
            let k: usize = paths.position(pid);
            if !known && k < paths.paths.len() {
                let p = &paths.paths[k];
                let ip = if p.local_unspecified {
                    p.remote_ip.clone()
                } else {
                    p.local_ip.clone()
                };
                let ghost prev = self@.path_addrs;
                self.path_addrs.set(pid, Some(ip));
                assert(self@.path_addrs =~= prev.update(pid as int, Some(ip@)));
            }
            i += 1;
            proof {
                let want = addrs_noted(m.path_addrs, stats@.subrange(0, i as int), paths@);
                assert(self@.path_addrs =~= want);
                assert(self@ =~= (LinUcbModel { path_addrs: want, ..m }));
            }
        }
        assert(stats@.subrange(0, i as int) =~= stats@);
    }

    fn note_sent(&mut self, stats: &Vec<PathStats>)
        requires
            stats_ordered(stats@),
        ensures
            final(self)@ == (LinUcbModel {
                prev_sent_bytes: stats_noted(old(self)@.prev_sent_bytes, stats@),
                ..old(self)@
            }),
    {
        let ghost m = self@;
        let mut i: usize = 0;
        assert(stats@.subrange(0, 0) =~= Seq::<PathStats>::empty());
        while i < stats.len()
            invariant
                i <= stats@.len(),
                stats_ordered(stats@),
                self@ == (LinUcbModel {
                    prev_sent_bytes: stats_noted(
                        m.prev_sent_bytes,
                        stats@.subrange(0, i as int),
                    ),
                    ..m
                }),
            decreases stats@.len() - i,
        {
            proof {
                let next = stats@.subrange(0, i + 1);
                assert(next.drop_last() =~= stats@.subrange(0, i as int));
            }
            put(&mut self.prev_sent_bytes, stats[i].pid, Some(stats[i].sent_bytes), None);
            i += 1;
        }
        assert(stats@.subrange(0, i as int) =~= stats@);
    }

    fn delta_of(&self, s: &PathStats) -> (r: u64)
        ensures
            r == sent_since(self@.prev_sent_bytes, *s),
    {
        match get(&self.prev_sent_bytes, s.pid, None) {
            Some(before) => s.sent_bytes.saturating_sub(before),
            None => 0,
        }
    }

    fn take_rows(&self, plan: &SelectPlan, paths: &PathMap) -> (rows: Vec<LinUcbRow>)
        requires
            plan.wf(),
        ensures
            rows@ == Seq::new(
                plan.stats@.len(),
                |i: int|
                    linucb_row(
                        self@,
                        plan.stats@[i],
                        plan.contexts@[i],
                        all_sent_since(self@.prev_sent_bytes, plan.stats@),
                        paths@,
                    ),
            ),
    {
        let mut total_delta: u64 = 0;
        let mut i: usize = 0;
        assert(plan.stats@.subrange(0, 0) =~= Seq::<PathStats>::empty());
        while i < plan.stats.len()
            invariant
                i <= plan.stats@.len(),
                total_delta == all_sent_since(
                    self@.prev_sent_bytes,
                    plan.stats@.subrange(0, i as int),
                ),
            decreases plan.stats@.len() - i,
        {
            proof {
                let next = plan.stats@.subrange(0, i + 1);
                assert(next.drop_last() =~= plan.stats@.subrange(0, i as int));
            }
            let delta: u64 = self.delta_of(&plan.stats[i]);
            total_delta = total_delta.saturating_add(delta);
            i += 1;
        }
        assert(plan.stats@.subrange(0, i as int) =~= plan.stats@);
        let mut rows: Vec<LinUcbRow> = Vec::new();
        let mut k: usize = 0;
        while k < plan.stats.len()
            invariant
                k <= plan.stats@.len(),
                plan.wf(),
                total_delta == all_sent_since(self@.prev_sent_bytes, plan.stats@),
                rows@ =~= Seq::new(
                    k as nat,
                    |j: int|
                        linucb_row(
                            self@,
                            plan.stats@[j],
                            plan.contexts@[j],
                            total_delta,
                            paths@,
                        ),
                ),
            decreases plan.stats@.len() - k,
        {
            let s = plan.stats[k];
            let j: usize = paths.position(s.pid);
            let (min_rtt_us, latest_rtt_us): (u64, u64) = if j < paths.paths.len() {
                (paths.paths[j].min_rtt / 1000, paths.paths[j].latest_rtt / 1000)
            } else {
                (0, 0)
            };
            rows.push(
                LinUcbRow {
                    stats: s,
                    context: plan.contexts[k],
                    count: get(&self.window_counts, s.pid, 0),
                    total: self.window_total,
                    samples: get(&self.total_counts, s.pid, 0),
                    delta_bytes: self.delta_of(&s),
                    total_delta,
                    min_rtt_us,
                    latest_rtt_us,
                },
            );
            k += 1;
        }
        rows
    }

    /// Takes the report of a second.
    fn report(&mut self, plan: &SelectPlan, paths: &PathMap, now: u64)
        requires
            plan.wf(),
            old(self).wf(),
            0 < old(self).window_total <= u64::MAX / 1000,
        ensures
            final(self)@ == reported(old(self)@, *plan, paths@, now),
    {
        let ghost m = self@;
        let elapsed_s: u64 = elapsed_ns(self.start_time, now) / NANOS_PER_SEC;
        let line = snapshot_line(
            elapsed_s,
            &self.window_counts,
            &self.path_addrs,
            self.window_total,
        );
        let rows = self.take_rows(plan, paths);
        let step: u64 = self.records.len() as u64;
        let timestamp: u64 = self.start_unix_secs + elapsed_s;
        self.snapshots.push(line);
        self.records.push(LinUcbRecord { step, timestamp, elapsed_s, rows });
        self.last_log = Some(now);
        clear_counts(&mut self.window_counts);
        self.window_total = 0;
        proof {
            let want = reported(m, *plan, paths@, now);
            assert(self@.snapshots =~= want.snapshots);
            assert(self@.records =~= want.records);
            assert(self@ =~= (LinUcbModel { prev_sent_bytes: m.prev_sent_bytes, ..want }));
        }
        self.note_sent(&plan.stats);
        assert(self@ =~= reported(m, *plan, paths@, now));
    }

    /// Takes the decision: selects the path whose score is the highest. The
    /// scores are doubles, given by their bits, one for each path of the plan.
    pub fn on_select(
        &mut self,
        plan: &SelectPlan,
        scores: &Vec<u64>,
        paths: &PathMap,
        now: u64,
    ) -> (pid: usize)
        requires
            old(self).wf(),
            old(self).has_room(),
            plan.wf(),
            scores@.len() == plan.stats@.len(),
        ensures
            final(self).wf(),
            exists|b: int|
                {
                    &&& #[trigger] is_winner(scores@, b)
                    &&& pid == plan.stats@[b].pid
                    &&& final(self)@ == selected(old(self)@, *plan, b, paths@, now)
                },
    {
        let ghost m = self@;
        let b: usize = winner(scores);
        let pid: usize = plan.stats[b].pid;
        proof {
            lemma_entry_at_most_total(m.window_counts, pid as int);
            selection_keeps_window(m, *plan, b as int, paths@, now);
            selection_keeps_noted(m, *plan, b as int, paths@, now);
        }
        let in_window: u64 = get(&self.window_counts, pid, 0);
        put(&mut self.window_counts, pid, in_window + 1, 0);
        let in_total: u64 = get(&self.total_counts, pid, 0);
        put(&mut self.total_counts, pid, in_total + 1, 0);
        self.window_total += 1;
        self.total_selections += 1;
        self.mark_pending_context(pid, plan.contexts[b], now);
        put(&mut self.last_selection_time, pid, Some(now), None);
        self.last_selected = Some(pid);
        self.note_addrs(&plan.stats, paths);
        assert(self@ =~= counted(m, *plan, b as int, paths@, now));
        if is_second_passed(self.last_log, now) {
            self.report(plan, paths, now);
        }
        assert(self@ == selected(m, *plan, b as int, paths@, now));
        assert(is_winner(scores@, b as int));
        pid
    }
}

// ───────────────────────────── feedback ─────────────────────────────

/// What an acknowledgement asks of the smoothed round-trip time of its path.
#[derive(Debug, Clone, Copy)]
pub struct AckPlan {
    /// The latest round-trip time, at least 1.
    pub rtt_ns: u64,
    /// The bits of the smoothed round-trip time so far; `None` for a new path,
    /// which starts at `rtt_ns`.
    pub old_ema_bits: Option<u64>,
    /// The path adapts fast.
    pub warming_up: bool,
}

/// What a decision is trained with.
#[derive(Debug, Clone, Copy)]
pub struct Training {
    pub context: Context,
    pub reward: RewardParts,
}

/// The plan for an acknowledgement on a path.
pub open spec fn ack_plan(m: LinUcbModel, p: Path) -> AckPlan {
    AckPlan {
        rtt_ns: at_least_one(p.latest_rtt),
        old_ema_bits: if p.id < m.ema_rtt_bits.len() {
            Some(m.ema_rtt_bits[p.id as int])
        } else {
            None
        },
        warming_up: at(m.ack_counts, p.id as int, 0) + 1 <= EMA_WARMUP_ACKS,
    }
}

/// The scheduler with one more acknowledgement counted on the path.
pub open spec fn ack_counted(m: LinUcbModel, path_id: usize) -> LinUcbModel {
    LinUcbModel {
        ack_counts: placed(
            m.ack_counts,
            path_id as int,
            (at(m.ack_counts, path_id as int, 0) + 1) as u64,
            0,
        ),
        ..m
    }
}

/// The training of the pending decision of a path.
pub open spec fn training(m: LinUcbModel, p: Path) -> Option<Training> {
    match at(m.pending_context, p.id as int, None) {
        Some(x) => Some(
            Training {
                context: x,
                reward: reward_parts(
                    risen(p.acked_count, at(m.prev_acked_count, p.id as int, 0)),
                    risen(p.sent_count, at(m.prev_sent_count, p.id as int, 0)),
                    m.last_min_rtt_ns,
                    p.bytes_in_flight as u64,
                    p.cwnd,
                ),
            },
        ),
        None => None,
    }
}

/// The scheduler once the smoothed round-trip time was updated and the pending
/// decision trained.
pub open spec fn acked(
    m: LinUcbModel,
    p: Path,
    ema_bits: u64,
    ema_ns: u64,
    fill_bits: u64,
) -> LinUcbModel {
    let w = LinUcbModel {
        ema_rtt_bits: placed(m.ema_rtt_bits, p.id as int, ema_bits, fill_bits),
        ema_rtt_ns: placed(m.ema_rtt_ns, p.id as int, ema_ns, 0),
        ..m
    };
    if training(m, p) is Some {
        LinUcbModel {
            prev_acked_count: placed(m.prev_acked_count, p.id as int, p.acked_count, 0),
            prev_sent_count: placed(m.prev_sent_count, p.id as int, p.sent_count, 0),
            ..taken(w, p.id as int)
        }
    } else {
        taken(w, p.id as int)
    }
}

/// An acknowledgement trains the pending decision of its path once: a second one
/// without a selection in between trains nothing.
pub proof fn feedback_trains_once(
    m: LinUcbModel,
    p: Path,
    ema_bits: u64,
    ema_ns: u64,
    fill_bits: u64,
)
    ensures
        training(acked(m, p, ema_bits, ema_ns, fill_bits), p) is None,
{
}

impl LinUCBScheduler {
    /// Drops the stale decisions of the other paths, which are returned to be
    /// trained without reward, and counts an acknowledgement on the path.
    pub fn on_ack(&mut self, now: u64, path_id: usize, paths: &PathMap) -> (r: (
        Vec<(usize, Context)>,
        Option<AckPlan>,
    ))
        requires
            paths.wf(),
            at(old(self)@.ack_counts, path_id as int, 0) < u64::MAX,
        ensures
            final(self).wf() == old(self).wf(),
            r.0@ == stale_contexts(
                old(self)@,
                now,
                Some(path_id),
                old(self)@.pending_context.len(),
            ),
            ({
                let m = without_stale(
                    old(self)@,
                    now,
                    Some(path_id),
                    old(self)@.pending_context.len(),
                );
                let k = index_of(paths@, path_id);
                if k < paths@.len() {
                    &&& r.1 == Some(ack_plan(m, paths@[k]))
                    &&& final(self)@ == ack_counted(m, path_id)
                } else {
                    r.1 is None && final(self)@ == m
                }
            }),
    {
        let stale = self.penalize_stale_pending(now, Some(path_id));
        let plan = self.begin_ack(path_id, paths);
        (stale, plan)
    }

    /// Counts an acknowledgement on the path, and says how its smoothed
    /// round-trip time is to be updated; `None` for an unknown path.
    pub fn begin_ack(&mut self, path_id: usize, paths: &PathMap) -> (r: Option<AckPlan>)
        requires
            paths.wf(),
            at(old(self)@.ack_counts, path_id as int, 0) < u64::MAX,
        ensures
            final(self).wf() == old(self).wf(),
            ({
                let k = index_of(paths@, path_id);
                if k < paths@.len() {
                    &&& r == Some(ack_plan(old(self)@, paths@[k]))
                    &&& final(self)@ == ack_counted(old(self)@, path_id)
                } else {
                    r is None && final(self)@ == old(self)@
                }
            }),
    {
        let k: usize = paths.position(path_id);
        if k >= paths.paths.len() {
            return None;
        }
        let p = &paths.paths[k];
        let rtt_ns: u64 = if p.latest_rtt >= 1 {
            p.latest_rtt
        } else {
            1
        };
        let count: u64 = get(&self.ack_counts, path_id, 0) + 1;
        put(&mut self.ack_counts, path_id, count, 0);
        let old_ema_bits = if path_id < self.ema_rtt_bits.len() {
            Some(self.ema_rtt_bits[path_id])
        } else {
            None
        };
        Some(AckPlan { rtt_ns, old_ema_bits, warming_up: count <= EMA_WARMUP_ACKS })
    }

    /// Stores the smoothed round-trip time of the path, by its bits and in whole
    /// nanoseconds, and returns what its pending decision is to be trained with.
    /// Paths below it that are new start at `fill_bits`.
    pub fn finish_ack(
        &mut self,
        path_id: usize,
        paths: &PathMap,
        ema_bits: u64,
        ema_ns: u64,
        fill_bits: u64,
    ) -> (r: Option<Training>)
        requires
            paths.wf(),
        ensures
            final(self).wf() == old(self).wf(),
            ({
                let k = index_of(paths@, path_id);
                if k < paths@.len() {
                    &&& r == training(old(self)@, paths@[k])
                    &&& final(self)@ == acked(
                        old(self)@,
                        paths@[k],
                        ema_bits,
                        ema_ns,
                        fill_bits,
                    )
                } else {
                    r is None && final(self)@ == old(self)@
                }
            }),
    {
        let ghost m = self@;
        let k: usize = paths.position(path_id);
        if k >= paths.paths.len() {
            return None;
        }
        let p = &paths.paths[k];
        put(&mut self.ema_rtt_bits, path_id, ema_bits, fill_bits);
        put(&mut self.ema_rtt_ns, path_id, ema_ns, 0);
        match self.take_pending_context(path_id) {
            Some(x) => {
                let delta_acked: u64 = p.acked_count.saturating_sub(
                    get(&self.prev_acked_count, path_id, 0),
                );
                let delta_sent: u64 = p.sent_count.saturating_sub(
                    get(&self.prev_sent_count, path_id, 0),
                );
                put(&mut self.prev_acked_count, path_id, p.acked_count, 0);
                put(&mut self.prev_sent_count, path_id, p.sent_count, 0);
                let reward = observed_reward(
                    delta_acked,
                    delta_sent,
                    self.last_min_rtt_ns,
                    p.bytes_in_flight,
                    p.cwnd,
                );
                assert(self@ =~= acked(m, *p, ema_bits, ema_ns, fill_bits));
                Some(Training { context: x, reward })
            },
            None => {
                assert(self@ =~= acked(m, *p, ema_bits, ema_ns, fill_bits));
                None
            },
        }
    }
}

// ───────────────────────────── rendering ─────────────────────────────

/// The rendered measurements and model values of one path.
pub struct LinUcbCells {
    /// Share of the selections in the window, in percent.
    pub pct: String,
    /// Smallest round-trip time in milliseconds.
    pub rtt_ms: String,
    /// Latest round-trip time in milliseconds.
    pub latest_rtt_ms: String,
    /// Send rate in the window, in Mbit/s.
    pub mbps: String,
    /// Congestion window in KB, one decimal.
    pub cwnd_kb: String,
    /// Bytes in flight in KB, one decimal.
    pub inflight_kb: String,
    /// Pacing rate in Mbit/s.
    pub pacing_mbps: String,
    /// Estimated reward, at least 0.
    pub reward: String,
    /// Exploration bonus.
    pub bonus: String,
    /// Smallest round-trip time in microseconds.
    pub rtt_us: String,
    /// Estimated reward and exploration bonus together.
    pub ucb_total: String,
    /// Exploration bonus over the exploration coefficient.
    pub explore_ratio: String,
    /// Trace of the model's matrix.
    pub a_trace: String,
    /// Exploration coefficient.
    pub alpha: String,
    /// Share of the bytes sent in the window, in percent.
    pub share_pct: String,
    /// Bytes in flight in KB, two decimals.
    pub bif_kb: String,
    /// Congestion window in KB, two decimals.
    pub cwnd_kb_fine: String,
    /// Round-trip time over the smallest one.
    pub rtt_norm: String,
    /// Part of the congestion window in flight.
    pub cwnd_p: String,
    /// Part of the packets lost.
    pub loss_rate: String,
    /// Pacing rate over the largest one.
    pub bw_norm: String,
    /// The learned weights.
    pub w_latency: String,
    pub w_headroom: String,
    pub w_reliability: String,
    pub w_pacing: String,
    pub w_bias: String,
    /// The features.
    pub x_latency: String,
    pub x_headroom: String,
    pub x_reliability: String,
    pub x_pacing: String,
    pub x_bias: String,
}

/// The traffic, latency, throughput, congestion and loss of a path.
pub open spec fn network_fields(
    head: Seq<(Seq<char>, Seq<char>)>,
    row: LinUcbRow,
    c: LinUcbCells,
) -> Seq<(Seq<char>, Seq<char>)> {
    let pid = row.stats.pid as nat;
    head.push(
        (path_key("traffic/path"@, pid, "_pct"@), c.pct@),
    ).push(
        (path_key("latency/path"@, pid, "_rtt_ms"@), c.rtt_ms@),
    ).push(
        (path_key("latency/path"@, pid, "_latest_rtt_ms"@), c.latest_rtt_ms@),
    ).push(
        (path_key("throughput/path"@, pid, "_mbps"@), c.mbps@),
    ).push(
        (path_key("congestion/path"@, pid, "_cwnd_KB"@), c.cwnd_kb@),
    ).push(
        (path_key("congestion/path"@, pid, "_inflight_KB"@), c.inflight_kb@),
    ).push(
        (path_key("congestion/path"@, pid, "_pacing_mbps"@), c.pacing_mbps@),
    ).push(
        (path_key("loss/path"@, pid, "_sent"@), decimal(row.stats.sent as nat)),
    ).push(
        (path_key("loss/path"@, pid, "_lost"@), decimal(row.stats.lost as nat)),
    ).push(
        (path_key("linucb/path"@, pid, "_reward"@), c.reward@),
    ).push(
        (path_key("linucb/path"@, pid, "_explore_bonus"@), c.bonus@),
    ).push(
        (path_key("linucb/path"@, pid, "_samples"@), decimal(row.samples as nat)),
    )
}

fn put_network_fields(f: &mut Fields, row: &LinUcbRow, c: &LinUcbCells)
    ensures
        final(f)@ == network_fields(old(f)@, *row, *c),
{
    let pid: usize = row.stats.pid;
    f.put(make_path_key("traffic/path", pid, "_pct"), c.pct.clone());
    f.put(make_path_key("latency/path", pid, "_rtt_ms"), c.rtt_ms.clone());
    f.put(make_path_key("latency/path", pid, "_latest_rtt_ms"), c.latest_rtt_ms.clone());
    f.put(make_path_key("throughput/path", pid, "_mbps"), c.mbps.clone());
    f.put(make_path_key("congestion/path", pid, "_cwnd_KB"), c.cwnd_kb.clone());
    f.put(make_path_key("congestion/path", pid, "_inflight_KB"), c.inflight_kb.clone());
    f.put(make_path_key("congestion/path", pid, "_pacing_mbps"), c.pacing_mbps.clone());
    f.put(make_path_key("loss/path", pid, "_sent"), decimal_string(row.stats.sent));
    f.put(make_path_key("loss/path", pid, "_lost"), decimal_string(row.stats.lost));
    f.put(make_path_key("linucb/path", pid, "_reward"), c.reward.clone());
    f.put(make_path_key("linucb/path", pid, "_explore_bonus"), c.bonus.clone());
    f.put(make_path_key("linucb/path", pid, "_samples"), decimal_string(row.samples));
}

/// The state of the model of a path.
pub open spec fn model_fields(
    head: Seq<(Seq<char>, Seq<char>)>,
    row: LinUcbRow,
    c: LinUcbCells,
) -> Seq<(Seq<char>, Seq<char>)> {
    let pid = row.stats.pid as nat;
    head.push(
        (path_key("p"@, pid, ".pct"@), c.pct@),
    ).push(
        (path_key("p"@, pid, ".rtt_us"@), c.rtt_us@),
    ).push(
        (path_key("p"@, pid, ".rtt_ms"@), c.rtt_ms@),
    ).push(
        (path_key("p"@, pid, ".reward"@), c.reward@),
    ).push(
        (path_key("p"@, pid, ".bonus"@), c.bonus@),
    ).push(
        (path_key("p"@, pid, ".ucb_total"@), c.ucb_total@),
    ).push(
        (path_key("p"@, pid, ".explore_ratio"@), c.explore_ratio@),
    ).push(
        (path_key("p"@, pid, ".a_trace"@), c.a_trace@),
    ).push(
        (path_key("p"@, pid, ".forget_count"@), "0"@),
    ).push(
        (path_key("p"@, pid, ".n"@), decimal(row.samples as nat)),
    ).push(
        (path_key("p"@, pid, ".alpha"@), c.alpha@),
    ).push(
        (path_key("p"@, pid, ".pacing_mbps"@), c.pacing_mbps@),
    ).push(
        (path_key("p"@, pid, ".delivered_mbps"@), c.mbps@),
    ).push(
        (path_key("p"@, pid, ".sent_per_sec"@), "0"@),
    ).push(
        (path_key("p"@, pid, ".traffic_share_pct"@), c.share_pct@),
    ).push(
        (path_key("p"@, pid, ".bif_kb"@), c.bif_kb@),
    ).push(
        (path_key("p"@, pid, ".cwnd_kb"@), c.cwnd_kb_fine@),
    ).push(
        (path_key("p"@, pid, ".sent"@), decimal(row.stats.sent as nat)),
    ).push(
        (path_key("p"@, pid, ".lost"@), decimal(row.stats.lost as nat)),
    )
}

fn put_model_fields(f: &mut Fields, row: &LinUcbRow, c: &LinUcbCells)
    ensures
        final(f)@ == model_fields(old(f)@, *row, *c),
{
    let pid: usize = row.stats.pid;
    f.put(make_path_key("p", pid, ".pct"), c.pct.clone());
    f.put(make_path_key("p", pid, ".rtt_us"), c.rtt_us.clone());
    f.put(make_path_key("p", pid, ".rtt_ms"), c.rtt_ms.clone());
    f.put(make_path_key("p", pid, ".reward"), c.reward.clone());
    f.put(make_path_key("p", pid, ".bonus"), c.bonus.clone());
    f.put(make_path_key("p", pid, ".ucb_total"), c.ucb_total.clone());
    f.put(make_path_key("p", pid, ".explore_ratio"), c.explore_ratio.clone());
    f.put(make_path_key("p", pid, ".a_trace"), c.a_trace.clone());
    f.put(make_path_key("p", pid, ".forget_count"), String::from_str("0"));
    f.put(make_path_key("p", pid, ".n"), decimal_string(row.samples));
    f.put(make_path_key("p", pid, ".alpha"), c.alpha.clone());
    f.put(make_path_key("p", pid, ".pacing_mbps"), c.pacing_mbps.clone());
    f.put(make_path_key("p", pid, ".delivered_mbps"), c.mbps.clone());
    f.put(make_path_key("p", pid, ".sent_per_sec"), String::from_str("0"));
    f.put(make_path_key("p", pid, ".traffic_share_pct"), c.share_pct.clone());
    f.put(make_path_key("p", pid, ".bif_kb"), c.bif_kb.clone());
    f.put(make_path_key("p", pid, ".cwnd_kb"), c.cwnd_kb_fine.clone());
    f.put(make_path_key("p", pid, ".sent"), decimal_string(row.stats.sent));
    f.put(make_path_key("p", pid, ".lost"), decimal_string(row.stats.lost));
}

/// The features of a path, under their second names.
pub open spec fn input_fields(
    head: Seq<(Seq<char>, Seq<char>)>,
    row: LinUcbRow,
    c: LinUcbCells,
) -> Seq<(Seq<char>, Seq<char>)> {
    let pid = row.stats.pid as nat;
    head.push(
        (path_key("p"@, pid, ".x_rtt_norm"@), c.rtt_norm@),
    ).push(
        (path_key("p"@, pid, ".x_cwnd_p"@), c.cwnd_p@),
    ).push(
        (path_key("p"@, pid, ".x_loss_rate"@), c.loss_rate@),
    ).push(
        (path_key("p"@, pid, ".x_bw_norm"@), c.bw_norm@),
    ).push(
        (path_key("p"@, pid, ".x_bias"@), "1.0000"@),
    ).push(
        (path_key("p"@, pid, ".th_rtt_norm"@), c.w_latency@),
    ).push(
        (path_key("p"@, pid, ".th_cwnd_p"@), c.w_headroom@),
    ).push(
        (path_key("p"@, pid, ".th_loss_rate"@), c.w_reliability@),
    ).push(
        (path_key("p"@, pid, ".th_bw_norm"@), c.w_pacing@),
    ).push(
        (path_key("p"@, pid, ".th_bias"@), c.w_bias@),
    )
}

fn put_input_fields(f: &mut Fields, row: &LinUcbRow, c: &LinUcbCells)
    ensures
        final(f)@ == input_fields(old(f)@, *row, *c),
{
    let pid: usize = row.stats.pid;
    f.put(make_path_key("p", pid, ".x_rtt_norm"), c.rtt_norm.clone());
    f.put(make_path_key("p", pid, ".x_cwnd_p"), c.cwnd_p.clone());
    f.put(make_path_key("p", pid, ".x_loss_rate"), c.loss_rate.clone());
    f.put(make_path_key("p", pid, ".x_bw_norm"), c.bw_norm.clone());
    f.put(make_path_key("p", pid, ".x_bias"), String::from_str("1.0000"));
    f.put(make_path_key("p", pid, ".th_rtt_norm"), c.w_latency.clone());
    f.put(make_path_key("p", pid, ".th_cwnd_p"), c.w_headroom.clone());
    f.put(make_path_key("p", pid, ".th_loss_rate"), c.w_reliability.clone());
    f.put(make_path_key("p", pid, ".th_bw_norm"), c.w_pacing.clone());
    f.put(make_path_key("p", pid, ".th_bias"), c.w_bias.clone());
}

/// The features and the learned weights of a path.
pub open spec fn weight_fields(
    head: Seq<(Seq<char>, Seq<char>)>,
    row: LinUcbRow,
    c: LinUcbCells,
) -> Seq<(Seq<char>, Seq<char>)> {
    let pid = row.stats.pid as nat;
    head.push(
        (path_key("features/path"@, pid, "_latency_score"@), c.x_latency@),
    ).push(
        (path_key("features/path"@, pid, "_cwnd_headroom"@), c.x_headroom@),
    ).push(
        (path_key("features/path"@, pid, "_reliability_score"@), c.x_reliability@),
    ).push(
        (path_key("features/path"@, pid, "_relative_pacing_score"@), c.x_pacing@),
    ).push(
        (path_key("features/path"@, pid, "_bias"@), c.x_bias@),
    ).push(
        (path_key("weights/path"@, pid, "_latency_score"@), c.w_latency@),
    ).push(
        (path_key("weights/path"@, pid, "_cwnd_headroom"@), c.w_headroom@),
    ).push(
        (path_key("weights/path"@, pid, "_reliability_score"@), c.w_reliability@),
    ).push(
        (path_key("weights/path"@, pid, "_relative_pacing_score"@), c.w_pacing@),
    ).push(
        (path_key("weights/path"@, pid, "_bias"@), c.w_bias@),
    )
}

fn put_weight_fields(f: &mut Fields, row: &LinUcbRow, c: &LinUcbCells)
    ensures
        final(f)@ == weight_fields(old(f)@, *row, *c),
{
    let pid: usize = row.stats.pid;
    f.put(make_path_key("features/path", pid, "_latency_score"), c.x_latency.clone());
    f.put(make_path_key("features/path", pid, "_cwnd_headroom"), c.x_headroom.clone());
    f.put(make_path_key("features/path", pid, "_reliability_score"), c.x_reliability.clone());
    f.put(make_path_key("features/path", pid, "_relative_pacing_score"), c.x_pacing.clone());
    f.put(make_path_key("features/path", pid, "_bias"), c.x_bias.clone());
    f.put(make_path_key("weights/path", pid, "_latency_score"), c.w_latency.clone());
    f.put(make_path_key("weights/path", pid, "_cwnd_headroom"), c.w_headroom.clone());
    f.put(make_path_key("weights/path", pid, "_reliability_score"), c.w_reliability.clone());
    f.put(make_path_key("weights/path", pid, "_relative_pacing_score"), c.w_pacing.clone());
    f.put(make_path_key("weights/path", pid, "_bias"), c.w_bias.clone());
}

/// All fields of a path, behind those in `head`.
#[verifier::opaque]
pub open spec fn linucb_fields(
    head: Seq<(Seq<char>, Seq<char>)>,
    row: LinUcbRow,
    c: LinUcbCells,
) -> Seq<(Seq<char>, Seq<char>)> {
    weight_fields(input_fields(model_fields(network_fields(head, row, c), row, c), row, c), row, c)
}

fn put_fields(f: &mut Fields, row: &LinUcbRow, c: &LinUcbCells)
    ensures
        final(f)@ == linucb_fields(old(f)@, *row, *c),
{
    put_network_fields(f, row, c);
    put_model_fields(f, row, c);
    put_input_fields(f, row, c);
    put_weight_fields(f, row, c);
    proof {
        reveal(linucb_fields);
    }
}

/// The fields of a record.
pub open spec fn linucb_record_fields(
    head: Seq<(Seq<char>, Seq<char>)>,
    rows: Seq<LinUcbRow>,
    cells: Seq<LinUcbCells>,
) -> Seq<(Seq<char>, Seq<char>)>
    decreases rows.len(),
{
    if rows.len() == 0 || cells.len() == 0 {
        head
    } else {
        linucb_fields(
            linucb_record_fields(head, rows.drop_last(), cells.drop_last()),
            rows.last(),
            cells.last(),
        )
    }
}

impl LinUcbRecord {
    /// The metrics line of the record, given the rendered values of each row.
    pub fn line(&self, cells: &Vec<LinUcbCells>) -> (r: String)
        requires
            cells@.len() == self.rows@.len(),
        ensures
            r@ == json_line(
                linucb_record_fields(
                    step_fields(self@.step, self@.timestamp, self@.elapsed_s),
                    self.rows@,
                    cells@,
                ),
            ),
    {
        let mut f = make_step_fields(self.step, self.timestamp, self.elapsed_s);
        let ghost head = f@;
        let mut i: usize = 0;
        while i < self.rows.len()
            invariant
                i <= self.rows@.len() == cells@.len(),
                f@ == linucb_record_fields(
                    head,
                    self.rows@.subrange(0, i as int),
                    cells@.subrange(0, i as int),
                ),
            decreases self.rows@.len() - i,
        {
            proof {
                let rows = self.rows@.subrange(0, i + 1);
                let cs = cells@.subrange(0, i + 1);
                assert(rows.drop_last() =~= self.rows@.subrange(0, i as int));
                assert(cs.drop_last() =~= cells@.subrange(0, i as int));
            }
            put_fields(&mut f, &self.rows[i], &cells[i]);
            i += 1;
        }
        assert(self.rows@.subrange(0, i as int) =~= self.rows@);
        assert(cells@.subrange(0, i as int) =~= cells@);
        f.line()
    }
}

// ───────────────────────────── summary ─────────────────────────────

/// The estimate and the exploration bonus of a path's model for a neutral
/// context, rendered.
pub struct ModelText {
    pub estimate: String,
    pub bonus: String,
}

/// How the model of a path stands in the summary.
pub open spec fn model_text(t: Option<ModelText>, samples: nat) -> Seq<char> {
    match t {
        Some(t) => t.estimate@ + "  explore_bonus="@ + t.bonus@ + " (n="@ + decimal(samples)
            + ")"@,
        None => "n/a"@ + "  explore_bonus="@ + "n/a"@,
    }
}

/// The model of a path, where it is given.
pub open spec fn model_at(models: Seq<Option<ModelText>>, pid: int) -> Option<ModelText> {
    if 0 <= pid < models.len() {
        models[pid]
    } else {
        None
    }
}

/// The line of one path in the summary.
pub open spec fn path_total_text(
    m: LinUcbModel,
    models: Seq<Option<ModelText>>,
    pid: int,
) -> Seq<char> {
    let cnt = m.total_counts[pid];
    "    path["@ + decimal(pid as nat) + "] "@ + addr_or_unknown(m.path_addrs, pid)
        + "  selections="@ + decimal(cnt as nat) + " ("@ + decimal(
        (cnt as nat * 100) / m.total_selections,
    ) + "%)  est(neutral)="@ + model_text(model_at(models, pid), cnt as nat) + "\n"@
}

/// The lines of the selected paths among the first `n`.
pub open spec fn path_totals_text(
    m: LinUcbModel,
    models: Seq<Option<ModelText>>,
    n: nat,
) -> Seq<char>
    decreases n,
{
    if n == 0 {
        Seq::empty()
    } else if m.total_counts[n - 1] == 0 {
        path_totals_text(m, models, (n - 1) as nat)
    } else {
        path_totals_text(m, models, (n - 1) as nat) + path_total_text(m, models, n - 1)
    }
}

/// How many of the counts are not zero.
pub open spec fn nonzero(s: Seq<u64>) -> nat
    decreases s.len(),
{
    if s.len() == 0 {
        0
    } else if s.last() > 0 {
        nonzero(s.drop_last()) + 1
    } else {
        nonzero(s.drop_last())
    }
}

/// The texts, each with a line end.
pub open spec fn lines_text(s: Seq<Seq<char>>) -> Seq<char>
    decreases s.len(),
{
    if s.len() == 0 {
        Seq::empty()
    } else {
        lines_text(s.drop_last()) + (s.last() + "\n"@)
    }
}

/// The summary.
pub open spec fn linucb_summary(m: LinUcbModel, models: Seq<Option<ModelText>>) -> Seq<char> {
    let head = "LinUCB scheduler summary  ("@ + decimal(m.total_selections)
        + " total selections over "@ + decimal(nonzero(m.total_counts)) + " arms)\n"@
        + "  Path totals:\n"@ + path_totals_text(m, models, m.total_counts.len());
    if m.snapshots.len() == 0 {
        head
    } else {
        head + "  Per-second breakdown:\n"@ + lines_text(m.snapshots)
    }
}

fn count_nonzero(v: &Vec<u64>) -> (n: u64)
    ensures
        n == nonzero(v@),
{
    let mut n: u64 = 0;
    let mut i: usize = 0;
    assert(v@.subrange(0, 0) =~= Seq::<u64>::empty());
    while i < v.len()
        invariant
            i <= v@.len(),
            n == nonzero(v@.subrange(0, i as int)),
            n <= i,
        decreases v@.len() - i,
    {
        assert(v@.subrange(0, i + 1).drop_last() =~= v@.subrange(0, i as int));
        if v[i] > 0 {
            n += 1;
        }
        i += 1;
    }
    assert(v@.subrange(0, i as int) =~= v@);
    n
}

/// Each text with a line end.
pub fn lines_string(v: &Vec<String>) -> (r: String)
    ensures
        r@ == lines_text(texts(v@)),
{
    let mut r = String::new();
    let ghost all = texts(v@);
    let mut i: usize = 0;
    assert(all.subrange(0, 0) =~= Seq::<Seq<char>>::empty());
    assert(r@ =~= lines_text(all.subrange(0, 0)));
    while i < v.len()
        invariant
            i <= v@.len() == all.len(),
            all == texts(v@),
            r@ == lines_text(all.subrange(0, i as int)),
        decreases v@.len() - i,
    {
        let ghost before = r@;
        proof {
            assert(all.subrange(0, i + 1).drop_last() =~= all.subrange(0, i as int));
        }
        r.append(v[i].as_str());
        r.append("\n");
        assert(r@ =~= before + (v@[i as int]@ + "\n"@));
        i += 1;
    }
    assert(all.subrange(0, i as int) =~= all);
    r
}

impl LinUCBScheduler {
    fn path_total(&self, models: &Vec<Option<ModelText>>, pid: usize) -> (s: String)
        requires
            pid < self.total_counts@.len(),
            self.total_selections > 0,
            self.total_counts@[pid as int] <= u64::MAX / 100,
        ensures
            s@ == path_total_text(self@, models@, pid as int),
    {
        let cnt: u64 = self.total_counts[pid];
        let mut s = String::from_str("    path[");
        push_decimal(&mut s, pid as u64);
        s.append("] ");
        let addr = addr_string(&self.path_addrs, pid);
        s.append(addr.as_str());
        s.append("  selections=");
        push_decimal(&mut s, cnt);
        s.append(" (");
        push_decimal(&mut s, cnt * 100 / self.total_selections);
        s.append("%)  est(neutral)=");
        let mut t = String::from_str("n/a");
        let mut known = false;
        if pid < models.len() {
            if let Some(m) = &models[pid] {
                t = m.estimate.clone();
                t.append("  explore_bonus=");
                t.append(m.bonus.as_str());
                t.append(" (n=");
                push_decimal(&mut t, cnt);
                t.append(")");
                known = true;
            }
        }
        if !known {
            t.append("  explore_bonus=");
            t.append("n/a");
        }
        s.append(t.as_str());
        s.append("\n");
        s
    }

    /// The summary of the run, given the rendered model of each path; `None`
    /// where nothing was selected.
    pub fn scheduler_summary(&self, models: &Vec<Option<ModelText>>) -> (r: Option<String>)
        requires
            forall|i: int|
                0 <= i < self.total_counts@.len() ==> (#[trigger] self.total_counts@[i])
                    <= u64::MAX / 100,
        ensures
            match r {
                Some(s) => self.total_selections > 0 && s@ == linucb_summary(self@, models@),
                None => self.total_selections == 0,
            },
    {
        if self.total_selections == 0 {
            return None;
        }
        let mut out = String::from_str("LinUCB scheduler summary  (");
        push_decimal(&mut out, self.total_selections);
        out.append(" total selections over ");
        push_decimal(&mut out, count_nonzero(&self.total_counts));
        out.append(" arms)\n");
        out.append("  Path totals:\n");
        let mut totals = String::new();
        let mut i: usize = 0;
        assert(totals@ =~= path_totals_text(self@, models@, 0));
        while i < self.total_counts.len()
            invariant
                i <= self.total_counts@.len(),
                self.total_selections > 0,
                forall|j: int|
                    0 <= j < self.total_counts@.len() ==> (#[trigger] self.total_counts@[j])
                        <= u64::MAX / 100,
                totals@ == path_totals_text(self@, models@, i as nat),
            decreases self.total_counts@.len() - i,
        {
            if self.total_counts[i] != 0 {
                let line = self.path_total(models, i);
                totals.append(line.as_str());
            }
            i += 1;
        }
        out.append(totals.as_str());
        if self.snapshots.len() > 0 {
            out.append("  Per-second breakdown:\n");
            let lines = lines_string(&self.snapshots);
            out.append(lines.as_str());
        }
        Some(out)
    }
}

} // verus!
