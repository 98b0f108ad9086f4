//! The epsilon-greedy scheduler: an online contextual bandit over the paths.
//!
//! A decision computes a context for every path that can send, selects one with
//! epsilon-greedy, and keeps the context as a pending decision. Feedback only
//! consumes counter differences; a closed feedback window turns them into a
//! reward, with which the linear model of the path is trained on the average of
//! its pending contexts.
//!
//! The bookkeeping is here. The linear model computes in doubles and is kept by
//! the caller, together with the smoothed loss and the sums of contexts.

use crate::clock::{elapsed, elapsed_ns, elapsed_secs, is_second_passed, second_passed, UNIX_LIMIT};
use crate::counts::{at_least_one, risen};
use crate::dense::{
    at, clear_counts, get, lemma_entry_at_most_total, lemma_total_placed, lemma_total_zeros,
    placed, put, total, zeros,
};
use crate::json_line::{json_line, Fields};
use crate::numerals::{decimal, decimal_string, push_decimal};
use crate::paths::{index_of, ordered, sendable, Error, Path, PathMap};
use crate::random::random_index;
use crate::scores::{
    full, full_score, no_score, none, rest, rest_of, share, share_falls_with_denominator,
    share_grows_with_numerator, share_of, Score,
};
use crate::traffic_metrics::{
    make_path_key, make_step_fields, path_key, recorded, step_fields, TrafficMetricsCollector,
    TrafficModel,
};
use vstd::prelude::*;
use vstd::string::StringExecFns;

verus! {

/// Every path gets this many selections before the predictions count.
pub const WARMUP_SELECTIONS_PER_PATH: u64 = 5;

/// A feedback window closes after this many outcomes on its path.
pub const FEEDBACK_WINDOW_OUTCOMES: u64 = 32;

/// A feedback window that is not empty closes after this long.
pub const FEEDBACK_WINDOW_DURATION: u64 = 250_000_000;

/// A decision without feedback for longer than this is trained once with no reward.
pub const STALE_DECISION_TIMEOUT: u64 = 1_000_000_000;

// ───────────────────────────── contexts and rewards ─────────────────────────────

/// The score, at least one quarter.
pub open spec fn at_least_quarter(s: Score) -> Score {
    if s.num * 4 < s.den {
        share(1, 4)
    } else {
        s
    }
}

fn floor_quarter(s: Score) -> (r: Score)
    ensures
        r == at_least_quarter(s),
{
    if (s.num as u128) * 4 < s.den as u128 {
        share_of(1, 4)
    } else {
        s
    }
}

/// The latency score of a reward: a base round-trip time over the present one, at
/// least one quarter.
pub open spec fn latency_score(rtt_ns: u64, base_rtt_ns: u64) -> Score {
    if rtt_ns > 0 && base_rtt_ns > 0 {
        at_least_quarter(share(base_rtt_ns, rtt_ns))
    } else {
        full()
    }
}

fn make_latency_score(rtt_ns: u64, base_rtt_ns: u64) -> (r: Score)
    ensures
        r == latency_score(rtt_ns, base_rtt_ns),
{
    if rtt_ns > 0 && base_rtt_ns > 0 {
        floor_quarter(share_of(base_rtt_ns, rtt_ns))
    } else {
        full_score()
    }
}

/// The features of a path at a decision, beside its smoothed reliability and a
/// constant bias of 1. Higher is better for each.
#[derive(Debug, Clone, Copy, PartialEq, Eq, Structural)]
pub struct GreedyContext {
    pub latency: Score,
    pub cwnd_headroom: Score,
    pub relative_pacing: Score,
}

/// The features of a path.
pub open spec fn greedy_context(
    rtt_ns: u64,
    min_rtt_ns: u64,
    bytes_in_flight: u64,
    cwnd: u64,
    pacing: u64,
    max_pacing: u64,
) -> GreedyContext {
    GreedyContext {
        latency: if rtt_ns > 0 && min_rtt_ns > 0 {
            share(min_rtt_ns, rtt_ns)
        } else {
            full()
        },
        cwnd_headroom: if cwnd > 0 {
            rest(bytes_in_flight, cwnd)
        } else {
            rest(1, 1)
        },
        relative_pacing: if max_pacing > 0 {
            share(pacing, max_pacing)
        } else {
            none()
        },
    }
}

/// The features of a path.
pub fn make_context(
    rtt_ns: u64,
    min_rtt_ns: u64,
    bytes_in_flight: usize,
    cwnd: u64,
    pacing: u64,
    max_pacing: u64,
) -> (r: GreedyContext)
    ensures
        r == greedy_context(rtt_ns, min_rtt_ns, bytes_in_flight as u64, cwnd, pacing, max_pacing),
{
    GreedyContext {
        latency: if rtt_ns > 0 && min_rtt_ns > 0 {
            share_of(min_rtt_ns, rtt_ns)
        } else {
            full_score()
        },
        cwnd_headroom: if cwnd > 0 {
            rest_of(bytes_in_flight as u64, cwnd)
        } else {
            rest_of(1, 1)
        },
        relative_pacing: if max_pacing > 0 {
            share_of(pacing, max_pacing)
        } else {
            no_score()
        },
    }
}

/// Contexts have the expected direction: a path with no higher round-trip time,
/// no more bytes in flight and no lower pacing rate scores at least as high in
/// every feature.
pub proof fn context_has_expected_direction(
    fast_rtt: u64,
    slow_rtt: u64,
    min_rtt: u64,
    low_bif: u64,
    high_bif: u64,
    cwnd: u64,
    low_pacing: u64,
    high_pacing: u64,
    max_pacing: u64,
)
    requires
        0 < fast_rtt <= slow_rtt,
        low_bif <= high_bif,
        low_pacing <= high_pacing,
    ensures
        ({
            let fast = greedy_context(fast_rtt, min_rtt, low_bif, cwnd, high_pacing, max_pacing);
            let slow = greedy_context(slow_rtt, min_rtt, high_bif, cwnd, low_pacing, max_pacing);
            &&& slow.latency.le(fast.latency)
            &&& slow.cwnd_headroom.le(fast.cwnd_headroom)
            &&& slow.relative_pacing.le(fast.relative_pacing)
        }),
{
    if min_rtt > 0 {
        share_falls_with_denominator(min_rtt, fast_rtt, slow_rtt);
    }
    if cwnd > 0 {
        share_grows_with_numerator(low_bif, high_bif, cwnd);
    }
    if max_pacing > 0 {
        share_grows_with_numerator(low_pacing, high_pacing, max_pacing);
    }
}

/// What the reward of a closed feedback window is made of:
///
/// `0.45 · delivery · served + 0.25 · exp(−20 · loss) + 0.20 · latency + 0.10 · queue`
///
/// where `served` is the served rate over `baseline`, at most 1 (and 1 without a
/// baseline), and `queue` is 1 less the square of the saturation (and 0 without a
/// congestion window).
#[derive(Debug, Clone, Copy, PartialEq, Eq, Structural)]
pub struct GreedyReward {
    /// Lost packets over all outcomes.
    pub loss: Score,
    /// Acknowledged over sent bytes.
    pub delivery: Score,
    pub sent_bytes: u64,
    /// How long the window was open, in nanoseconds.
    pub window_ns: u64,
    /// The larger of the pacing rates, in bytes per second.
    pub baseline: u64,
    pub latency: Score,
    /// Bytes in flight over the congestion window.
    pub saturation: Option<Score>,
}

/// Packet and byte counters of a path.
#[derive(Debug, Clone, Copy, PartialEq, Eq, Structural)]
pub struct Counters {
    pub acked_pkts: u64,
    pub lost_pkts: u64,
    pub sent_bytes: u64,
    pub acked_bytes: u64,
    pub lost_bytes: u64,
}

/// The sum, or the largest number where it does not fit.
pub open spec fn capped_sum(a: u64, b: u64) -> u64 {
    if a + b <= u64::MAX {
        (a + b) as u64
    } else {
        u64::MAX
    }
}

impl Counters {
    /// No packets and no bytes.
    pub open spec fn zero() -> Counters {
        Counters { acked_pkts: 0, lost_pkts: 0, sent_bytes: 0, acked_bytes: 0, lost_bytes: 0 }
    }

    /// Acknowledged and lost packets.
    pub open spec fn outcomes(self) -> u64 {
        capped_sum(self.acked_pkts, self.lost_pkts)
    }

    /// What was added since `before`.
    pub open spec fn since(self, before: Counters) -> Counters {
        Counters {
            acked_pkts: risen(self.acked_pkts, before.acked_pkts),
            lost_pkts: risen(self.lost_pkts, before.lost_pkts),
            sent_bytes: risen(self.sent_bytes, before.sent_bytes),
            acked_bytes: risen(self.acked_bytes, before.acked_bytes),
            lost_bytes: risen(self.lost_bytes, before.lost_bytes),
        }
    }

    /// Both together.
    pub open spec fn plus(self, other: Counters) -> Counters {
        Counters {
            acked_pkts: capped_sum(self.acked_pkts, other.acked_pkts),
            lost_pkts: capped_sum(self.lost_pkts, other.lost_pkts),
            sent_bytes: capped_sum(self.sent_bytes, other.sent_bytes),
            acked_bytes: capped_sum(self.acked_bytes, other.acked_bytes),
            lost_bytes: capped_sum(self.lost_bytes, other.lost_bytes),
        }
    }

    fn none() -> (r: Counters)
        ensures
            r == Counters::zero(),
    {
        Counters { acked_pkts: 0, lost_pkts: 0, sent_bytes: 0, acked_bytes: 0, lost_bytes: 0 }
    }

    fn count_outcomes(&self) -> (r: u64)
        ensures
            r == self.outcomes(),
    {
        self.acked_pkts.saturating_add(self.lost_pkts)
    }

    fn difference(&self, before: &Counters) -> (r: Counters)
        ensures
            r == self.since(*before),
    {
        Counters {
            acked_pkts: self.acked_pkts.saturating_sub(before.acked_pkts),
            lost_pkts: self.lost_pkts.saturating_sub(before.lost_pkts),
            sent_bytes: self.sent_bytes.saturating_sub(before.sent_bytes),
            acked_bytes: self.acked_bytes.saturating_sub(before.acked_bytes),
            lost_bytes: self.lost_bytes.saturating_sub(before.lost_bytes),
        }
    }

    fn together(&self, other: &Counters) -> (r: Counters)
        ensures
            r == self.plus(*other),
    {
        Counters {
            acked_pkts: self.acked_pkts.saturating_add(other.acked_pkts),
            lost_pkts: self.lost_pkts.saturating_add(other.lost_pkts),
            sent_bytes: self.sent_bytes.saturating_add(other.sent_bytes),
            acked_bytes: self.acked_bytes.saturating_add(other.acked_bytes),
            lost_bytes: self.lost_bytes.saturating_add(other.lost_bytes),
        }
    }
}

/// The reward of a window. A window without outcomes, or in which nothing was
/// sent, has none.
pub open spec fn greedy_reward(
    window: Counters,
    window_ns: u64,
    rtt_ns: u64,
    base_rtt_ns: u64,
    pacing: u64,
    max_pacing: u64,
    bytes_in_flight: u64,
    cwnd: u64,
) -> Option<GreedyReward> {
    if window.outcomes() == 0 || window.sent_bytes == 0 {
        None
    } else {
        Some(
            GreedyReward {
                loss: share(window.lost_pkts, window.outcomes()),
                delivery: share(window.acked_bytes, window.sent_bytes),
                sent_bytes: window.sent_bytes,
                window_ns,
                baseline: if max_pacing >= pacing {
                    max_pacing
                } else {
                    pacing
                },
                latency: latency_score(rtt_ns, base_rtt_ns),
                saturation: if cwnd > 0 {
                    Some(share(bytes_in_flight, cwnd))
                } else {
                    None
                },
            },
        )
    }
}

/// The parts of the reward of a window.
pub fn observed_reward(
    window: &Counters,
    window_ns: u64,
    rtt_ns: u64,
    base_rtt_ns: u64,
    pacing: u64,
    max_pacing: u64,
    bytes_in_flight: usize,
    cwnd: u64,
) -> (r: Option<GreedyReward>)
    ensures
        r == greedy_reward(
            *window,
            window_ns,
            rtt_ns,
            base_rtt_ns,
            pacing,
            max_pacing,
            bytes_in_flight as u64,
            cwnd,
        ),
{
    let outcomes: u64 = window.count_outcomes();
    if outcomes == 0 || window.sent_bytes == 0 {
        return None;
    }
    Some(
        GreedyReward {
            loss: share_of(window.lost_pkts, outcomes),
            delivery: share_of(window.acked_bytes, window.sent_bytes),
            sent_bytes: window.sent_bytes,
            window_ns,
            baseline: if max_pacing >= pacing {
                max_pacing
            } else {
                pacing
            },
            latency: make_latency_score(rtt_ns, base_rtt_ns),
            saturation: if cwnd > 0 {
                Some(share_of(bytes_in_flight as u64, cwnd))
            } else {
                None
            },
        },
    )
}

// ───────────────────────────── arms ─────────────────────────────

/// The bookkeeping of one path. Times are in nanoseconds.
#[derive(Debug, Clone, Copy)]
pub struct ArmState {
    /// Model updates.
    pub samples: u64,
    pub selections: u64,
    /// Decisions since the last update.
    pub pending_decisions: u64,
    /// When the first of them was taken.
    pub pending_since: Option<u64>,
    /// The counters were observed before.
    pub counters_initialized: bool,
    /// The counters at the last feedback.
    pub prev: Counters,
    /// What was added in the feedback window.
    pub window: Counters,
    pub window_start: Option<u64>,
    /// The smallest round-trip time observed, or 0.
    pub base_rtt_ns: u64,
    /// The smoothed loss has a first value.
    pub loss_ewma_init: bool,
}

/// An arm that was never selected.
pub open spec fn new_arm() -> ArmState {
    ArmState {
        samples: 0,
        selections: 0,
        pending_decisions: 0,
        pending_since: None,
        counters_initialized: false,
        prev: Counters::zero(),
        window: Counters::zero(),
        window_start: None,
        base_rtt_ns: 0,
        loss_ewma_init: false,
    }
}

/// A pending time is kept exactly while decisions are pending.
pub open spec fn arm_ok(a: ArmState) -> bool {
    a.pending_since is Some <==> a.pending_decisions > 0
}

/// The arm after a selection.
pub open spec fn pushed(a: ArmState, now: u64) -> ArmState {
    ArmState {
        pending_since: match a.pending_since {
            Some(t) => Some(t),
            None => Some(now),
        },
        pending_decisions: (a.pending_decisions + 1) as u64,
        selections: (a.selections + 1) as u64,
        ..a
    }
}

/// The arm without its pending decisions.
pub open spec fn released(a: ArmState) -> ArmState {
    if a.pending_decisions == 0 {
        a
    } else {
        ArmState { pending_decisions: 0, pending_since: None, ..a }
    }
}

/// The arm with a new feedback window.
pub open spec fn window_reset(a: ArmState, now: u64) -> ArmState {
    ArmState { window: Counters::zero(), window_start: Some(now), ..a }
}

/// How a new loss observation enters the smoothed loss.
#[derive(Debug, Clone, Copy, PartialEq, Eq, Structural)]
pub struct LossUpdate {
    /// Lost packets over all outcomes since the last feedback.
    pub loss: Score,
    /// The observation is the first, and replaces the smoothed loss.
    pub first: bool,
}

/// What a path is trained with: the average of its pending contexts, and a reward.
#[derive(Debug, Clone, Copy, PartialEq, Eq, Structural)]
pub struct Feedback {
    pub reward: GreedyReward,
    /// How many contexts are pending.
    pub decisions: u64,
}

/// The smaller of the base round-trip time, where there is one, and the present one.
pub open spec fn base_rtt(base: u64, rtt: u64) -> u64 {
    if base == 0 || rtt < base {
        rtt
    } else {
        base
    }
}

/// The arm once the differences were added to its window.
pub open spec fn fed(a: ArmState, now: u64, c: Counters, rtt_ns: u64) -> ArmState {
    ArmState {
        prev: c,
        base_rtt_ns: base_rtt(a.base_rtt_ns, rtt_ns),
        window_start: match a.window_start {
            Some(t) => Some(t),
            None => Some(now),
        },
        window: a.window.plus(c.since(a.prev)),
        loss_ewma_init: true,
        ..a
    }
}

/// How long the window of a fed arm has been open.
pub open spec fn window_age(a: ArmState, now: u64) -> u64 {
    match a.window_start {
        Some(t) => elapsed(t, now),
        None => 0,
    }
}

/// The window closes: it holds enough outcomes or is old enough.
pub open spec fn window_closes(a: ArmState, now: u64) -> bool {
    a.window.outcomes() >= FEEDBACK_WINDOW_OUTCOMES || window_age(a, now)
        >= FEEDBACK_WINDOW_DURATION
}

/// The reward of the window of a fed arm.
pub open spec fn window_reward(
    a: ArmState,
    now: u64,
    rtt_ns: u64,
    pacing: u64,
    max_pacing: u64,
    bytes_in_flight: u64,
    cwnd: u64,
) -> Option<GreedyReward> {
    greedy_reward(
        a.window,
        window_age(a, now),
        rtt_ns,
        a.base_rtt_ns,
        pacing,
        max_pacing,
        bytes_in_flight,
        cwnd,
    )
}

/// The arm after feedback, the observation of the loss, and what to train with.
pub open spec fn feedback(
    a: ArmState,
    now: u64,
    c: Counters,
    rtt_ns: u64,
    pacing: u64,
    max_pacing: u64,
    bytes_in_flight: u64,
    cwnd: u64,
) -> (ArmState, Option<LossUpdate>, Option<Feedback>) {
    let delta = c.since(a.prev);
    if !a.counters_initialized {
        (
            ArmState {
                prev: c,
                base_rtt_ns: base_rtt(a.base_rtt_ns, rtt_ns),
                counters_initialized: true,
                ..a
            },
            None,
            None,
        )
    } else if delta.outcomes() == 0 {
        (ArmState { prev: c, ..a }, None, None)
    } else {
        let loss = Some(
            LossUpdate {
                loss: share(delta.lost_pkts, delta.outcomes()),
                first: !a.loss_ewma_init,
            },
        );
        let b = fed(a, now, c, rtt_ns);
        let reward = window_reward(b, now, rtt_ns, pacing, max_pacing, bytes_in_flight, cwnd);
        if !window_closes(b, now) || reward is None {
            (b, loss, None)
        } else {
            (
                window_reset(released(b), now),
                loss,
                if b.pending_decisions == 0 {
                    None
                } else {
                    Some(Feedback { reward: reward.unwrap(), decisions: b.pending_decisions })
                },
            )
        }
    }
}

/// The first feedback only sets the counters: it observes no loss and trains
/// nothing, and the pending decisions stay.
pub proof fn first_feedback_only_sets_counters(
    a: ArmState,
    now: u64,
    c: Counters,
    rtt_ns: u64,
    pacing: u64,
    max_pacing: u64,
    bytes_in_flight: u64,
    cwnd: u64,
)
    requires
        !a.counters_initialized,
    ensures
        ({
            let (b, loss, f) = feedback(
                a,
                now,
                c,
                rtt_ns,
                pacing,
                max_pacing,
                bytes_in_flight,
                cwnd,
            );
            &&& loss is None && f is None
            &&& b.counters_initialized && b.prev == c
            &&& b.pending_decisions == a.pending_decisions
            &&& b.pending_since == a.pending_since
            &&& b.window == a.window
        }),
{
}

/// Feedback that gives no reward keeps the pending decisions and the window.
pub proof fn invalid_reward_keeps_pending(
    a: ArmState,
    now: u64,
    c: Counters,
    rtt_ns: u64,
    pacing: u64,
    max_pacing: u64,
    bytes_in_flight: u64,
    cwnd: u64,
)
    requires
        a.counters_initialized,
        a.window.sent_bytes == 0,
        c.sent_bytes <= a.prev.sent_bytes,
    ensures
        ({
            let (b, loss, f) = feedback(
                a,
                now,
                c,
                rtt_ns,
                pacing,
                max_pacing,
                bytes_in_flight,
                cwnd,
            );
            &&& f is None
            &&& b.pending_decisions == a.pending_decisions
            &&& b.pending_since == a.pending_since
            &&& b.window.outcomes() >= a.window.outcomes()
        }),
{
}

/// Feedback that trains consumes all pending decisions, so that none is trained
/// twice, and begins a new window.
pub proof fn feedback_consumes_decisions(
    a: ArmState,
    now: u64,
    c: Counters,
    rtt_ns: u64,
    pacing: u64,
    max_pacing: u64,
    bytes_in_flight: u64,
    cwnd: u64,
)
    ensures
        ({
            let (b, loss, f) = feedback(
                a,
                now,
                c,
                rtt_ns,
                pacing,
                max_pacing,
                bytes_in_flight,
                cwnd,
            );
            &&& f matches Some(t) ==> t.decisions == a.pending_decisions && b.pending_decisions == 0
                && b.window == Counters::zero()
            &&& arm_ok(a) ==> arm_ok(b)
        }),
{
}

impl ArmState {
    /// An arm that was never selected.
    pub fn new() -> (r: Self)
        ensures
            r == new_arm(),
            arm_ok(r),
    {
        ArmState {
            samples: 0,
            selections: 0,
            pending_decisions: 0,
            pending_since: None,
            counters_initialized: false,
            prev: Counters::none(),
            window: Counters::none(),
            window_start: None,
            base_rtt_ns: 0,
            loss_ewma_init: false,
        }
    }

    /// Adds a pending decision.
    pub fn push_pending_context(&mut self, now: u64)
        requires
            old(self).pending_decisions < u64::MAX,
            old(self).selections < u64::MAX,
        ensures
            *final(self) == pushed(*old(self), now),
    {
        if self.pending_since.is_none() {
            self.pending_since = Some(now);
        }
        self.pending_decisions += 1;
        self.selections += 1;
    }

    /// Takes the pending decisions away and returns how many there were.
    pub fn take_pending_context(&mut self) -> (r: Option<u64>)
        ensures
            *final(self) == released(*old(self)),
            r == if old(self).pending_decisions == 0 {
                None
            } else {
                Some(old(self).pending_decisions)
            },
    {
        if self.pending_decisions == 0 {
            return None;
        }
        let n: u64 = self.pending_decisions;
        self.pending_decisions = 0;
        self.pending_since = None;
        Some(n)
    }

    /// Begins a new feedback window.
    pub fn reset_feedback_window(&mut self, now: u64)
        ensures
            *final(self) == window_reset(*old(self), now),
    {
        self.window = Counters::none();
        self.window_start = Some(now);
    }
}

/// Takes the counters of a path in.
pub fn record_feedback_counters(
    arm: &mut ArmState,
    now: u64,
    counters: Counters,
    rtt_ns: u64,
    pacing: u64,
    max_pacing: u64,
    bytes_in_flight: usize,
    cwnd: u64,
) -> (r: (Option<LossUpdate>, Option<Feedback>))
    ensures
        (*final(arm), r.0, r.1) == feedback(
            *old(arm),
            now,
            counters,
            rtt_ns,
            pacing,
            max_pacing,
            bytes_in_flight as u64,
            cwnd,
        ),
{
    if !arm.counters_initialized {
        arm.prev = counters;
        if arm.base_rtt_ns == 0 || rtt_ns < arm.base_rtt_ns {
            arm.base_rtt_ns = rtt_ns;
        }
        arm.counters_initialized = true;
        return (None, None);
    }
    let delta = counters.difference(&arm.prev);
    arm.prev = counters;
    let delta_outcomes: u64 = delta.count_outcomes();
    if delta_outcomes == 0 {
        return (None, None);
    }
    if arm.base_rtt_ns == 0 || rtt_ns < arm.base_rtt_ns {
        arm.base_rtt_ns = rtt_ns;
    }
    let start: u64 = match arm.window_start {
        Some(t) => t,
        None => now,
    };
    arm.window_start = Some(start);
    arm.window = arm.window.together(&delta);
    let loss = Some(
        LossUpdate { loss: share_of(delta.lost_pkts, delta_outcomes), first: !arm.loss_ewma_init },
    );
    arm.loss_ewma_init = true;
    let age: u64 = elapsed_ns(start, now);
    if arm.window.count_outcomes() < FEEDBACK_WINDOW_OUTCOMES && age < FEEDBACK_WINDOW_DURATION {
        return (loss, None);
    }
    let reward = observed_reward(
        &arm.window,
        age,
        rtt_ns,
        arm.base_rtt_ns,
        pacing,
        max_pacing,
        bytes_in_flight,
        cwnd,
    );
    match reward {
        Some(reward) => {
            let taken = arm.take_pending_context();
            arm.reset_feedback_window(now);
            match taken {
                Some(decisions) => (loss, Some(Feedback { reward, decisions })),
                None => (loss, None),
            }
        },
        None => (loss, None),
    }
}

// ───────────────────────────── state ─────────────────────────────

/// What a selection record holds of one candidate.
#[derive(Debug, Clone, Copy)]
pub struct GreedyRow {
    pub pid: usize,
    pub context: GreedyContext,
    /// Selections of the path in the window.
    pub count: u64,
    /// Selections of all paths in the window.
    pub total: u64,
    pub arm: ArmState,
}

/// Why a model was updated.
#[derive(Debug, Clone, Copy, PartialEq, Eq, Structural)]
pub enum UpdateSource {
    /// Feedback closed the window.
    AckFeedback,
    /// A decision got no feedback in time.
    StaleTimeout,
}

/// What a record of the scheduler tells.
pub enum GreedyEvent {
    /// The candidates of a selection, once per second.
    Selection { selected: usize, rows: Vec<GreedyRow> },
    /// An update of the model of a path.
    Update { path_id: usize, arm: ArmState, source: UpdateSource },
}

/// A record of the scheduler.
pub struct GreedyRecord {
    pub step: u64,
    /// Unix time in seconds.
    pub timestamp: u64,
    /// Seconds since the scheduler was made.
    pub elapsed_s: u64,
    /// Model updates of all paths, from which the exploration rate follows.
    pub total_samples: u64,
    pub event: GreedyEvent,
}

/// [`GreedyEvent`] with the rows as a sequence.
pub enum GreedyEventModel {
    Selection { selected: usize, rows: Seq<GreedyRow> },
    Update { path_id: usize, arm: ArmState, source: UpdateSource },
}

/// [`GreedyRecord`] with the rows as a sequence.
pub struct GreedyRecordModel {
    pub step: nat,
    pub timestamp: nat,
    pub elapsed_s: nat,
    pub total_samples: nat,
    pub event: GreedyEventModel,
}

impl View for GreedyRecord {
    type V = GreedyRecordModel;

    open spec fn view(&self) -> GreedyRecordModel {
        GreedyRecordModel {
            step: self.step as nat,
            timestamp: self.timestamp as nat,
            elapsed_s: self.elapsed_s as nat,
            total_samples: self.total_samples as nat,
            event: match self.event {
                GreedyEvent::Selection { selected, rows } => GreedyEventModel::Selection {
                    selected,
                    rows: rows@,
                },
                GreedyEvent::Update { path_id, arm, source } => GreedyEventModel::Update {
                    path_id,
                    arm,
                    source,
                },
            },
        }
    }
}

/// The epsilon-greedy scheduler without its linear models.
pub struct EpsilonGreedyScheduler {
    pub arms: Vec<Option<ArmState>>,
    pub last_min_rtt_ns: u64,
    pub metrics: TrafficMetricsCollector,
    /// Selections by path since the last selection record.
    pub selection_window_counts: Vec<u64>,
    pub selection_window_total: u64,
    /// When the last selection record was taken.
    pub last_internal_log: Option<u64>,
    pub records: Vec<GreedyRecord>,
}

/// [`EpsilonGreedyScheduler`] with its tables as sequences.
#[verifier::ext_equal]
pub struct GreedyModel {
    pub arms: Seq<Option<ArmState>>,
    pub last_min_rtt_ns: u64,
    pub metrics: TrafficModel,
    pub counts: Seq<u64>,
    pub counts_total: nat,
    pub last_log: Option<u64>,
    pub records: Seq<GreedyRecordModel>,
}

impl View for EpsilonGreedyScheduler {
    type V = GreedyModel;

    open spec fn view(&self) -> GreedyModel {
        GreedyModel {
            arms: self.arms@,
            last_min_rtt_ns: self.last_min_rtt_ns,
            metrics: self.metrics@,
            counts: self.selection_window_counts@,
            counts_total: self.selection_window_total as nat,
            last_log: self.last_internal_log,
            records: self.records@.map_values(|r: GreedyRecord| r@),
        }
    }
}

/// The model updates of an arm.
pub open spec fn samples_of(a: Option<ArmState>) -> nat {
    match a {
        Some(a) => a.samples as nat,
        None => 0,
    }
}

/// The model updates of all arms.
pub open spec fn samples_total(arms: Seq<Option<ArmState>>) -> nat
    decreases arms.len(),
{
    if arms.len() == 0 {
        0
    } else {
        samples_total(arms.drop_last()) + samples_of(arms.last())
    }
}

proof fn lemma_samples_update(arms: Seq<Option<ArmState>>, i: int, a: Option<ArmState>)
    requires
        0 <= i < arms.len(),
    ensures
        samples_total(arms.update(i, a)) == samples_total(arms) - samples_of(arms[i])
            + samples_of(a),
    decreases arms.len(),
{
    let t = arms.update(i, a);
    if i == arms.len() - 1 {
        assert(t.drop_last() =~= arms.drop_last());
    } else {
        lemma_samples_update(arms.drop_last(), i, a);
        assert(t.drop_last() =~= arms.drop_last().update(i, a));
    }
}

proof fn lemma_samples_grown(arms: Seq<Option<ArmState>>, n: nat)
    ensures
        samples_total(arms + Seq::new(n, |i: int| None::<ArmState>)) == samples_total(arms),
    decreases n,
{
    let g = arms + Seq::new(n, |i: int| None::<ArmState>);
    if n == 0 {
        assert(g =~= arms);
    } else {
        lemma_samples_grown(arms, (n - 1) as nat);
        assert(g.drop_last() =~= arms + Seq::new((n - 1) as nat, |i: int| None::<ArmState>));
    }
}

/// Placing an arm changes the updates by the difference.
pub proof fn lemma_samples_placed(arms: Seq<Option<ArmState>>, i: int, a: Option<ArmState>)
    requires
        0 <= i,
    ensures
        samples_total(placed(arms, i, a, None)) == samples_total(arms) - samples_of(
            at(arms, i, None),
        ) + samples_of(a),
{
    if i < arms.len() {
        assert(placed(arms, i, a, None) =~= arms.update(i, a));
        lemma_samples_update(arms, i, a);
    } else {
        let n = (i + 1 - arms.len()) as nat;
        let g = arms + Seq::new(n, |i: int| None::<ArmState>);
        lemma_samples_grown(arms, n);
        assert(placed(arms, i, a, None) =~= g.update(i, a));
        lemma_samples_update(g, i, a);
    }
}

proof fn lemma_samples_at_most_total(arms: Seq<Option<ArmState>>, i: int)
    requires
        0 <= i < arms.len(),
    ensures
        samples_of(arms[i]) <= samples_total(arms),
    decreases arms.len(),
{
    if i < arms.len() - 1 {
        lemma_samples_at_most_total(arms.drop_last(), i);
    }
}

/// The record of an event.
pub open spec fn greedy_record(m: GreedyModel, now: u64, event: GreedyEventModel)
    -> GreedyRecordModel {
    let secs = elapsed_secs(m.metrics.start_time, now);
    GreedyRecordModel {
        step: m.records.len(),
        timestamp: (m.metrics.start_unix_secs + secs) as nat,
        elapsed_s: secs as nat,
        total_samples: samples_total(m.arms),
        event,
    }
}

/// The scheduler with a record of the event.
pub open spec fn logged(m: GreedyModel, now: u64, event: GreedyEventModel) -> GreedyModel {
    GreedyModel { records: m.records.push(greedy_record(m, now, event)), ..m }
}

// ───────────────────────────── stale decisions ─────────────────────────────

/// A decision of the arm is stale.
pub open spec fn arm_is_stale(a: ArmState, now: u64) -> bool {
    match a.pending_since {
        Some(t) => elapsed(t, now) > STALE_DECISION_TIMEOUT,
        None => false,
    }
}

/// A training with no reward.
#[derive(Debug, Clone, Copy, PartialEq, Eq, Structural)]
pub struct StaleTraining {
    pub path_id: usize,
    /// How many contexts are pending.
    pub decisions: u64,
    /// Model updates before this one.
    pub samples: u64,
}

/// The arm after a training.
pub open spec fn sampled(a: ArmState) -> ArmState {
    ArmState { samples: (a.samples + 1) as u64, ..a }
}

/// The scheduler once the stale decisions of the first `n` paths were trained.
pub open spec fn stale_trained(m: GreedyModel, now: u64, n: nat) -> GreedyModel
    decreases n,
{
    if n == 0 {
        m
    } else {
        let b = stale_trained(m, now, (n - 1) as nat);
        match at(m.arms, n - 1, None) {
            Some(a) if arm_is_stale(a, now) => if a.pending_decisions == 0 {
                GreedyModel { arms: b.arms.update(n - 1, Some(window_reset(a, now))), ..b }
            } else {
                let c = window_reset(sampled(released(a)), now);
                logged(
                    GreedyModel { arms: b.arms.update(n - 1, Some(c)), ..b },
                    now,
                    GreedyEventModel::Update {
                        path_id: (n - 1) as usize,
                        arm: c,
                        source: UpdateSource::StaleTimeout,
                    },
                )
            },
            _ => b,
        }
    }
}

/// The trainings of the stale decisions of the first `n` paths.
pub open spec fn stale_trainings(arms: Seq<Option<ArmState>>, now: u64, n: nat) -> Seq<
    StaleTraining,
>
    decreases n,
{
    if n == 0 {
        Seq::empty()
    } else {
        let before = stale_trainings(arms, now, (n - 1) as nat);
        match at(arms, n - 1, None) {
            Some(a) if arm_is_stale(a, now) && a.pending_decisions > 0 => before.push(
                StaleTraining {
                    path_id: (n - 1) as usize,
                    decisions: a.pending_decisions,
                    samples: a.samples,
                },
            ),
            _ => before,
        }
    }
}

proof fn lemma_stale_arms(m: GreedyModel, now: u64, n: nat)
    requires
        n <= m.arms.len(),
        samples_total(m.arms) + m.arms.len() <= u64::MAX,
    ensures
        stale_trained(m, now, n).arms.len() == m.arms.len(),
        forall|i: int|
            n <= i < m.arms.len() ==> #[trigger] stale_trained(m, now, n).arms[i] == m.arms[i],
        samples_total(stale_trained(m, now, n).arms) <= samples_total(m.arms) + n,
        stale_trained(m, now, n).metrics == m.metrics,
        stale_trained(m, now, n).records.len() <= m.records.len() + n,
    decreases n,
{
    if n > 0 {
        lemma_stale_arms(m, now, (n - 1) as nat);
        let b = stale_trained(m, now, (n - 1) as nat);
        lemma_samples_at_most_total(m.arms, n - 1);
        match at(m.arms, n - 1, None) {
            Some(a) if arm_is_stale(a, now) => {
                let c = if a.pending_decisions == 0 {
                    window_reset(a, now)
                } else {
                    window_reset(sampled(released(a)), now)
                };
                lemma_samples_update(b.arms, n - 1, Some(c));
            },
            _ => {},
        }
    }
}

/// A stale decision is trained once: right after the stale decisions were
/// trained, there is none to train.
pub proof fn stale_decisions_are_trained_once(m: GreedyModel, now: u64, n: nat)
    requires
        n <= m.arms.len(),
        samples_total(m.arms) + m.arms.len() <= u64::MAX,
    ensures
        stale_trainings(stale_trained(m, now, m.arms.len()).arms, now, n) == Seq::<
            StaleTraining,
        >::empty(),
    decreases n,
{
    if n > 0 {
        stale_decisions_are_trained_once(m, now, (n - 1) as nat);
        lemma_stale_kept(m, now, n, m.arms.len());
        lemma_stale_arms(m, now, n);
        lemma_stale_arms(m, now, (n - 1) as nat);
        lemma_stale_arms(m, now, m.arms.len());
    }
}

/// What was done for a path is not undone for the paths behind it.
proof fn lemma_stale_kept(m: GreedyModel, now: u64, n: nat, k: nat)
    requires
        0 < n <= k <= m.arms.len(),
        samples_total(m.arms) + m.arms.len() <= u64::MAX,
    ensures
        stale_trained(m, now, k).arms[n - 1] == stale_trained(m, now, n).arms[n - 1],
    decreases k,
{
    if k > n {
        lemma_stale_kept(m, now, n, (k - 1) as nat);
        lemma_stale_arms(m, now, (k - 1) as nat);
    }
}

impl EpsilonGreedyScheduler {
    /// The windows add up, and a timestamp fits.
    pub open spec fn wf(self) -> bool {
        &&& self.metrics.wf()
        &&& total(self.selection_window_counts@) == self.selection_window_total
    }

    /// A scheduler that starts at `now`, which is the Unix second `unix_secs`.
    pub fn new(now: u64, unix_secs: u64) -> (r: Self)
        requires
            unix_secs <= UNIX_LIMIT,
        ensures
            r.wf(),
            r@ == (GreedyModel {
                arms: Seq::empty(),
                last_min_rtt_ns: 1,
                metrics: TrafficModel {
                    start_time: now,
                    start_unix_secs: unix_secs,
                    last_log: None,
                    prev_sent_bytes: Seq::empty(),
                    window_counts: Seq::empty(),
                    window_total: 0,
                    records: Seq::empty(),
                },
                counts: Seq::empty(),
                counts_total: 0,
                last_log: None,
                records: Seq::empty(),
            }),
    {
        let r = EpsilonGreedyScheduler {
            arms: Vec::new(),
            last_min_rtt_ns: 1,
            metrics: TrafficMetricsCollector::new(now, unix_secs),
            selection_window_counts: Vec::new(),
            selection_window_total: 0,
            last_internal_log: None,
            records: Vec::new(),
        };
        assert(r@.records =~= Seq::empty());
        r
    }

    /// The model updates of all paths.
    pub fn total_samples(&self) -> (r: u64)
        requires
            samples_total(self.arms@) <= u64::MAX,
        ensures
            r == samples_total(self.arms@),
    {
        let mut sum: u64 = 0;
        let mut i: usize = 0;
        assert(self.arms@.subrange(0, 0) =~= Seq::<Option<ArmState>>::empty());
        while i < self.arms.len()
            invariant
                i <= self.arms@.len(),
                samples_total(self.arms@) <= u64::MAX,
                sum == samples_total(self.arms@.subrange(0, i as int)),
            decreases self.arms@.len() - i,
        {
            proof {
                let next = self.arms@.subrange(0, i + 1);
                assert(next.drop_last() =~= self.arms@.subrange(0, i as int));
                lemma_samples_prefix(self.arms@, i + 1);
            }
            if let Some(a) = &self.arms[i] {
                sum += a.samples;
            }
            i += 1;
        }
        assert(self.arms@.subrange(0, i as int) =~= self.arms@);
        sum
    }

    fn log(&mut self, now: u64, event: GreedyEvent)
        requires
            old(self).metrics.start_unix_secs <= UNIX_LIMIT,
            samples_total(old(self).arms@) <= u64::MAX,
        ensures
            final(self)@ == logged(
                old(self)@,
                now,
                (GreedyRecord {
                    step: 0,
                    timestamp: 0,
                    elapsed_s: 0,
                    total_samples: 0,
                    event,
                })@.event,
            ),
            final(self).metrics == old(self).metrics,
            final(self).arms == old(self).arms,
            final(self).selection_window_counts == old(self).selection_window_counts,
            final(self).selection_window_total == old(self).selection_window_total,
    {
        let ghost m = self@;
        let (elapsed_s, timestamp) = self.metrics.elapsed_and_timestamp(now);
        let step: u64 = self.records.len() as u64;
        let total_samples: u64 = self.total_samples();
        let record = GreedyRecord { step, timestamp, elapsed_s, total_samples, event };
        let ghost view = record@;
        self.records.push(record);
        proof {
            assert(self@.records =~= m.records.push(view));
            assert(view == greedy_record(m, now, view.event));
        }
    }

    /// Trains the stale decisions with no reward: returns what to train.
    pub fn train_stale_pending_decisions(&mut self, now: u64) -> (r: Vec<StaleTraining>)
        requires
            old(self).wf(),
            samples_total(old(self).arms@) + old(self).arms@.len() <= u64::MAX,
        ensures
            final(self).wf(),
            r@ == stale_trainings(old(self).arms@, now, old(self).arms@.len()),
            final(self)@ == stale_trained(old(self)@, now, old(self).arms@.len()),
    {
        let ghost m = self@;
        let mut r: Vec<StaleTraining> = Vec::new();
        let mut i: usize = 0;
        while i < self.arms.len()
            invariant
                i <= self.arms@.len() == m.arms.len(),
                self.wf(),
                samples_total(m.arms) + m.arms.len() <= u64::MAX,
                r@ == stale_trainings(m.arms, now, i as nat),
                self@ == stale_trained(m, now, i as nat),
            decreases self.arms@.len() - i,
        {
            proof {
                lemma_stale_arms(m, now, i as nat);
                lemma_stale_arms(m, now, (i + 1) as nat);
                lemma_samples_at_most_total(m.arms, i as int);
            }
            assert(self.arms@[i as int] == m.arms[i as int]);
            if let Some(a) = self.arms[i] {
                let stale = match a.pending_since {
                    Some(t) => elapsed_ns(t, now) > STALE_DECISION_TIMEOUT,
                    None => false,
                };
                if stale {
                    let mut arm = a;
                    let samples: u64 = arm.samples;
                    match arm.take_pending_context() {
                        Some(decisions) => {
                            arm.samples += 1;
                            arm.reset_feedback_window(now);
                            self.arms.set(i, Some(arm));
                            proof {
                                lemma_samples_update(
                                    stale_trained(m, now, i as nat).arms,
                                    i as int,
                                    Some(arm),
                                );
                            }
                            self.log(
                                now,
                                GreedyEvent::Update {
                                    path_id: i,
                                    arm,
                                    source: UpdateSource::StaleTimeout,
                                },
                            );
                            r.push(StaleTraining { path_id: i, decisions, samples });
                        },
                        None => {
                            arm.reset_feedback_window(now);
                            self.arms.set(i, Some(arm));
                        },
                    }
                }
            }
            i += 1;
            assert(self@ =~= stale_trained(m, now, i as nat));
        }
        r
    }
}

proof fn lemma_samples_prefix(arms: Seq<Option<ArmState>>, k: int)
    requires
        0 <= k <= arms.len(),
    ensures
        samples_total(arms.subrange(0, k)) <= samples_total(arms),
    decreases arms.len() - k,
{
    if k == arms.len() {
        assert(arms.subrange(0, k) =~= arms);
    } else {
        lemma_samples_prefix(arms, k + 1);
        assert(arms.subrange(0, k + 1).drop_last() =~= arms.subrange(0, k));
    }
}

// ───────────────────────────── candidates ─────────────────────────────

/// A path that can send, and its context.
#[derive(Debug, Clone, Copy)]
pub struct Candidate {
    pub pid: usize,
    pub context: GreedyContext,
}

/// The paths that can send, in order.
pub open spec fn sendable_paths(paths: Seq<Path>) -> Seq<Path>
    decreases paths.len(),
{
    if paths.len() == 0 {
        Seq::empty()
    } else if sendable(paths.last()) {
        sendable_paths(paths.drop_last()).push(paths.last())
    } else {
        sendable_paths(paths.drop_last())
    }
}

/// The smallest round-trip time of the paths, each at least 1.
pub open spec fn least_rtt(paths: Seq<Path>) -> u64
    decreases paths.len(),
{
    if paths.len() == 0 {
        u64::MAX
    } else {
        let before = least_rtt(paths.drop_last());
        let rtt = at_least_one(paths.last().smoothed_rtt);
        if rtt < before {
            rtt
        } else {
            before
        }
    }
}

/// The largest pacing rate of the paths.
pub open spec fn most_pacing(paths: Seq<Path>) -> u64
    decreases paths.len(),
{
    if paths.len() == 0 {
        0
    } else {
        let before = most_pacing(paths.drop_last());
        if paths.last().pacing() > before {
            paths.last().pacing()
        } else {
            before
        }
    }
}

/// The candidate that a path is.
pub open spec fn candidate(p: Path, min_rtt: u64, max_pacing: u64) -> Candidate {
    Candidate {
        pid: p.id,
        context: greedy_context(
            at_least_one(p.smoothed_rtt),
            min_rtt,
            p.bytes_in_flight as u64,
            p.cwnd,
            p.pacing(),
            max_pacing,
        ),
    }
}

/// The candidates among the paths.
pub open spec fn candidates(paths: Seq<Path>) -> Seq<Candidate> {
    let s = sendable_paths(paths);
    Seq::new(s.len(), |i: int| candidate(s[i], least_rtt(s), most_pacing(s)))
}

/// Candidate ids rise, and a table indexed by them can reach each of them.
pub open spec fn candidates_ordered(c: Seq<Candidate>) -> bool {
    &&& forall|i: int, j: int| 0 <= i < j < c.len() ==> #[trigger] c[i].pid < #[trigger] c[j].pid
    &&& forall|i: int| 0 <= i < c.len() ==> (#[trigger] c[i]).pid < usize::MAX
}

/// The paths that can send are in order, and there are some where some path can send.
pub proof fn lemma_sendable_paths(paths: Seq<Path>)
    requires
        ordered(paths),
    ensures
        ordered(sendable_paths(paths)),
        sendable_paths(paths).len() == 0 <==> forall|i: int|
            0 <= i < paths.len() ==> !sendable(#[trigger] paths[i]),
        forall|k: int| #![trigger sendable_paths(paths)[k]]
            0 <= k < sendable_paths(paths).len() ==> exists|i: int|
                0 <= i < paths.len() && #[trigger] paths[i] == sendable_paths(paths)[k],
    decreases paths.len(),
{
    if paths.len() > 0 {
        let front = paths.drop_last();
        assert(ordered(front)) by {
            assert forall|i: int, j: int| 0 <= i < j < front.len() implies #[trigger] front[i].id
                < #[trigger] front[j].id by {
                assert(front[i] == paths[i] && front[j] == paths[j]);
            }
            assert forall|i: int| 0 <= i < front.len() implies (#[trigger] front[i]).id
                < usize::MAX by {
                assert(front[i] == paths[i]);
            }
        }
        lemma_sendable_paths(front);
        let s = sendable_paths(paths);
        let t = sendable_paths(front);
        let last = paths.len() - 1;
        assert forall|k: int| #![trigger s[k]] 0 <= k < s.len() implies exists|i: int|
            0 <= i < paths.len() && #[trigger] paths[i] == s[k] by {
            if k < t.len() {
                assert(s[k] == t[k]);
                let i = choose|i: int| 0 <= i < front.len() && #[trigger] front[i] == t[k];
                assert(paths[i] == s[k]);
            } else {
                assert(paths[last] == s[k]);
            }
        }
        if sendable(paths.last()) {
            assert(sendable(paths[last]));
            assert forall|i: int, j: int| 0 <= i < j < s.len() implies #[trigger] s[i].id
                < #[trigger] s[j].id by {
                assert(s[i] == t[i]);
                if j < t.len() {
                    assert(s[j] == t[j]);
                } else {
                    let k = choose|k: int| 0 <= k < front.len() && #[trigger] front[k] == t[i];
                    assert(paths[k].id < paths[last].id);
                }
            }
            assert forall|i: int| 0 <= i < s.len() implies (#[trigger] s[i]).id < usize::MAX by {
                if i < t.len() {
                    assert(s[i] == t[i]);
                }
            }
        } else {
            if forall|i: int| 0 <= i < front.len() ==> !sendable(#[trigger] front[i]) {
                assert forall|i: int| 0 <= i < paths.len() implies !sendable(
                    #[trigger] paths[i],
                ) by {
                    if i < last {
                        assert(front[i] == paths[i]);
                    }
                }
            } else {
                let i = choose|i: int| 0 <= i < front.len() && sendable(#[trigger] front[i]);
                assert(sendable(paths[i]));
            }
        }
    }
}

/// The arms with one for every candidate.
pub open spec fn arms_ensured(arms: Seq<Option<ArmState>>, c: Seq<Candidate>) -> Seq<
    Option<ArmState>,
>
    decreases c.len(),
{
    if c.len() == 0 {
        arms
    } else {
        arm_ensured(arms_ensured(arms, c.drop_last()), c.last().pid as int)
    }
}

/// The arms with one for the path.
pub open spec fn arm_ensured(arms: Seq<Option<ArmState>>, pid: int) -> Seq<Option<ArmState>> {
    placed(
        arms,
        pid,
        Some(
            match at(arms, pid, None) {
                Some(a) => a,
                None => new_arm(),
            },
        ),
        None,
    )
}

/// Once arms were ensured, every candidate has one; others are unchanged; and
/// the model updates are as before.
pub proof fn lemma_arms_ensured(arms: Seq<Option<ArmState>>, c: Seq<Candidate>)
    ensures
        forall|k: int|
            0 <= k < c.len() ==> at(
                arms_ensured(arms, c),
                (#[trigger] c[k]).pid as int,
                None,
            ) is Some,
        forall|pid: int|
            0 <= pid ==> (#[trigger] at(arms, pid, None) is Some ==> at(
                arms_ensured(arms, c),
                pid,
                None,
            ) == at(arms, pid, None)),
        samples_total(arms_ensured(arms, c)) == samples_total(arms),
    decreases c.len(),
{
    if c.len() > 0 {
        let front = c.drop_last();
        lemma_arms_ensured(arms, front);
        let b = arms_ensured(arms, front);
        let pid = c.last().pid as int;
        let a = match at(b, pid, None) {
            Some(a) => a,
            None => new_arm(),
        };
        lemma_samples_placed(b, pid, Some(a));
        assert forall|k: int| 0 <= k < c.len() implies at(
            arms_ensured(arms, c),
            (#[trigger] c[k]).pid as int,
            None,
        ) is Some by {
            if k < front.len() {
                assert(front[k] == c[k]);
            }
        }
    }
}

/// The scheduler once a selection among the paths was prepared.
pub open spec fn greedy_prepared(m: GreedyModel, paths: Seq<Path>) -> GreedyModel {
    GreedyModel {
        arms: arms_ensured(m.arms, candidates(paths)),
        last_min_rtt_ns: least_rtt(sendable_paths(paths)),
        ..m
    }
}

/// The selections of a candidate.
pub open spec fn selections_of(arms: Seq<Option<ArmState>>, c: Candidate) -> u64 {
    match at(arms, c.pid as int, None) {
        Some(a) => a.selections,
        None => 0,
    }
}

/// The fewest selections among the candidates.
pub open spec fn least_selections(arms: Seq<Option<ArmState>>, c: Seq<Candidate>) -> u64
    decreases c.len(),
{
    if c.len() == 0 {
        u64::MAX
    } else {
        let before = least_selections(arms, c.drop_last());
        let n = selections_of(arms, c.last());
        if n < before {
            n
        } else {
            before
        }
    }
}

/// No candidate has fewer, and one has as few.
pub proof fn lemma_least_selections(arms: Seq<Option<ArmState>>, c: Seq<Candidate>)
    ensures
        forall|i: int|
            0 <= i < c.len() ==> least_selections(arms, c) <= selections_of(arms, #[trigger] c[i]),
        c.len() > 0 ==> exists|i: int|
            0 <= i < c.len() && selections_of(arms, #[trigger] c[i]) == least_selections(arms, c),
    decreases c.len(),
{
    if c.len() > 0 {
        let front = c.drop_last();
        lemma_least_selections(arms, front);
        let last = c.len() - 1;
        assert forall|i: int| 0 <= i < c.len() implies least_selections(arms, c) <= selections_of(
            arms,
            #[trigger] c[i],
        ) by {
            if i < last {
                assert(front[i] == c[i]);
            }
        }
        if selections_of(arms, c.last()) < least_selections(arms, front) || front.len() == 0 {
            assert(selections_of(arms, c[last]) == least_selections(arms, c));
        } else {
            let i = choose|i: int|
                0 <= i < front.len() && selections_of(arms, #[trigger] front[i])
                    == least_selections(arms, front);
            assert(selections_of(arms, c[i]) == least_selections(arms, c));
        }
    }
}

/// Some candidate has not got its initial selections yet.
pub open spec fn warming_up(arms: Seq<Option<ArmState>>, c: Seq<Candidate>) -> bool {
    least_selections(arms, c) < WARMUP_SELECTIONS_PER_PATH
}

/// The candidate at `i` may be drawn: during the warm-up the least selected
/// ones, then all when exploring among several, else those whose prediction ties
/// with the best.
pub open spec fn in_pool(
    arms: Seq<Option<ArmState>>,
    c: Seq<Candidate>,
    explore: bool,
    tied: Seq<bool>,
    i: int,
) -> bool {
    if warming_up(arms, c) {
        selections_of(arms, c[i]) == least_selections(arms, c)
    } else if c.len() > 1 && explore {
        true
    } else {
        tied[i]
    }
}

/// The candidates that may be drawn, among the first `n`, by their positions.
pub open spec fn pool(
    arms: Seq<Option<ArmState>>,
    c: Seq<Candidate>,
    explore: bool,
    tied: Seq<bool>,
    n: nat,
) -> Seq<usize>
    decreases n,
{
    if n == 0 {
        Seq::empty()
    } else {
        let before = pool(arms, c, explore, tied, (n - 1) as nat);
        if in_pool(arms, c, explore, tied, n - 1) {
            before.push((n - 1) as usize)
        } else {
            before
        }
    }
}

/// The pool holds exactly the positions that may be drawn.
pub proof fn lemma_pool(
    arms: Seq<Option<ArmState>>,
    c: Seq<Candidate>,
    explore: bool,
    tied: Seq<bool>,
    n: nat,
)
    requires
        n <= usize::MAX,
    ensures
        forall|k: int| #![trigger pool(arms, c, explore, tied, n)[k]]
            0 <= k < pool(arms, c, explore, tied, n).len() ==> pool(arms, c, explore, tied, n)[k]
                < n && in_pool(arms, c, explore, tied, pool(arms, c, explore, tied, n)[k] as int),
        forall|i: int|
            0 <= i < n && in_pool(arms, c, explore, tied, i) ==> #[trigger] pool(
                arms,
                c,
                explore,
                tied,
                n,
            ).contains(i as usize),
    decreases n,
{
    if n > 0 {
        lemma_pool(arms, c, explore, tied, (n - 1) as nat);
        let before = pool(arms, c, explore, tied, (n - 1) as nat);
        let after = pool(arms, c, explore, tied, n);
        assert forall|k: int| #![trigger after[k]] 0 <= k < after.len() implies after[k] < n
            && in_pool(arms, c, explore, tied, after[k] as int) by {
            if k < before.len() {
                assert(after[k] == before[k]);
            }
        }
        assert forall|i: int| 0 <= i < n && in_pool(arms, c, explore, tied, i) implies
            #[trigger] after.contains(i as usize) by {
            if i < n - 1 {
                assert(before.contains(i as usize));
                let k = choose|k: int| 0 <= k < before.len() && before[k] == i as usize;
                assert(after[k] == i as usize);
            } else {
                assert(after[before.len() as int] == i as usize);
            }
        }
    }
}

/// The candidates' selections are equal, up to one.
pub open spec fn evenly_selected(arms: Seq<Option<ArmState>>, c: Seq<Candidate>) -> bool {
    forall|i: int, j: int|
        0 <= i < c.len() && 0 <= j < c.len() ==> selections_of(arms, #[trigger] c[i])
            <= selections_of(arms, #[trigger] c[j]) + 1
}

/// The warm-up covers every path, before any feedback: while it lasts, whatever
/// is drawn is a least selected candidate, so candidates that were selected
/// equally often, up to one, stay so.
pub proof fn warmup_covers_every_path(
    arms: Seq<Option<ArmState>>,
    c: Seq<Candidate>,
    explore: bool,
    tied: Seq<bool>,
    draw: int,
    now: u64,
)
    requires
        candidates_ordered(c),
        c.len() <= usize::MAX,
        warming_up(arms, c),
        evenly_selected(arms, c),
        forall|i: int| 0 <= i < c.len() ==> at(arms, (#[trigger] c[i]).pid as int, None) is Some,
        0 <= draw < pool(arms, c, explore, tied, c.len()).len(),
    ensures
        ({
            let b = pool(arms, c, explore, tied, c.len())[draw] as int;
            let pid = c[b].pid as int;
            let after = placed(arms, pid, Some(pushed(arms[pid].unwrap(), now)), None);
            &&& forall|i: int|
                0 <= i < c.len() ==> selections_of(arms, c[b]) <= selections_of(
                    arms,
                    #[trigger] c[i],
                )
            &&& evenly_selected(after, c)
        }),
{
    lemma_pool(arms, c, explore, tied, c.len());
    lemma_least_selections(arms, c);
    let b = pool(arms, c, explore, tied, c.len())[draw] as int;
    let pid = c[b].pid as int;
    assert(at(arms, c[b].pid as int, None) is Some);
    let after = placed(arms, pid, Some(pushed(arms[pid].unwrap(), now)), None);
    assert forall|i: int, j: int| 0 <= i < c.len() && 0 <= j < c.len() implies selections_of(
        after,
        #[trigger] c[i],
    ) <= selections_of(after, #[trigger] c[j]) + 1 by {
        assert(selections_of(arms, c[b]) <= selections_of(arms, c[j]));
        assert(selections_of(arms, c[i]) <= selections_of(arms, c[j]) + 1);
        if i != b {
            assert(c[i].pid != c[b].pid) by {
                if i < b {
                    assert(c[i].pid < c[b].pid);
                } else {
                    assert(c[b].pid < c[i].pid);
                }
            }
        }
    }
}

// ───────────────────────────── selecting ─────────────────────────────

/// The row of a candidate in a selection record.
pub open spec fn greedy_row(m: GreedyModel, c: Candidate) -> GreedyRow {
    GreedyRow {
        pid: c.pid,
        context: c.context,
        count: at(m.counts, c.pid as int, 0),
        total: m.counts_total as u64,
        arm: match at(m.arms, c.pid as int, None) {
            Some(a) => a,
            None => new_arm(),
        },
    }
}

/// The scheduler once the selection of the path was counted.
pub open spec fn selection_counted(m: GreedyModel, pid: int, now: u64) -> GreedyModel {
    GreedyModel {
        arms: placed(
            m.arms,
            pid,
            Some(
                pushed(
                    match at(m.arms, pid, None) {
                        Some(a) => a,
                        None => new_arm(),
                    },
                    now,
                ),
            ),
            None,
        ),
        counts: placed(m.counts, pid, (at(m.counts, pid, 0) + 1) as u64, 0),
        counts_total: m.counts_total + 1,
        ..m
    }
}

/// The scheduler once a due selection record was taken.
pub open spec fn selection_logged(
    m: GreedyModel,
    pid: usize,
    c: Seq<Candidate>,
    now: u64,
) -> GreedyModel {
    if second_passed(m.last_log, now) {
        GreedyModel {
            last_log: Some(now),
            counts: zeros(m.counts.len()),
            counts_total: 0,
            ..logged(
                m,
                now,
                GreedyEventModel::Selection {
                    selected: pid,
                    rows: Seq::new(c.len(), |i: int| greedy_row(m, c[i])),
                },
            )
        }
    } else {
        m
    }
}

/// The scheduler after a selection of the candidate at `b`.
pub open spec fn greedy_selected(
    m: GreedyModel,
    c: Seq<Candidate>,
    b: int,
    paths: Seq<Path>,
    now: u64,
) -> GreedyModel {
    let w = selection_logged(
        selection_counted(m, c[b].pid as int, now),
        c[b].pid,
        c,
        now,
    );
    GreedyModel { metrics: recorded(w.metrics, c[b].pid as int, paths, now), ..w }
}

impl EpsilonGreedyScheduler {
    /// Every counter that a selection raises has room.
    pub open spec fn has_room(self) -> bool {
        &&& self.selection_window_total < u64::MAX
        &&& self.metrics.window_total < u64::MAX
        &&& samples_total(self.arms@) + self.arms@.len() < u64::MAX
        &&& forall|i: int|
            0 <= i < self.arms@.len() ==> ((#[trigger] self.arms@[i]) matches Some(a)
                ==> a.selections < u64::MAX && a.pending_decisions < u64::MAX)
    }

    /// Makes sure that the path has an arm.
    pub fn ensure_arm(&mut self, path_id: usize)
        requires
            path_id < usize::MAX,
        ensures
            final(self)@ == (GreedyModel {
                arms: arm_ensured(old(self).arms@, path_id as int),
                ..old(self)@
            }),
            final(self).wf() == old(self).wf(),
            final(self).metrics == old(self).metrics,
    {
        let arm = match get(&self.arms, path_id, None) {
            Some(a) => a,
            None => ArmState::new(),
        };
        put(&mut self.arms, path_id, Some(arm), None);
    }

    /// Trains the stale decisions, and prepares a selection among the paths that
    /// can send.
    pub fn begin_select(&mut self, paths: &PathMap, now: u64) -> (r: (
        Vec<StaleTraining>,
        Result<Vec<Candidate>, Error>,
    ))
        requires
            old(self).wf(),
            paths.wf(),
            samples_total(old(self).arms@) + old(self).arms@.len() <= u64::MAX,
        ensures
            final(self).wf(),
            r.0@ == stale_trainings(old(self).arms@, now, old(self).arms@.len()),
            ({
                let m = stale_trained(old(self)@, now, old(self).arms@.len());
                match r.1 {
                    Ok(c) => {
                        &&& c@ == candidates(paths@)
                        &&& candidates_ordered(c@)
                        &&& c@.len() > 0
                        &&& final(self)@ == greedy_prepared(m, paths@)
                    },
                    Err(e) => e == Error::Done && final(self)@ == m,
                }
            }),
            r.1 is Err <==> forall|i: int|
                0 <= i < paths@.len() ==> !sendable(#[trigger] paths@[i]),
    {
        let stale = self.train_stale_pending_decisions(now);
        let found = self.prepare_select(paths);
        (stale, found)
    }

    /// Prepares a selection among the paths that can send.
    pub fn prepare_select(&mut self, paths: &PathMap) -> (r: Result<Vec<Candidate>, Error>)
        requires
            paths.wf(),
        ensures
            final(self).wf() == old(self).wf(),
            match r {
                Ok(c) => {
                    &&& c@ == candidates(paths@)
                    &&& candidates_ordered(c@)
                    &&& c@.len() > 0
                    &&& final(self)@ == greedy_prepared(old(self)@, paths@)
                    &&& forall|i: int|
                        0 <= i < c@.len() ==> at(
                            final(self).arms@,
                            (#[trigger] c@[i]).pid as int,
                            None,
                        ) is Some
                },
                Err(e) => e == Error::Done && final(self)@ == old(self)@,
            },
            r is Err <==> forall|i: int| 0 <= i < paths@.len() ==> !sendable(#[trigger] paths@[i]),
    {
        let ghost m = self@;
        let ghost s = sendable_paths(paths@);
        let mut found: Vec<usize> = Vec::new();
        let mut min_rtt: u64 = u64::MAX;
        let mut max_pacing: u64 = 0;
        let mut i: usize = 0;
        assert(paths@.subrange(0, 0) =~= Seq::<Path>::empty());
        while i < paths.paths.len()
            invariant
                i <= paths@.len(),
                self@ == m,
                self.wf() == old(self).wf(),
                ({
                    let t = sendable_paths(paths@.subrange(0, i as int));
                    &&& found@.len() == t.len()
                    &&& forall|k: int|
                        0 <= k < t.len() ==> (#[trigger] found@[k]) < paths@.len() && t[k]
                            == paths@[found@[k] as int]
                    &&& min_rtt == least_rtt(t)
                    &&& max_pacing == most_pacing(t)
                }),
            decreases paths@.len() - i,
        {
            let ghost t = sendable_paths(paths@.subrange(0, i as int));
            let ghost u = sendable_paths(paths@.subrange(0, i + 1));
            proof {
                let next = paths@.subrange(0, i + 1);
                assert(next.drop_last() =~= paths@.subrange(0, i as int));
                assert(next.last() == paths@[i as int]);
            }
            let p = &paths.paths[i];
            if p.is_sendable() {
                assert(u == t.push(*p));
                assert(u.drop_last() =~= t);
                found.push(i);
                let rtt: u64 = if p.smoothed_rtt >= 1 {
                    p.smoothed_rtt
                } else {
                    1
                };
                if rtt < min_rtt {
                    min_rtt = rtt;
                }
                let pacing: u64 = p.pacing_or_zero();
                if pacing > max_pacing {
                    max_pacing = pacing;
                }
            }
            i += 1;
        }
        assert(paths@.subrange(0, i as int) =~= paths@);
        proof {
            lemma_sendable_paths(paths@);
        }
        if found.len() == 0 {
            return Err(Error::Done);
        }
        self.last_min_rtt_ns = min_rtt;
        let ghost m1 = self@;
        let mut c: Vec<Candidate> = Vec::new();
        let ghost all = candidates(paths@);
        let mut k: usize = 0;
        assert(all.subrange(0, 0) =~= Seq::<Candidate>::empty());
        while k < found.len()
            invariant
                k <= found@.len() == s.len() == all.len(),
                s == sendable_paths(paths@),
                all == candidates(paths@),
                ordered(s),
                forall|j: int|
                    0 <= j < s.len() ==> (#[trigger] found@[j]) < paths@.len() && s[j]
                        == paths@[found@[j] as int],
                min_rtt == least_rtt(s),
                max_pacing == most_pacing(s),
                self.wf() == old(self).wf(),
                self@ == (GreedyModel {
                    arms: arms_ensured(m1.arms, all.subrange(0, k as int)),
                    ..m1
                }),
                c@ =~= all.subrange(0, k as int),
            decreases found@.len() - k,
        {
            let p = &paths.paths[found[k]];
            assert(*p == s[k as int]);
            proof {
                let next = all.subrange(0, k + 1);
                assert(next.drop_last() =~= all.subrange(0, k as int));
                assert(next.last() == all[k as int]);
            }
            self.ensure_arm(p.id);
            let rtt: u64 = if p.smoothed_rtt >= 1 {
                p.smoothed_rtt
            } else {
                1
            };
            let context = make_context(
                rtt,
                min_rtt,
                p.bytes_in_flight,
                p.cwnd,
                p.pacing_or_zero(),
                max_pacing,
            );
            c.push(Candidate { pid: p.id, context });
            k += 1;
        }
        proof {
            assert(all.subrange(0, k as int) =~= all);
            lemma_arms_ensured(m.arms, all);
            assert forall|a: int, b: int| 0 <= a < b < c@.len() implies #[trigger] c@[a].pid
                < #[trigger] c@[b].pid by {
                assert(s[a].id < s[b].id);
            }
            assert forall|a: int| 0 <= a < c@.len() implies (#[trigger] c@[a]).pid
                < usize::MAX by {
                assert(s[a].id < usize::MAX);
            }
        }
        Ok(c)
    }

    fn selections_at(&self, c: &Candidate) -> (r: u64)
        ensures
            r == selections_of(self.arms@, *c),
    {
        match get(&self.arms, c.pid, None) {
            Some(a) => a.selections,
            None => 0,
        }
    }

    fn min_selections(&self, c: &Vec<Candidate>) -> (r: u64)
        ensures
            r == least_selections(self.arms@, c@),
    {
        let mut least: u64 = u64::MAX;
        let mut i: usize = 0;
        assert(c@.subrange(0, 0) =~= Seq::<Candidate>::empty());
        while i < c.len()
            invariant
                i <= c@.len(),
                least == least_selections(self.arms@, c@.subrange(0, i as int)),
            decreases c@.len() - i,
        {
            assert(c@.subrange(0, i + 1).drop_last() =~= c@.subrange(0, i as int));
            let n: u64 = self.selections_at(&c[i]);
            if n < least {
                least = n;
            }
            i += 1;
        }
        assert(c@.subrange(0, i as int) =~= c@);
        least
    }

    /// Whether the explore coin decides: the warm-up is over and there are
    /// several candidates.
    pub fn wants_coin(&self, c: &Vec<Candidate>) -> (r: bool)
        ensures
            r == (!warming_up(self.arms@, c@) && c@.len() > 1),
    {
        self.min_selections(c) >= WARMUP_SELECTIONS_PER_PATH && c.len() > 1
    }

    /// The positions of the candidates that may be drawn. `tied` marks the ones
    /// whose prediction ties with the best.
    pub fn draw_pool(&self, c: &Vec<Candidate>, explore: bool, tied: &Vec<bool>) -> (r: Vec<usize>)
        requires
            c@.len() > 0,
            tied@.len() == c@.len(),
            exists|i: int| 0 <= i < tied@.len() && #[trigger] tied@[i],
        ensures
            r@ == pool(self.arms@, c@, explore, tied@, c@.len()),
            r@.len() > 0,
            forall|k: int| 0 <= k < r@.len() ==> (#[trigger] r@[k]) < c@.len(),
    {
        let least: u64 = self.min_selections(c);
        let mut r: Vec<usize> = Vec::new();
        let mut i: usize = 0;
        while i < c.len()
            invariant
                i <= c@.len() == tied@.len(),
                least == least_selections(self.arms@, c@),
                r@ == pool(self.arms@, c@, explore, tied@, i as nat),
            decreases c@.len() - i,
        {
            let inside = if least < WARMUP_SELECTIONS_PER_PATH {
                self.selections_at(&c[i]) == least
            } else if c.len() > 1 && explore {
                true
            } else {
                tied[i]
            };
            if inside {
                r.push(i);
            }
            i += 1;
        }
        proof {
            lemma_pool(self.arms@, c@, explore, tied@, c@.len());
            lemma_least_selections(self.arms@, c@);
            let w = if warming_up(self.arms@, c@) {
                choose|i: int|
                    0 <= i < c@.len() && selections_of(self.arms@, #[trigger] c@[i])
                        == least_selections(self.arms@, c@)
            } else {
                choose|i: int| 0 <= i < tied@.len() && #[trigger] tied@[i]
            };
            assert(in_pool(self.arms@, c@, explore, tied@, w));
            assert(r@.contains(w as usize));
        }
        r
    }

    /// Selects the candidate at position `b`.
    pub fn select_candidate(&mut self, c: &Vec<Candidate>, b: usize, paths: &PathMap, now: u64)
        requires
            old(self).wf(),
            old(self).has_room(),
            paths.wf(),
            b < c@.len(),
            candidates_ordered(c@),
        ensures
            final(self).wf(),
            final(self)@ == greedy_selected(old(self)@, c@, b as int, paths@, now),
    {
        let ghost m = self@;
        let pid: usize = c[b].pid;
        proof {
            lemma_entry_at_most_total(m.counts, pid as int);
            let x = (at(m.counts, pid as int, 0) + 1) as u64;
            lemma_total_placed(m.counts, pid as int, x);
            lemma_total_zeros(placed(m.counts, pid as int, x, 0).len());
        }
        let mut arm = match get(&self.arms, pid, None) {
            Some(a) => a,
            None => ArmState::new(),
        };
        proof {
            if pid < m.arms.len() {
                assert(m.arms[pid as int] == self.arms@[pid as int]);
            }
            lemma_samples_placed(m.arms, pid as int, Some(pushed(arm, now)));
        }
        arm.push_pending_context(now);
        put(&mut self.arms, pid, Some(arm), None);
        let count: u64 = get(&self.selection_window_counts, pid, 0);
        put(&mut self.selection_window_counts, pid, count + 1, 0);
        self.selection_window_total += 1;
        assert(self@ =~= selection_counted(m, pid as int, now));
        self.log_selection_snapshot(now, pid, c);
        self.metrics.record(pid, paths, now);
        assert(self@ =~= greedy_selected(m, c@, b as int, paths@, now));
    }

    fn log_selection_snapshot(&mut self, now: u64, selected: usize, c: &Vec<Candidate>)
        requires
            old(self).wf(),
            samples_total(old(self).arms@) <= u64::MAX,
        ensures
            final(self).wf(),
            final(self)@ == selection_logged(old(self)@, selected, c@, now),
            final(self).metrics == old(self).metrics,
    {
        let ghost m = self@;
        if !is_second_passed(self.last_internal_log, now) {
            return ;
        }
        let mut rows: Vec<GreedyRow> = Vec::new();
        let mut i: usize = 0;
        while i < c.len()
            invariant
                i <= c@.len(),
                self@ == m,
                rows@ =~= Seq::new(i as nat, |j: int| greedy_row(m, c@[j])),
            decreases c@.len() - i,
        {
            let arm = match get(&self.arms, c[i].pid, None) {
                Some(a) => a,
                None => ArmState::new(),
            };
            rows.push(
                GreedyRow {
                    pid: c[i].pid,
                    context: c[i].context,
                    count: get(&self.selection_window_counts, c[i].pid, 0),
                    total: self.selection_window_total,
                    arm,
                },
            );
            i += 1;
        }
        self.log(now, GreedyEvent::Selection { selected, rows });
        self.last_internal_log = Some(now);
        clear_counts(&mut self.selection_window_counts);
        self.selection_window_total = 0;
        proof {
            lemma_total_zeros(m.counts.len());
            assert(self@ =~= selection_logged(m, selected, c@, now));
        }
    }

    /// Selects one of the candidates that may be drawn, at random.
    pub fn on_select(
        &mut self,
        c: &Vec<Candidate>,
        explore: bool,
        tied: &Vec<bool>,
        paths: &PathMap,
        now: u64,
    ) -> (pid: usize)
        requires
            old(self).wf(),
            old(self).has_room(),
            paths.wf(),
            c@.len() > 0,
            candidates_ordered(c@),
            tied@.len() == c@.len(),
            exists|i: int| 0 <= i < tied@.len() && #[trigger] tied@[i],
        ensures
            final(self).wf(),
            exists|b: usize|
                {
                    &&& #[trigger] pool(old(self).arms@, c@, explore, tied@, c@.len()).contains(b)
                    &&& pid == c@[b as int].pid
                    &&& final(self)@ == greedy_selected(old(self)@, c@, b as int, paths@, now)
                },
    {
        let drawn = self.draw_pool(c, explore, tied);
        let k: usize = random_index(drawn.len());
        let b: usize = drawn[k];
        self.select_candidate(c, b, paths, now);
        assert(drawn@[k as int] == b);
        assert(drawn@.contains(b));
        c[b].pid
    }
}

// ───────────────────────────── feedback ─────────────────────────────

/// The largest pacing rate of the active paths.
pub open spec fn most_active_pacing(paths: Seq<Path>) -> u64
    decreases paths.len(),
{
    if paths.len() == 0 {
        0
    } else {
        let before = most_active_pacing(paths.drop_last());
        if paths.last().active && paths.last().pacing() > before {
            paths.last().pacing()
        } else {
            before
        }
    }
}

/// The counters of a path.
pub open spec fn path_counters(p: Path) -> Counters {
    Counters {
        acked_pkts: p.acked_count,
        lost_pkts: p.lost_count,
        sent_bytes: p.sent_bytes,
        acked_bytes: p.acked_bytes,
        lost_bytes: p.lost_bytes,
    }
}

/// What feedback on a path asks of its model.
#[derive(Debug, Clone, Copy, PartialEq, Eq, Structural)]
pub struct AckOutcome {
    /// How the smoothed loss changes.
    pub loss: Option<LossUpdate>,
    /// What the model is trained with.
    pub training: Option<Feedback>,
    /// Model updates before this one.
    pub samples: u64,
}

/// The arm of the path, new where it has none.
pub open spec fn arm_or_new(m: GreedyModel, pid: int) -> ArmState {
    match at(m.arms, pid, None) {
        Some(a) => a,
        None => new_arm(),
    }
}

/// The feedback on the path.
pub open spec fn path_feedback(m: GreedyModel, p: Path, paths: Seq<Path>, now: u64) -> (
    ArmState,
    Option<LossUpdate>,
    Option<Feedback>,
) {
    feedback(
        arm_or_new(m, p.id as int),
        now,
        path_counters(p),
        at_least_one(p.smoothed_rtt),
        p.pacing(),
        most_active_pacing(paths),
        p.bytes_in_flight as u64,
        p.cwnd,
    )
}

/// The scheduler after feedback on the path.
pub open spec fn greedy_acked(m: GreedyModel, p: Path, paths: Seq<Path>, now: u64) -> GreedyModel {
    let (a, loss, f) = path_feedback(m, p, paths, now);
    if f is Some {
        logged(
            GreedyModel { arms: placed(m.arms, p.id as int, Some(sampled(a)), None), ..m },
            now,
            GreedyEventModel::Update {
                path_id: p.id,
                arm: sampled(a),
                source: UpdateSource::AckFeedback,
            },
        )
    } else {
        GreedyModel { arms: placed(m.arms, p.id as int, Some(a), None), ..m }
    }
}

impl EpsilonGreedyScheduler {
    /// Trains the stale decisions, and takes the feedback of an acknowledgement
    /// on the path in; `None` for an unknown path.
    pub fn on_ack(&mut self, now: u64, path_id: usize, paths: &PathMap) -> (r: (
        Vec<StaleTraining>,
        Option<AckOutcome>,
    ))
        requires
            old(self).wf(),
            paths.wf(),
            samples_total(old(self).arms@) + old(self).arms@.len() < u64::MAX,
        ensures
            final(self).wf(),
            r.0@ == stale_trainings(old(self).arms@, now, old(self).arms@.len()),
            ({
                let m = stale_trained(old(self)@, now, old(self).arms@.len());
                let k = index_of(paths@, path_id);
                if k < paths@.len() {
                    let f = path_feedback(m, paths@[k], paths@, now);
                    &&& r.1 == Some(
                        AckOutcome {
                            loss: f.1,
                            training: f.2,
                            samples: arm_or_new(m, path_id as int).samples,
                        },
                    )
                    &&& final(self)@ == greedy_acked(m, paths@[k], paths@, now)
                } else {
                    r.1 is None && final(self)@ == m
                }
            }),
    {
        proof {
            lemma_stale_arms(self@, now, self.arms@.len());
        }
        let stale = self.train_stale_pending_decisions(now);
        let outcome = self.take_feedback(now, path_id, paths);
        (stale, outcome)
    }

    /// Takes the feedback of an acknowledgement on the path in; `None` for an
    /// unknown path.
    pub fn take_feedback(&mut self, now: u64, path_id: usize, paths: &PathMap) -> (r: Option<
        AckOutcome,
    >)
        requires
            old(self).wf(),
            paths.wf(),
            samples_total(old(self).arms@) < u64::MAX,
        ensures
            final(self).wf(),
            ({
                let k = index_of(paths@, path_id);
                if k < paths@.len() {
                    let f = path_feedback(old(self)@, paths@[k], paths@, now);
                    &&& r == Some(
                        AckOutcome {
                            loss: f.1,
                            training: f.2,
                            samples: arm_or_new(old(self)@, path_id as int).samples,
                        },
                    )
                    &&& final(self)@ == greedy_acked(old(self)@, paths@[k], paths@, now)
                } else {
                    r is None && final(self)@ == old(self)@
                }
            }),
    {
        let ghost m = self@;
        let mut max_pacing: u64 = 0;
        let mut i: usize = 0;
        assert(paths@.subrange(0, 0) =~= Seq::<Path>::empty());
        while i < paths.paths.len()
            invariant
                i <= paths@.len(),
                max_pacing == most_active_pacing(paths@.subrange(0, i as int)),
            decreases paths@.len() - i,
        {
            assert(paths@.subrange(0, i + 1).drop_last() =~= paths@.subrange(0, i as int));
            let pacing: u64 = paths.paths[i].pacing_or_zero();
            if paths.paths[i].active && pacing > max_pacing {
                max_pacing = pacing;
            }
            i += 1;
        }
        assert(paths@.subrange(0, i as int) =~= paths@);
        let k: usize = paths.position(path_id);
        if k >= paths.paths.len() {
            return None;
        }
        let p = &paths.paths[k];
        let mut arm = match get(&self.arms, path_id, None) {
            Some(a) => a,
            None => ArmState::new(),
        };
        let samples: u64 = arm.samples;
        let rtt: u64 = if p.smoothed_rtt >= 1 {
            p.smoothed_rtt
        } else {
            1
        };
        let counters = Counters {
            acked_pkts: p.acked_count,
            lost_pkts: p.lost_count,
            sent_bytes: p.sent_bytes,
            acked_bytes: p.acked_bytes,
            lost_bytes: p.lost_bytes,
        };
        let (loss, training) = record_feedback_counters(
            &mut arm,
            now,
            counters,
            rtt,
            p.pacing_or_zero(),
            max_pacing,
            p.bytes_in_flight,
            p.cwnd,
        );
        proof {
            if path_id < m.arms.len() {
                lemma_samples_at_most_total(m.arms, path_id as int);
            }
            assert(arm.samples == samples);
        }
        if training.is_some() {
            arm.samples += 1;
            put(&mut self.arms, path_id, Some(arm), None);
            proof {
                lemma_samples_placed(m.arms, path_id as int, Some(arm));
            }
            self.log(
                now,
                GreedyEvent::Update { path_id, arm, source: UpdateSource::AckFeedback },
            );
        } else {
            put(&mut self.arms, path_id, Some(arm), None);
        }
        assert(self@ =~= greedy_acked(m, *p, paths@, now));
        Some(AckOutcome { loss, training, samples })
    }
}

// ───────────────────────────── rendering ─────────────────────────────

/// The rendered values of one candidate.
pub struct CandidateCells {
    pub selection_pct: String,
    pub prediction: String,
    pub loss_ewma: String,
    pub x_latency: String,
    pub x_cwnd: String,
    pub x_reliability: String,
    pub x_pacing: String,
    pub theta_latency: String,
    pub theta_cwnd: String,
    pub theta_reliability: String,
    pub theta_pacing: String,
    pub theta_bias: String,
}

/// The rendered values of a model update.
pub struct UpdateCells {
    pub reward: String,
    pub loss_ewma: String,
    pub x_latency: String,
    pub x_cwnd: String,
    pub x_reliability: String,
    pub x_pacing: String,
    pub x_bias: String,
    pub theta_latency: String,
    pub theta_cwnd: String,
    pub theta_reliability: String,
    pub theta_pacing: String,
    pub theta_bias: String,
}

/// The fields of a candidate, behind those in `head`.
pub open spec fn candidate_fields(
    head: Seq<(Seq<char>, Seq<char>)>,
    row: GreedyRow,
    c: CandidateCells,
) -> Seq<(Seq<char>, Seq<char>)> {
    let pid = row.pid as nat;
    head.push(
        (path_key("epsilon_greedy/path"@, pid, "_selection_pct"@), c.selection_pct@),
    ).push(
        (path_key("epsilon_greedy/path"@, pid, "_prediction"@), c.prediction@),
    ).push(
        (path_key("epsilon_greedy/path"@, pid, "_samples"@), decimal(row.arm.samples as nat)),
    ).push(
        (path_key("epsilon_greedy/path"@, pid, "_selections"@), decimal(row.arm.selections as nat)),
    ).push(
        (path_key("epsilon_greedy/path"@, pid, "_pending"@), decimal(row.arm.pending_decisions as nat)),
    ).push(
        (path_key("epsilon_greedy/path"@, pid, "_loss_ewma"@), c.loss_ewma@),
    ).push(
        (path_key("epsilon_greedy/path"@, pid, "_x_latency"@), c.x_latency@),
    ).push(
        (path_key("epsilon_greedy/path"@, pid, "_x_cwnd"@), c.x_cwnd@),
    ).push(
        (path_key("epsilon_greedy/path"@, pid, "_x_reliability"@), c.x_reliability@),
    ).push(
        (path_key("epsilon_greedy/path"@, pid, "_x_pacing"@), c.x_pacing@),
    ).push(
        (path_key("epsilon_greedy/path"@, pid, "_theta_latency"@), c.theta_latency@),
    ).push(
        (path_key("epsilon_greedy/path"@, pid, "_theta_cwnd"@), c.theta_cwnd@),
    ).push(
        (path_key("epsilon_greedy/path"@, pid, "_theta_reliability"@), c.theta_reliability@),
    ).push(
        (path_key("epsilon_greedy/path"@, pid, "_theta_pacing"@), c.theta_pacing@),
    ).push(
        (path_key("epsilon_greedy/path"@, pid, "_theta_bias"@), c.theta_bias@),
    )
}

fn put_candidate_fields(f: &mut Fields, row: &GreedyRow, c: &CandidateCells)
    ensures
        final(f)@ == candidate_fields(old(f)@, *row, *c),
{
    let pid: usize = row.pid;
    f.put(make_path_key("epsilon_greedy/path", pid, "_selection_pct"), c.selection_pct.clone());
    f.put(make_path_key("epsilon_greedy/path", pid, "_prediction"), c.prediction.clone());
    f.put(make_path_key("epsilon_greedy/path", pid, "_samples"), decimal_string(row.arm.samples));
    f.put(make_path_key("epsilon_greedy/path", pid, "_selections"), decimal_string(row.arm.selections));
    f.put(make_path_key("epsilon_greedy/path", pid, "_pending"), decimal_string(row.arm.pending_decisions));
    f.put(make_path_key("epsilon_greedy/path", pid, "_loss_ewma"), c.loss_ewma.clone());
    f.put(make_path_key("epsilon_greedy/path", pid, "_x_latency"), c.x_latency.clone());
    f.put(make_path_key("epsilon_greedy/path", pid, "_x_cwnd"), c.x_cwnd.clone());
    f.put(make_path_key("epsilon_greedy/path", pid, "_x_reliability"), c.x_reliability.clone());
    f.put(make_path_key("epsilon_greedy/path", pid, "_x_pacing"), c.x_pacing.clone());
    f.put(make_path_key("epsilon_greedy/path", pid, "_theta_latency"), c.theta_latency.clone());
    f.put(make_path_key("epsilon_greedy/path", pid, "_theta_cwnd"), c.theta_cwnd.clone());
    f.put(make_path_key("epsilon_greedy/path", pid, "_theta_reliability"), c.theta_reliability.clone());
    f.put(make_path_key("epsilon_greedy/path", pid, "_theta_pacing"), c.theta_pacing.clone());
    f.put(make_path_key("epsilon_greedy/path", pid, "_theta_bias"), c.theta_bias.clone());
}

/// The fields of the candidates, behind those in `head`.
pub open spec fn candidates_fields(
    head: Seq<(Seq<char>, Seq<char>)>,
    rows: Seq<GreedyRow>,
    cells: Seq<CandidateCells>,
) -> Seq<(Seq<char>, Seq<char>)>
    decreases rows.len(),
{
    if rows.len() == 0 || cells.len() == 0 {
        head
    } else {
        candidate_fields(
            candidates_fields(head, rows.drop_last(), cells.drop_last()),
            rows.last(),
            cells.last(),
        )
    }
}

/// The fields that a selection record starts with.
pub open spec fn selection_head(
    head: Seq<(Seq<char>, Seq<char>)>,
    selected: usize,
    epsilon: Seq<char>,
) -> Seq<(Seq<char>, Seq<char>)> {
    head.push(("epsilon_greedy/event"@, "\"selection_snapshot\""@)).push(
        ("epsilon_greedy/selected_path"@, decimal(selected as nat)),
    ).push(("epsilon_greedy/epsilon"@, epsilon))
}

/// The name of an update source, as a JSON string.
pub open spec fn source_text(s: UpdateSource) -> Seq<char> {
    match s {
        UpdateSource::AckFeedback => "\"ack_feedback\""@,
        UpdateSource::StaleTimeout => "\"stale_timeout\""@,
    }
}

/// The fields of an update record, behind those in `head`.
pub open spec fn update_fields(
    head: Seq<(Seq<char>, Seq<char>)>,
    path_id: usize,
    arm: ArmState,
    source: UpdateSource,
    epsilon: Seq<char>,
    c: UpdateCells,
) -> Seq<(Seq<char>, Seq<char>)> {
    head.push(
        ("epsilon_greedy/event"@, "\"model_update\""@),
    ).push(
        ("epsilon_greedy/update_source"@, source_text(source)),
    ).push(
        ("epsilon_greedy/path"@, decimal(path_id as nat)),
    ).push(
        ("epsilon_greedy/reward"@, c.reward@),
    ).push(
        ("epsilon_greedy/epsilon"@, epsilon),
    ).push(
        ("epsilon_greedy/x_latency"@, c.x_latency@),
    ).push(
        ("epsilon_greedy/x_cwnd"@, c.x_cwnd@),
    ).push(
        ("epsilon_greedy/x_reliability"@, c.x_reliability@),
    ).push(
        ("epsilon_greedy/x_pacing"@, c.x_pacing@),
    ).push(
        ("epsilon_greedy/x_bias"@, c.x_bias@),
    ).push(
        ("epsilon_greedy/samples"@, decimal(arm.samples as nat)),
    ).push(
        ("epsilon_greedy/selections"@, decimal(arm.selections as nat)),
    ).push(
        ("epsilon_greedy/pending"@, decimal(arm.pending_decisions as nat)),
    ).push(
        ("epsilon_greedy/loss_ewma"@, c.loss_ewma@),
    ).push(
        ("epsilon_greedy/theta_latency"@, c.theta_latency@),
    ).push(
        ("epsilon_greedy/theta_cwnd"@, c.theta_cwnd@),
    ).push(
        ("epsilon_greedy/theta_reliability"@, c.theta_reliability@),
    ).push(
        ("epsilon_greedy/theta_pacing"@, c.theta_pacing@),
    ).push(
        ("epsilon_greedy/theta_bias"@, c.theta_bias@),
    )
}

fn source_string(s: UpdateSource) -> (r: String)
    ensures
        r@ == source_text(s),
{
    match s {
        UpdateSource::AckFeedback => String::from_str("\"ack_feedback\""),
        UpdateSource::StaleTimeout => String::from_str("\"stale_timeout\""),
    }
}

fn put_update_fields(
    f: &mut Fields,
    path_id: usize,
    arm: &ArmState,
    source: UpdateSource,
    epsilon: &str,
    c: &UpdateCells,
)
    ensures
        final(f)@ == update_fields(old(f)@, path_id, *arm, source, epsilon@, *c),
{
    f.put(String::from_str("epsilon_greedy/event"), String::from_str("\"model_update\""));
    f.put(String::from_str("epsilon_greedy/update_source"), source_string(source));
    f.put(String::from_str("epsilon_greedy/path"), decimal_string(path_id as u64));
    f.put(String::from_str("epsilon_greedy/reward"), c.reward.clone());
    f.put(String::from_str("epsilon_greedy/epsilon"), String::from_str(epsilon));
    f.put(String::from_str("epsilon_greedy/x_latency"), c.x_latency.clone());
    f.put(String::from_str("epsilon_greedy/x_cwnd"), c.x_cwnd.clone());
    f.put(String::from_str("epsilon_greedy/x_reliability"), c.x_reliability.clone());
    f.put(String::from_str("epsilon_greedy/x_pacing"), c.x_pacing.clone());
    f.put(String::from_str("epsilon_greedy/x_bias"), c.x_bias.clone());
    f.put(String::from_str("epsilon_greedy/samples"), decimal_string(arm.samples));
    f.put(String::from_str("epsilon_greedy/selections"), decimal_string(arm.selections));
    f.put(String::from_str("epsilon_greedy/pending"), decimal_string(arm.pending_decisions));
    f.put(String::from_str("epsilon_greedy/loss_ewma"), c.loss_ewma.clone());
    f.put(String::from_str("epsilon_greedy/theta_latency"), c.theta_latency.clone());
    f.put(String::from_str("epsilon_greedy/theta_cwnd"), c.theta_cwnd.clone());
    f.put(String::from_str("epsilon_greedy/theta_reliability"), c.theta_reliability.clone());
    f.put(String::from_str("epsilon_greedy/theta_pacing"), c.theta_pacing.clone());
    f.put(String::from_str("epsilon_greedy/theta_bias"), c.theta_bias.clone());
}

impl GreedyRecord {
    /// The metrics line of a selection record, given the rendered exploration
    /// rate and the rendered values of each candidate; `None` for another record.
    pub fn selection_line(&self, epsilon: &str, cells: &Vec<CandidateCells>) -> (r: Option<String>)
        requires
            self@.event matches GreedyEventModel::Selection { rows, .. } ==> rows.len()
                == cells@.len(),
        ensures
            match self@.event {
                GreedyEventModel::Selection { selected, rows } => r is Some && r.unwrap()@
                    == json_line(
                    candidates_fields(
                        selection_head(
                            step_fields(self@.step, self@.timestamp, self@.elapsed_s),
                            selected,
                            epsilon@,
                        ),
                        rows,
                        cells@,
                    ),
                ),
                _ => r is None,
            },
    {
        match &self.event {
            GreedyEvent::Selection { selected, rows } => {
                let mut f = make_step_fields(self.step, self.timestamp, self.elapsed_s);
                f.put(
                    String::from_str("epsilon_greedy/event"),
                    String::from_str("\"selection_snapshot\""),
                );
                f.put(
                    String::from_str("epsilon_greedy/selected_path"),
                    decimal_string(*selected as u64),
                );
                f.put(String::from_str("epsilon_greedy/epsilon"), String::from_str(epsilon));
                let ghost head = f@;
                let mut i: usize = 0;
                while i < rows.len()
                    invariant
                        i <= rows@.len() == cells@.len(),
                        f@ == candidates_fields(
                            head,
                            rows@.subrange(0, i as int),
                            cells@.subrange(0, i as int),
                        ),
                    decreases rows@.len() - i,
                {
                    proof {
                        let rs = rows@.subrange(0, i + 1);
                        let cs = cells@.subrange(0, i + 1);
                        assert(rs.drop_last() =~= rows@.subrange(0, i as int));
                        assert(cs.drop_last() =~= cells@.subrange(0, i as int));
                    }
                    put_candidate_fields(&mut f, &rows[i], &cells[i]);
                    i += 1;
                }
                assert(rows@.subrange(0, i as int) =~= rows@);
                assert(cells@.subrange(0, i as int) =~= cells@);
                Some(f.line())
            },
            GreedyEvent::Update { .. } => None,
        }
    }

    /// The metrics line of an update record, given the rendered exploration rate
    /// and the rendered values of the model; `None` for another record.
    pub fn update_line(&self, epsilon: &str, cells: &UpdateCells) -> (r: Option<String>)
        ensures
            match self@.event {
                GreedyEventModel::Update { path_id, arm, source } => r is Some && r.unwrap()@
                    == json_line(
                    update_fields(
                        step_fields(self@.step, self@.timestamp, self@.elapsed_s),
                        path_id,
                        arm,
                        source,
                        epsilon@,
                        *cells,
                    ),
                ),
                _ => r is None,
            },
    {
        match &self.event {
            GreedyEvent::Update { path_id, arm, source } => {
                let mut f = make_step_fields(self.step, self.timestamp, self.elapsed_s);
                put_update_fields(&mut f, *path_id, arm, *source, epsilon, cells);
                Some(f.line())
            },
            GreedyEvent::Selection { .. } => None,
        }
    }
}

// ───────────────────────────── summary ─────────────────────────────

/// The rendered smoothed loss and weights of a path, the weights separated by
/// commas.
pub struct ArmCells {
    pub loss_ewma: String,
    pub theta: String,
}

/// The line of one path in the summary.
pub open spec fn arm_text(pid: nat, a: ArmState, c: ArmCells) -> Seq<char> {
    "  path["@ + decimal(pid) + "] updates="@ + decimal(a.samples as nat) + " selections="@
        + decimal(a.selections as nat) + " pending="@ + decimal(a.pending_decisions as nat)
        + " loss_ewma="@ + c.loss_ewma@ + " theta=["@ + c.theta@ + "]\n"@
}

/// The lines of the updated paths among the first `n`.
pub open spec fn arms_text(
    arms: Seq<Option<ArmState>>,
    cells: Seq<ArmCells>,
    n: nat,
) -> Seq<char>
    decreases n,
{
    if n == 0 {
        Seq::empty()
    } else {
        let before = arms_text(arms, cells, (n - 1) as nat);
        match arms[n - 1] {
            Some(a) if a.samples > 0 => before + arm_text((n - 1) as nat, a, cells[n - 1]),
            _ => before,
        }
    }
}

/// No model was updated.
pub open spec fn untrained(arms: Seq<Option<ArmState>>) -> bool {
    forall|i: int| 0 <= i < arms.len() ==> samples_of(#[trigger] arms[i]) == 0
}

impl EpsilonGreedyScheduler {
    /// The summary of the run, given the rendered exploration rate and the
    /// rendered model of each path; `None` where no model was updated.
    pub fn scheduler_summary(&self, epsilon: &str, cells: &Vec<ArmCells>) -> (r: Option<String>)
        requires
            cells@.len() == self.arms@.len(),
        ensures
            match r {
                Some(s) => !untrained(self.arms@) && s@
                    == "Epsilon-greedy scheduler summary\n  epsilon_current="@ + epsilon@ + "\n"@
                    + arms_text(self.arms@, cells@, self.arms@.len()),
                None => untrained(self.arms@),
            },
    {
        let mut body = String::new();
        let mut any = false;
        let mut i: usize = 0;
        assert(body@ =~= arms_text(self.arms@, cells@, 0));
        while i < self.arms.len()
            invariant
                i <= self.arms@.len() == cells@.len(),
                body@ == arms_text(self.arms@, cells@, i as nat),
                !any <==> forall|j: int|
                    0 <= j < i ==> samples_of(#[trigger] self.arms@[j]) == 0,
            decreases self.arms@.len() - i,
        {
            if let Some(a) = &self.arms[i] {
                if a.samples > 0 {
                    any = true;
                    let mut s = String::from_str("  path[");
                    push_decimal(&mut s, i as u64);
                    s.append("] updates=");
                    push_decimal(&mut s, a.samples);
                    s.append(" selections=");
                    push_decimal(&mut s, a.selections);
                    s.append(" pending=");
                    push_decimal(&mut s, a.pending_decisions);
                    s.append(" loss_ewma=");
                    s.append(cells[i].loss_ewma.as_str());
                    s.append(" theta=[");
                    s.append(cells[i].theta.as_str());
                    s.append("]\n");
                    body.append(s.as_str());
                    assert(samples_of(self.arms@[i as int]) > 0);
                }
            }
            i += 1;
        }
        if !any {
            return None;
        }
        let mut out = String::from_str("Epsilon-greedy scheduler summary\n  epsilon_current=");
        out.append(epsilon);
        out.append("\n");
        out.append(body.as_str());
        Some(out)
    }
}

} // verus!
