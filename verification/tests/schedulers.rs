//! The three schedulers on simulated paths.

use tquic_bench::paths::{Error, Path, PathMap};
use tquic_bench::scheduler_epsilon_greedy as greedy;
use tquic_bench::scheduler_linucb as linucb;
use tquic_bench::scheduler_rr::RoundRobinScheduler;
use tquic_bench::scores::{rest_of, Score};

const SEC: u64 = 1_000_000_000;
const UNIX: u64 = 1_700_000_000;

/// Paths that can be added and switched off.
struct Tester {
    paths: PathMap,
}

impl Tester {
    fn new() -> Self {
        let mut t = Tester { paths: PathMap { paths: Vec::new() } };
        t.add_path("127.0.0.1:443", "127.0.0.1:8443", 200);
        t
    }

    fn add_path(&mut self, local: &str, remote: &str, rtt_ms: u64) {
        let ip = |a: &str| a.rsplit_once(':').unwrap().0.to_string();
        let mut p = Path::new(self.paths.paths.len(), ip(local), false, ip(remote));
        p.smoothed_rtt = rtt_ms * 1_000_000;
        p.latest_rtt = p.smoothed_rtt;
        p.min_rtt = p.smoothed_rtt;
        p.cwnd = 14_720;
        self.paths.paths.push(p);
    }

    fn set_path_active(&mut self, id: usize, active: bool) {
        self.paths.paths[id].active = active;
    }
}

fn value(s: &Score) -> f64 {
    let q = s.num as f64 / s.den as f64;
    if s.complement {
        1.0 - q
    } else {
        q
    }
}

// ── round robin ──────────────────────────────────────────────────────────────

#[test]
fn round_robin_single_available_path() {
    let t = Tester::new();
    let mut s = RoundRobinScheduler::new(0, UNIX);
    assert_eq!(s.on_select(&t.paths, 0), Ok(0));
    assert_eq!(s.on_select(&t.paths, 0), Ok(0));
}

#[test]
fn round_robin_multi_available_path() {
    let mut t = Tester::new();
    t.add_path("127.0.0.1:443", "127.0.0.2:8443", 50);
    t.add_path("127.0.0.1:443", "127.0.0.3:8443", 150);
    t.add_path("127.0.0.1:443", "127.0.0.4:8443", 100);

    let mut s = RoundRobinScheduler::new(0, UNIX);
    assert_eq!(s.on_select(&t.paths, 0), Ok(0));
    assert_eq!(s.on_select(&t.paths, 0), Ok(1));
    assert_eq!(s.on_select(&t.paths, 0), Ok(2));
    assert_eq!(s.on_select(&t.paths, 0), Ok(3));

    t.set_path_active(1, false);
    assert_eq!(s.on_select(&t.paths, 0), Ok(0));
    assert_eq!(s.on_select(&t.paths, 0), Ok(2));

    t.set_path_active(3, false);
    assert_eq!(s.on_select(&t.paths, 0), Ok(0));
}

#[test]
fn round_robin_no_available_path() {
    let mut t = Tester::new();
    t.set_path_active(0, false);
    let mut s = RoundRobinScheduler::new(0, UNIX);
    assert_eq!(s.on_select(&t.paths, 0), Err(Error::Done));
}

#[test]
fn round_robin_keeps_an_equal_split() {
    let mut t = Tester::new();
    t.add_path("127.0.0.1:443", "127.0.0.2:8443", 50);
    t.add_path("127.0.0.1:443", "127.0.0.3:8443", 150);
    let mut s = RoundRobinScheduler::new(0, UNIX);
    let mut counts = [0u64; 3];
    for _ in 0..10 {
        counts[s.on_select(&t.paths, 0).unwrap()] += 1;
    }
    assert_eq!(counts, [4, 3, 3]);
}

#[test]
fn round_robin_skips_a_full_congestion_window() {
    let mut t = Tester::new();
    t.add_path("127.0.0.1:443", "127.0.0.2:8443", 50);
    t.paths.paths[0].can_send = false;
    let mut s = RoundRobinScheduler::new(0, UNIX);
    assert_eq!(s.on_select(&t.paths, 0), Ok(1));
    assert_eq!(s.on_select(&t.paths, 0), Ok(1));
    t.paths.paths[0].can_send = true;
    assert_eq!(s.on_select(&t.paths, 0), Ok(0));
}

#[test]
fn round_robin_runs_through_the_paths_in_order() {
    let mut t = Tester::new();
    t.add_path("127.0.0.1:443", "127.0.0.2:8443", 50);
    t.add_path("127.0.0.1:443", "127.0.0.3:8443", 150);
    t.set_path_active(1, false);
    let mut s = RoundRobinScheduler::new(0, UNIX);
    let picks: Vec<usize> = (0..5).map(|_| s.on_select(&t.paths, 0).unwrap()).collect();
    assert_eq!(picks, vec![0, 2, 0, 2, 0]);
    t.set_path_active(1, true);
    let picks: Vec<usize> = (0..4).map(|_| s.on_select(&t.paths, 0).unwrap()).collect();
    assert_eq!(picks, vec![1, 1, 1, 2]);
}

#[test]
fn traffic_records_run_in_step() {
    let mut t = Tester::new();
    let mut s = RoundRobinScheduler::new(SEC, UNIX);
    s.on_select(&t.paths, SEC).unwrap();
    t.paths.paths[0].sent_bytes = 3_000_000;
    s.on_select(&t.paths, 4 * SEC).unwrap();
    s.on_select(&t.paths, 4 * SEC + 7).unwrap();
    s.on_select(&t.paths, 5 * SEC + 9).unwrap();
    let r = &s.metrics.records;
    let steps: Vec<u64> = r.iter().map(|x| x.step).collect();
    let times: Vec<(u64, u64)> = r.iter().map(|x| (x.elapsed_s, x.timestamp - UNIX)).collect();
    assert_eq!(steps, vec![0, 1, 2]);
    assert_eq!(times, vec![(0, 0), (3, 3), (4, 4)]);
    assert_eq!((r[0].window_ns, r[1].window_ns), (None, Some(3 * SEC)));
    assert_eq!((r[1].rows[0].delta_bytes, r[2].window_ns), (3_000_000, Some(SEC + 9)));
    assert_eq!(s.metrics.elapsed_and_timestamp(9 * SEC + 3), (8, UNIX + 8));
    assert_eq!(s.metrics.elapsed_and_timestamp(11 * SEC + 3), (10, UNIX + 10));
}

#[test]
fn traffic_is_recorded_once_per_second() {
    let mut t = Tester::new();
    t.add_path("127.0.0.1:443", "127.0.0.2:8443", 50);
    let mut s = RoundRobinScheduler::new(0, UNIX);
    s.on_select(&t.paths, 5 * SEC).unwrap();
    assert_eq!(s.metrics.records.len(), 1);
    assert_eq!(s.metrics.records[0].timestamp, UNIX + 5);
    assert_eq!(s.metrics.elapsed_and_timestamp(7 * SEC + 1), (7, UNIX + 7));
    t.paths.paths[0].sent_bytes = 4000;
    for i in 0..3 {
        s.on_select(&t.paths, 5 * SEC + 100 + i).unwrap();
    }
    assert_eq!(s.metrics.records.len(), 1);
    s.on_select(&t.paths, 6 * SEC).unwrap();
    assert_eq!(s.metrics.records.len(), 2);
    let rows = &s.metrics.records[1].rows;
    assert_eq!((rows[0].count, rows[1].count, rows[0].total), (2, 2, 4));
    assert_eq!(rows[0].delta_bytes, 4000);
    assert_eq!(rows[1].rtt_us, 50_000);
    assert_eq!(s.metrics.window_total, 0);
}

#[test]
fn traffic_line_is_flat_json() {
    let t = Tester::new();
    let mut s = RoundRobinScheduler::new(0, UNIX);
    s.on_select(&t.paths, 2 * SEC).unwrap();
    let cells = tquic_bench::traffic_metrics::TrafficCells {
        pct: "100.00".to_string(),
        rtt_ms: "200.000".to_string(),
        mbps: "0.000".to_string(),
        cwnd_kb: "14.4".to_string(),
        inflight_kb: "0.0".to_string(),
        pacing_mbps: "0.000".to_string(),
    };
    assert_eq!(
        s.metrics.records[0].line(&vec![cells]),
        "{\"_step\":0,\"_timestamp\":1700000002,\"t\":2,\"traffic/path0_pct\":100.00,\"latency/path0_rtt_ms\":200.000,\"throughput/path0_mbps\":0.000,\"congestion/path0_cwnd_KB\":14.4,\"congestion/path0_inflight_KB\":0.0,\"congestion/path0_pacing_mbps\":0.000,\"loss/path0_sent\":0,\"loss/path0_lost\":0}"
    );
}

// ── LinUCB ───────────────────────────────────────────────────────────────────

const D: usize = 5;

#[derive(Clone)]
struct Arm {
    a: [[f64; D]; D],
    b: [f64; D],
}

impl Arm {
    fn new() -> Self {
        let mut a = [[0.0; D]; D];
        for i in 0..D {
            a[i][i] = 1.0;
        }
        Arm { a, b: [0.0; D] }
    }

    fn with_theta(theta: [f64; D]) -> Self {
        Arm { b: theta, ..Arm::new() }
    }

    fn update(&mut self, x: [f64; D], reward: f64) {
        for i in 0..D {
            for j in 0..D {
                self.a[i][j] += x[i] * x[j];
            }
            self.b[i] += reward * x[i];
        }
    }

    /// Solves `a · y = v`.
    fn solve(&self, v: [f64; D]) -> [f64; D] {
        let mut a = self.a;
        let mut y = v;
        for col in 0..D {
            let pivot = (col..D)
                .max_by(|p, q| a[*p][col].abs().total_cmp(&a[*q][col].abs()))
                .unwrap();
            a.swap(col, pivot);
            y.swap(col, pivot);
            for row in 0..D {
                if row != col {
                    let f = a[row][col] / a[col][col];
                    for j in 0..D {
                        a[row][j] -= f * a[col][j];
                    }
                    y[row] -= f * y[col];
                }
            }
        }
        for i in 0..D {
            y[i] /= a[i][i];
        }
        y
    }

    fn score(&self, x: [f64; D], alpha: f64) -> f64 {
        let dot = |p: [f64; D], q: [f64; D]| (0..D).map(|i| p[i] * q[i]).sum::<f64>();
        dot(self.solve(self.b), x) + alpha * dot(x, self.solve(x)).max(0.0).sqrt()
    }
}

fn features(x: &linucb::Context) -> [f64; D] {
    [
        value(&x.latency),
        value(&x.cwnd_headroom),
        value(&x.reliability),
        value(&x.relative_pacing),
        1.0,
    ]
}

fn reward(r: &linucb::RewardParts, ema_ns: f64) -> f64 {
    let rtt_norm = (ema_ns / r.min_rtt_ns as f64).clamp(1.0, 4.0);
    (value(&r.delivery) * (1.0 - rtt_norm).exp() * value(&r.headroom).sqrt()).clamp(0.0, 1.0)
}

fn select(
    s: &mut linucb::LinUCBScheduler,
    arms: &mut Vec<Arm>,
    paths: &PathMap,
    now: u64,
) -> Result<usize, Error> {
    let (stale, plan) = s.begin_select(paths, now);
    for (pid, x) in stale {
        arms[pid].update(features(&x), 0.0);
    }
    let plan = plan?;
    let mut scores = Vec::new();
    for i in 0..plan.stats.len() {
        let alpha = (1.0 / ((plan.selections[i] + 1) as f64).sqrt()).max(0.15);
        let arm = &arms[plan.stats[i].pid];
        scores.push(arm.score(features(&plan.contexts[i]), alpha).to_bits());
    }
    Ok(s.on_select(&plan, &scores, paths, now))
}

#[test]
fn linucb_single_path() {
    let t = Tester::new();
    let mut s = linucb::LinUCBScheduler::new(0, UNIX);
    let mut arms = vec![Arm::new()];
    assert_eq!(select(&mut s, &mut arms, &t.paths, 0), Ok(0));
}

#[test]
fn linucb_multi_path_selects_valid() {
    let mut t = Tester::new();
    t.add_path("127.0.0.1:443", "127.0.0.2:8443", 50);
    t.add_path("127.0.0.1:443", "127.0.0.3:8443", 150);
    let mut s = linucb::LinUCBScheduler::new(0, UNIX);
    let mut arms = vec![Arm::new(); 3];
    let pid = select(&mut s, &mut arms, &t.paths, 0).unwrap();
    assert!(pid <= 2);
}

#[test]
fn linucb_features_are_higher_is_better() {
    let good = features(&linucb::make_context(50, 50, 0, 12_000, 0, 4, 4_000, 4_000));
    let bad = features(&linucb::make_context(200, 50, 12_000, 12_000, 3, 4, 0, 4_000));

    assert!(good[0] > bad[0], "lower RTT should score higher");
    assert!(good[1] > bad[1], "more cwnd headroom should score higher");
    assert!(good[2] > bad[2], "lower loss should score higher");
    assert!(good[3] > bad[3], "higher relative pacing should score higher");
    assert_eq!(bad[3], 0.0, "zero pacing rate should not look neutral");
    assert_eq!(good[4], 1.0);
    assert_eq!(bad[2], 0.25);
}

#[test]
fn linucb_ucb_winner_is_selected() {
    let mut t = Tester::new();
    t.add_path("127.0.0.1:443", "127.0.0.2:8443", 50);
    let mut s = linucb::LinUCBScheduler::new(0, UNIX);
    s.total_counts.resize(2, 10_000);
    let mut arms = vec![
        Arm::with_theta([-10.0, -10.0, -10.0, -10.0, -10.0]),
        Arm::with_theta([10.0, 10.0, 10.0, 10.0, 10.0]),
    ];
    assert_eq!(select(&mut s, &mut arms, &t.paths, 0), Ok(1));
}

#[test]
fn linucb_bad_path_stops_receiving_after_low_rewards() {
    let mut t = Tester::new();
    t.add_path("127.0.0.1:443", "127.0.0.2:8443", 50);
    let mut s = linucb::LinUCBScheduler::new(0, UNIX);
    let mut arms = vec![Arm::new(), Arm::new()];
    let bad_x = [0.25, 0.2, 0.1, 0.2, 1.0];
    let good_x = [1.0, 1.0, 1.0, 1.0, 1.0];
    for _ in 0..12 {
        arms[0].update(bad_x, 0.0);
        arms[1].update(good_x, 1.0);
    }
    s.total_counts.resize(2, 100);
    assert_eq!(select(&mut s, &mut arms, &t.paths, 0), Ok(1));
}

#[test]
fn linucb_stalled_path_receives_zero_reward() {
    let mut s = linucb::LinUCBScheduler::new(0, UNIX);
    let mut arm = Arm::new();
    let now = 10 * SEC;
    let stale_since = now - linucb::STALE_DECISION_TIMEOUT - 1_000_000;
    let x = linucb::make_context(50, 50, 0, 12_000, 0, 1, 4_000, 4_000);
    assert_eq!(features(&x), [1.0, 1.0, 1.0, 1.0, 1.0]);

    s.mark_pending_context(0, x, stale_since);
    for (pid, x) in s.penalize_stale_pending(now, None) {
        assert_eq!(pid, 0);
        arm.update(features(&x), 0.0);
    }

    assert!(s.pending_context[0].is_none());
    assert!(s.pending_since[0].is_none());
    assert!(arm.a[0][0] > 1.0);
    assert_eq!(arm.b, [0.0_f64; D]);
    assert!(s.penalize_stale_pending(now, None).is_empty());
}

#[test]
fn linucb_on_ack_updates_pending_context_once() {
    let mut t = Tester::new();
    let mut s = linucb::LinUCBScheduler::new(0, UNIX);
    let mut arms = vec![Arm::new()];
    let pid = select(&mut s, &mut arms, &t.paths, 0).unwrap();

    t.paths.paths[pid].sent_count = 10;
    t.paths.paths[pid].acked_count = 8;

    let before = arms[pid].b;
    let (stale, plan) = s.on_ack(1, pid, &t.paths);
    assert!(stale.is_empty());
    let plan = plan.unwrap();
    assert!(plan.warming_up);
    assert_eq!(plan.old_ema_bits, None);
    let ema = plan.rtt_ns as f64;
    let training = s.finish_ack(pid, &t.paths, ema.to_bits(), ema as u64, ema.to_bits()).unwrap();
    assert_eq!(value(&training.reward.delivery), 0.8);
    arms[pid].update(features(&training.context), reward(&training.reward, ema));
    let after = arms[pid].b;

    assert_ne!(before, after);
    assert!(s.pending_context[pid].is_none());
    assert!(s.finish_ack(pid, &t.paths, ema.to_bits(), ema as u64, ema.to_bits()).is_none());
}

#[test]
fn linucb_slow_ack_path_cannot_extend_warmup_forever() {
    let mut t = Tester::new();
    t.add_path("127.0.0.1:443", "127.0.0.2:8443", 50);
    let mut s = linucb::LinUCBScheduler::new(0, UNIX);
    s.ack_counts.resize(2, 0);
    s.ack_counts[0] = 0;
    s.ack_counts[1] = 64;
    s.ema_rtt_ns.resize(2, 50_000_000);
    s.ema_rtt_ns[0] = 200_000_000;
    s.ema_rtt_ns[1] = 50_000_000;
    s.total_counts.resize(2, 100);
    let mut arms = vec![
        Arm::with_theta([-5.0, -5.0, -5.0, -5.0, -5.0]),
        Arm::with_theta([5.0, 5.0, 5.0, 5.0, 5.0]),
    ];
    assert_eq!(select(&mut s, &mut arms, &t.paths, 0), Ok(1));
}

#[test]
fn linucb_refuses_without_a_sendable_path() {
    let mut t = Tester::new();
    t.set_path_active(0, false);
    let mut s = linucb::LinUCBScheduler::new(0, UNIX);
    assert_eq!(select(&mut s, &mut vec![Arm::new()], &t.paths, 0), Err(Error::Done));
    assert_eq!(s.total_selections, 0);
}

#[test]
fn linucb_first_of_equal_scores_wins() {
    let mut t = Tester::new();
    t.add_path("127.0.0.1:443", "127.0.0.2:8443", 50);
    t.add_path("127.0.0.1:443", "127.0.0.3:8443", 50);
    let mut s = linucb::LinUCBScheduler::new(0, UNIX);
    let plan = s.prepare_select(&t.paths, 0).unwrap();
    let bits = |v: [f64; 3]| v.iter().map(|x| x.to_bits()).collect::<Vec<u64>>();
    assert_eq!(s.on_select(&plan, &bits([-1.0, 0.5, 0.5]), &t.paths, 0), 1);
    assert_eq!(s.on_select(&plan, &bits([f64::NAN, -3.0, -2.0]), &t.paths, 0), 2);
    assert_eq!(s.on_select(&plan, &bits([0.0, -0.0, 0.0]), &t.paths, 0), 0);
    assert_eq!(s.on_select(&plan, &bits([f64::NAN, f64::NAN, f64::NEG_INFINITY]), &t.paths, 0), 0);
    assert_eq!(s.on_select(&plan, &bits([1.0, f64::INFINITY, 2.0]), &t.paths, 0), 1);
    assert_eq!(s.total_counts, vec![2, 2, 1]);
}

#[test]
fn linucb_pending_time_is_the_first_and_context_the_last() {
    let mut s = linucb::LinUCBScheduler::new(0, UNIX);
    let x = linucb::make_context(50, 50, 0, 12_000, 0, 1, 1, 4);
    let y = linucb::make_context(50, 50, 0, 12_000, 0, 1, 2, 4);
    s.mark_pending_context(2, x, 100);
    s.mark_pending_context(2, y, 200);
    assert_eq!(s.pending_context[2], Some(y));
    assert_eq!(s.pending_since[2], Some(100));
    assert!(s.penalize_stale_pending(100 + SEC - 1, None).is_empty());
    assert!(s.penalize_stale_pending(100 + SEC, Some(2)).is_empty());
    assert_eq!(s.penalize_stale_pending(100 + SEC, None).len(), 1);
}

#[test]
fn linucb_idle_paths_are_forgotten() {
    let mut t = Tester::new();
    t.add_path("127.0.0.1:443", "127.0.0.2:8443", 50);
    let mut s = linucb::LinUCBScheduler::new(0, UNIX);
    let plan = s.prepare_select(&t.paths, SEC).unwrap();
    assert!(plan.forget.is_empty());
    s.on_select(&plan, &vec![1.0f64.to_bits(), 0], &t.paths, SEC);
    assert!(s.prepare_select(&t.paths, 11 * SEC).unwrap().forget.is_empty());
    assert_eq!(s.prepare_select(&t.paths, 11 * SEC + 1).unwrap().forget, vec![0]);
}

#[test]
fn linucb_snapshots_and_summary() {
    let mut t = Tester::new();
    t.add_path("127.0.0.1:443", "127.0.0.2:8443", 50);
    t.paths.paths[1].local_unspecified = true;
    let mut s = linucb::LinUCBScheduler::new(0, UNIX);
    assert!(s.scheduler_summary(&Vec::new()).is_none());
    let plan = s.prepare_select(&t.paths, SEC).unwrap();
    let (up, down) = (1.0f64.to_bits(), 0u64);
    s.on_select(&plan, &vec![up, down], &t.paths, 2 * SEC);
    s.on_select(&plan, &vec![down, up], &t.paths, 2 * SEC + 1);
    s.on_select(&plan, &vec![down, up], &t.paths, 2 * SEC + 2);
    t.paths.paths[1].sent_bytes = 700;
    let plan = s.prepare_select(&t.paths, 3 * SEC).unwrap();
    s.on_select(&plan, &vec![up, down], &t.paths, 3 * SEC);
    assert_eq!(
        s.snapshots,
        vec![
            "  t=  2s:  path[0] 127.0.0.1 100%".to_string(),
            "  t=  3s:  path[0] 127.0.0.1 33.3%  |  path[1] 127.0.0.2 66.6%".to_string(),
        ]
    );
    assert_eq!(s.records.len(), 2);
    assert_eq!(s.records[0].timestamp, UNIX + 2);
    assert_eq!(s.records[1].rows[1].delta_bytes, 700);
    assert_eq!(s.records[1].rows[1].total_delta, 700);
    assert_eq!(s.records[1].rows[0].samples, 2);
    let models = vec![Some(linucb::ModelText {
        estimate: "+0.500".to_string(),
        bonus: "0.150".to_string(),
    })];
    assert_eq!(
        s.scheduler_summary(&models).unwrap(),
        "LinUCB scheduler summary  (4 total selections over 2 arms)\n  Path totals:\n    path[0] 127.0.0.1  selections=2 (50%)  est(neutral)=+0.500  explore_bonus=0.150 (n=2)\n    path[1] 127.0.0.2  selections=2 (50%)  est(neutral)=n/a  explore_bonus=n/a\n  Per-second breakdown:\n  t=  2s:  path[0] 127.0.0.1 100%\n  t=  3s:  path[0] 127.0.0.1 33.3%  |  path[1] 127.0.0.2 66.6%\n"
    );
}

#[test]
fn linucb_warmup_of_the_smoothed_rtt_ends_after_eight_acks() {
    let t = Tester::new();
    let mut s = linucb::LinUCBScheduler::new(0, UNIX);
    for i in 0..10 {
        let plan = s.begin_ack(0, &t.paths).unwrap();
        assert_eq!(plan.warming_up, i < 8);
        s.finish_ack(0, &t.paths, 7.5f64.to_bits(), 7, 0);
    }
    assert_eq!(s.begin_ack(0, &t.paths).unwrap().old_ema_bits, Some(7.5f64.to_bits()));
    assert!(s.begin_ack(3, &t.paths).is_none());
    let plan = s.prepare_select(&t.paths, 0).unwrap();
    assert_eq!(plan.stats[0].rtt_ns, 7);
}

#[test]
fn linucb_reward_without_sent_packets_has_no_delivery() {
    let r = linucb::observed_reward(0, 0, 100, 0, 10_000);
    assert_eq!(value(&r.delivery), 0.0);
    assert_eq!(reward(&r, 100.0), 0.0);
    assert_eq!(value(&linucb::observed_reward(3, 0, 100, 0, 10_000).delivery), 1.0);
    assert_eq!(value(&linucb::observed_reward(3, 4, 100, 0, 10_000).delivery), 0.75);
}

#[test]
fn linucb_first_record_of_a_path_reports_no_bytes() {
    let mut t = Tester::new();
    t.add_path("127.0.0.1:443", "127.0.0.2:8443", 50);
    t.set_path_active(0, false);
    t.paths.paths[0].sent_bytes = 500;
    t.paths.paths[1].sent_bytes = 300;
    let mut s = linucb::LinUCBScheduler::new(0, UNIX);
    let mut arms = vec![Arm::new(); 2];
    select(&mut s, &mut arms, &t.paths, 0).unwrap();
    t.set_path_active(0, true);
    t.paths.paths[1].sent_bytes = 340;
    select(&mut s, &mut arms, &t.paths, SEC).unwrap();
    t.paths.paths[0].sent_bytes = 507;
    select(&mut s, &mut arms, &t.paths, 2 * SEC).unwrap();
    let deltas: Vec<Vec<u64>> =
        s.records.iter().map(|r| r.rows.iter().map(|x| x.delta_bytes).collect()).collect();
    assert_eq!(deltas, vec![vec![0], vec![0, 40], vec![7, 0]]);
}

#[test]
fn linucb_exploration_counts_selections_and_not_acks() {
    let t = Tester::new();
    let mut s = linucb::LinUCBScheduler::new(0, UNIX);
    s.total_counts.resize(1, 99);
    assert_eq!(s.prepare_select(&t.paths, 0).unwrap().selections, vec![99]);
    s.ack_counts.resize(1, 12);
    assert_eq!(s.prepare_select(&t.paths, 0).unwrap().selections, vec![99]);
}

#[test]
fn linucb_acks_drop_the_stale_decisions_of_other_paths() {
    let mut t = Tester::new();
    t.add_path("127.0.0.1:443", "127.0.0.2:8443", 50);
    let mut s = linucb::LinUCBScheduler::new(0, UNIX);
    let x = linucb::make_context(50, 50, 0, 12_000, 0, 4, 4_000, 4_000);
    s.mark_pending_context(0, x, 0);
    s.mark_pending_context(1, x, 0);
    let (stale, plan) = s.on_ack(SEC, 1, &t.paths);
    assert_eq!(stale.iter().map(|d| d.0).collect::<Vec<usize>>(), vec![0]);
    assert!(plan.is_some());
    assert!(s.pending_context[0].is_none() && s.pending_context[1].is_some());
    let (stale, plan) = s.begin_select(&t.paths, SEC);
    assert_eq!(stale[0].0, 1);
    assert!(plan.is_ok());
    assert_eq!(s.on_ack(SEC, 7, &t.paths).1.is_some(), false);
}

// ── epsilon-greedy ───────────────────────────────────────────────────────────

fn greedy_select(
    s: &mut greedy::EpsilonGreedyScheduler,
    paths: &PathMap,
    now: u64,
) -> Result<usize, Error> {
    let c = s.begin_select(paths, now).1?;
    let tied = vec![true; c.len()];
    Ok(s.on_select(&c, false, &tied, paths, now))
}

fn greedy_reward(r: &greedy::GreedyReward) -> f64 {
    let secs = (r.window_ns as f64 / 1e9).max(0.001);
    let served = if r.baseline > 0 {
        (r.sent_bytes as f64 / secs / r.baseline as f64).clamp(0.0, 1.0)
    } else {
        1.0
    };
    let queue = match &r.saturation {
        Some(s) => 1.0 - value(s) * value(s),
        None => 0.0,
    };
    (0.45 * value(&r.delivery) * served
        + 0.25 * (-20.0 * value(&r.loss)).exp()
        + 0.20 * value(&r.latency)
        + 0.10 * queue)
        .clamp(0.0, 1.0)
}

fn counters(acked: u64, lost: u64, sent_b: u64, acked_b: u64, lost_b: u64) -> greedy::Counters {
    greedy::Counters {
        acked_pkts: acked,
        lost_pkts: lost,
        sent_bytes: sent_b,
        acked_bytes: acked_b,
        lost_bytes: lost_b,
    }
}

const MS_100: u64 = 100_000_000;

#[test]
fn epsilon_greedy_single_path() {
    let t = Tester::new();
    let mut s = greedy::EpsilonGreedyScheduler::new(0, UNIX);
    assert_eq!(greedy_select(&mut s, &t.paths, 0), Ok(0));
}

#[test]
fn epsilon_greedy_multi_path_selects_valid_path() {
    let mut t = Tester::new();
    t.add_path("127.0.0.1:443", "127.0.0.2:8443", 50);
    t.add_path("127.0.0.1:443", "127.0.0.3:8443", 150);
    let mut s = greedy::EpsilonGreedyScheduler::new(0, UNIX);
    let pid = greedy_select(&mut s, &t.paths, 0).unwrap();
    assert!(pid <= 2);
}

#[test]
fn epsilon_greedy_warmup_uses_selection_counts() {
    let mut t = Tester::new();
    t.add_path("127.0.0.1:443", "127.0.0.2:8443", 50);
    t.add_path("127.0.0.1:443", "127.0.0.3:8443", 150);
    let mut s = greedy::EpsilonGreedyScheduler::new(0, UNIX);
    for _ in 0..3 {
        greedy_select(&mut s, &t.paths, 0).unwrap();
    }
    for pid in 0..3 {
        assert_eq!(s.arms[pid].as_ref().unwrap().selections, 1);
    }
}

#[test]
fn epsilon_greedy_window_feedback_updates_model() {
    let mut t = Tester::new();
    let mut s = greedy::EpsilonGreedyScheduler::new(0, UNIX);
    let outcomes = greedy::FEEDBACK_WINDOW_OUTCOMES;

    let pid = greedy_select(&mut s, &t.paths, 0).unwrap();
    s.on_ack(1, pid, &t.paths);
    t.paths.paths[pid].acked_count += outcomes;
    t.paths.paths[pid].sent_bytes += outcomes * 1200;
    t.paths.paths[pid].acked_bytes += outcomes * 1200;
    let (stale, outcome) = s.on_ack(2, pid, &t.paths);
    assert!(stale.is_empty());
    let outcome = outcome.unwrap();
    let training = outcome.training.unwrap();

    let arm = s.arms[pid].as_ref().unwrap();
    assert_eq!(arm.samples, 1);
    assert_eq!(arm.pending_decisions, 0);
    assert_eq!(training.decisions, 1);
    let c = s.prepare_select(&t.paths).unwrap();
    let x = [value(&c[0].context.latency), value(&c[0].context.cwnd_headroom), 1.0, 0.0, 1.0];
    let theta = x.map(|xi| 0.05 * greedy_reward(&training.reward) * xi);
    assert!(theta.iter().any(|v| *v != 0.0));
}

#[test]
fn epsilon_greedy_acks_train_stale_decisions_first() {
    let mut t = Tester::new();
    t.set_path_active(0, true);
    let mut s = greedy::EpsilonGreedyScheduler::new(0, UNIX);
    let pid = greedy_select(&mut s, &t.paths, 0).unwrap();
    let (stale, outcome) = s.on_ack(SEC + 1, pid, &t.paths);
    assert_eq!((stale[0].path_id, stale[0].decisions, stale[0].samples), (pid, 1, 0));
    assert_eq!(outcome.unwrap().samples, 1);
    let (stale, c) = s.begin_select(&t.paths, 2 * SEC + 5);
    assert!(stale.is_empty());
    assert_eq!(c.unwrap().len(), 1);
    assert!(s.on_ack(2 * SEC, 9, &t.paths).1.is_none());
}

#[test]
fn first_feedback_only_initializes_counters() {
    let mut t = Tester::new();
    let mut s = greedy::EpsilonGreedyScheduler::new(0, UNIX);
    let pid = greedy_select(&mut s, &t.paths, 0).unwrap();
    t.paths.paths[pid].acked_count += 100;
    t.paths.paths[pid].sent_bytes += 100_000;
    t.paths.paths[pid].acked_bytes += 100_000;
    s.on_ack(1, pid, &t.paths);

    let arm = s.arms[pid].as_ref().unwrap();
    assert!(arm.counters_initialized);
    assert_eq!(arm.samples, 0);
    assert_eq!(arm.pending_decisions, 1);
}

#[test]
fn invalid_reward_keeps_pending_context() {
    let outcomes = greedy::FEEDBACK_WINDOW_OUTCOMES;
    let mut arm = greedy::ArmState::new();
    arm.push_pending_context(0);
    arm.counters_initialized = true;

    let update = greedy::record_feedback_counters(
        &mut arm,
        0,
        counters(outcomes, 0, 0, outcomes * 1200, 0),
        100,
        1_000_000,
        1_000_000,
        0,
        10_000,
    );

    assert!(update.1.is_none());
    assert_eq!(arm.pending_decisions, 1);
}

#[test]
fn stale_pending_decision_trains_zero_reward() {
    let mut s = greedy::EpsilonGreedyScheduler::new(0, UNIX);
    s.ensure_arm(0);
    let now = 10 * SEC;
    {
        let arm = s.arms[0].as_mut().unwrap();
        arm.push_pending_context(0);
        arm.pending_since = Some(now - greedy::STALE_DECISION_TIMEOUT * 2);
    }

    let trained = s.train_stale_pending_decisions(now);

    assert_eq!(trained.len(), 1);
    assert_eq!((trained[0].path_id, trained[0].decisions, trained[0].samples), (0, 1, 0));
    let arm = s.arms[0].as_ref().unwrap();
    assert_eq!(arm.samples, 1);
    assert_eq!(arm.pending_decisions, 0);
    assert!(s.train_stale_pending_decisions(now).is_empty());
    assert_eq!(s.records.len(), 1);
}

#[test]
fn goodness_context_has_expected_direction() {
    let fast = greedy::make_context(50, 50, 0, 10_000, 100, 100);
    let slow = greedy::make_context(200, 50, 9_000, 10_000, 25, 100);

    assert!(value(&fast.latency) > value(&slow.latency));
    assert!(value(&fast.cwnd_headroom) > value(&slow.cwnd_headroom));
    assert!(value(&rest_of(0, 2)) > value(&rest_of(1, 2)));
    assert!(value(&fast.relative_pacing) > value(&slow.relative_pacing));
}

#[test]
fn observed_reward_prefers_goodput_and_low_latency() {
    let fast = greedy::observed_reward(
        &counters(32, 0, 32 * 1200, 32 * 1200, 0),
        MS_100,
        50,
        50,
        400_000,
        400_000,
        0,
        10_000,
    )
    .unwrap();
    let slow = greedy::observed_reward(
        &counters(32, 0, 32 * 1200, 8 * 1200, 0),
        MS_100,
        200,
        50,
        400_000,
        400_000,
        9_000,
        10_000,
    )
    .unwrap();
    assert!(greedy_reward(&fast) > greedy_reward(&slow));
}

#[test]
fn context_latency_is_the_share_of_the_best_rtt() {
    let c = greedy::make_context(1000, 50, 0, 10_000, 100, 100);
    assert_eq!(value(&c.latency), 0.05);
    assert_eq!((value(&c.cwnd_headroom), value(&c.relative_pacing)), (1.0, 1.0));
    assert_eq!(value(&greedy::make_context(50, 50, 0, 1, 0, 0).latency), 1.0);
    assert_eq!(value(&greedy::make_context(0, 1, 0, 1, 0, 0).latency), 1.0);
    assert_eq!(value(&greedy::make_context(1000, 0, 0, 1, 0, 0).latency), 1.0);
}

#[test]
fn context_zero_pacing_rate_scores_zero() {
    let x = greedy::make_context(50, 50, 0, 10_000, 0, 100);
    assert_eq!(value(&x.relative_pacing), 0.0);
}

#[test]
fn observed_reward_uses_nonlinear_loss_penalty() {
    let no_loss = greedy::observed_reward(
        &counters(100, 0, 100_000, 100_000, 0),
        MS_100,
        100,
        100,
        1_000_000,
        1_000_000,
        0,
        10_000,
    )
    .unwrap();
    let ten_percent_loss = greedy::observed_reward(
        &counters(90, 10, 100_000, 90_000, 10_000),
        MS_100,
        100,
        100,
        1_000_000,
        1_000_000,
        0,
        10_000,
    )
    .unwrap();
    assert!(greedy_reward(&no_loss) - greedy_reward(&ten_percent_loss) > 0.15);
}

#[test]
fn observed_reward_does_not_reward_idle_path_from_queue_score() {
    let reward = greedy::observed_reward(
        &counters(0, 0, 0, 0, 0),
        MS_100,
        100,
        100,
        1_000_000,
        1_000_000,
        0,
        10_000,
    );
    assert!(reward.is_none());
}

#[test]
fn observed_reward_uses_path_local_base_rtt() {
    let window = counters(32, 0, 32_000, 32_000, 0);
    let near_base =
        greedy::observed_reward(&window, MS_100, 200, 200, 320_000, 320_000, 0, 10_000).unwrap();
    let above_base =
        greedy::observed_reward(&window, MS_100, 200, 100, 320_000, 320_000, 0, 10_000).unwrap();
    assert!(greedy_reward(&near_base) > greedy_reward(&above_base));
}

#[test]
fn observed_goodput_is_normalized_by_sent_bytes() {
    let efficient = greedy::observed_reward(
        &counters(32, 0, 32_000, 32_000, 0),
        MS_100,
        100,
        100,
        1_000,
        1_000,
        0,
        10_000,
    )
    .unwrap();
    let inefficient = greedy::observed_reward(
        &counters(32, 0, 64_000, 32_000, 0),
        MS_100,
        100,
        100,
        1_000,
        1_000,
        0,
        10_000,
    )
    .unwrap();
    assert!(greedy_reward(&efficient) > greedy_reward(&inefficient));
}

#[test]
fn epsilon_greedy_refuses_without_a_sendable_path() {
    let mut t = Tester::new();
    t.set_path_active(0, false);
    let mut s = greedy::EpsilonGreedyScheduler::new(0, UNIX);
    assert_eq!(greedy_select(&mut s, &t.paths, 0), Err(Error::Done));
}

#[test]
fn epsilon_greedy_pool_follows_the_phase() {
    let mut t = Tester::new();
    t.add_path("127.0.0.1:443", "127.0.0.2:8443", 50);
    let mut s = greedy::EpsilonGreedyScheduler::new(0, UNIX);
    let c = s.prepare_select(&t.paths).unwrap();
    s.select_candidate(&c, 1, &t.paths, 0);
    assert!(!s.wants_coin(&c));
    assert_eq!(s.draw_pool(&c, true, &vec![false, true]), vec![0]);
    for arm in s.arms.iter_mut() {
        arm.as_mut().unwrap().selections = 5;
    }
    assert!(s.wants_coin(&c));
    assert_eq!(s.draw_pool(&c, true, &vec![false, true]), vec![0, 1]);
    assert_eq!(s.draw_pool(&c, false, &vec![false, true]), vec![1]);
}

#[test]
fn epsilon_greedy_draws_among_tied_candidates() {
    let mut t = Tester::new();
    t.add_path("127.0.0.1:443", "127.0.0.2:8443", 50);
    t.add_path("127.0.0.1:443", "127.0.0.3:8443", 50);
    let mut s = greedy::EpsilonGreedyScheduler::new(0, UNIX);
    let c = s.prepare_select(&t.paths).unwrap();
    for arm in s.arms.iter_mut() {
        arm.as_mut().unwrap().selections = 5;
    }
    let mut seen = [0u64; 3];
    for _ in 0..200 {
        seen[s.on_select(&c, false, &vec![true, false, true], &t.paths, 0)] += 1;
    }
    assert_eq!(seen[1], 0);
    assert!(seen[0] > 0 && seen[2] > 0);
    assert_eq!(seen[0] + seen[2], 200);
}

#[test]
fn epsilon_greedy_old_window_closes_with_few_outcomes() {
    let mut arm = greedy::ArmState::new();
    arm.push_pending_context(0);
    arm.push_pending_context(5);
    let feed = |arm: &mut greedy::ArmState, now: u64, n: u64| {
        let c = counters(n, 0, n * 100, n * 100, 0);
        greedy::record_feedback_counters(arm, now, c, 100, 10, 10, 0, 10_000)
    };
    assert_eq!(feed(&mut arm, 0, 0), (None, None));
    let (loss, training) = feed(&mut arm, 1, 1);
    assert!(loss.unwrap().first && training.is_none());
    let (loss, training) = feed(&mut arm, greedy::FEEDBACK_WINDOW_DURATION, 2);
    assert!(!loss.unwrap().first && training.is_none());
    assert_eq!(feed(&mut arm, greedy::FEEDBACK_WINDOW_DURATION, 2), (None, None));
    let (_, training) = feed(&mut arm, greedy::FEEDBACK_WINDOW_DURATION + 1, 3);
    let training = training.unwrap();
    assert_eq!(training.decisions, 2);
    assert_eq!(training.reward.sent_bytes, 300);
    assert_eq!(training.reward.window_ns, greedy::FEEDBACK_WINDOW_DURATION);
    assert_eq!(arm.window.acked_pkts, 0);
}

#[test]
fn epsilon_greedy_lines_and_summary() {
    let t = Tester::new();
    let mut s = greedy::EpsilonGreedyScheduler::new(0, UNIX);
    greedy_select(&mut s, &t.paths, 3 * SEC).unwrap();
    let text = |v: &str| v.to_string();
    let cells = greedy::CandidateCells {
        selection_pct: text("100.00"),
        prediction: text("0.000000"),
        loss_ewma: text("0.000000"),
        x_latency: text("1.000000"),
        x_cwnd: text("1.000000"),
        x_reliability: text("1.000000"),
        x_pacing: text("0.000000"),
        theta_latency: text("0.1"),
        theta_cwnd: text("0.2"),
        theta_reliability: text("0.3"),
        theta_pacing: text("0.4"),
        theta_bias: text("0.5"),
    };
    let line = s.records[0].selection_line("0.200000", &vec![cells]).unwrap();
    assert!(line.starts_with("{\"_step\":0,\"_timestamp\":1700000003,\"t\":3,\"epsilon_greedy/event\":\"selection_snapshot\",\"epsilon_greedy/selected_path\":0,\"epsilon_greedy/epsilon\":0.200000,\"epsilon_greedy/path0_selection_pct\":100.00,"));
    assert!(line.contains("\"epsilon_greedy/path0_selections\":1,\"epsilon_greedy/path0_pending\":1,"));
    assert!(line.ends_with(",\"epsilon_greedy/path0_theta_bias\":0.5}"));

    let arm_cells = || vec![greedy::ArmCells { loss_ewma: text("0.0000"), theta: text("0, 1") }];
    assert!(s.scheduler_summary("0.2000", &arm_cells()).is_none());
    s.train_stale_pending_decisions(5 * SEC);
    assert_eq!(s.total_samples(), 1);
    assert_eq!(
        s.scheduler_summary("0.2000", &arm_cells()).unwrap(),
        "Epsilon-greedy scheduler summary\n  epsilon_current=0.2000\n  path[0] updates=1 selections=1 pending=0 loss_ewma=0.0000 theta=[0, 1]\n"
    );
    let update = greedy::UpdateCells {
        reward: text("0.000000"),
        loss_ewma: text("0.000000"),
        x_latency: text("1"),
        x_cwnd: text("2"),
        x_reliability: text("3"),
        x_pacing: text("4"),
        x_bias: text("5"),
        theta_latency: text("6"),
        theta_cwnd: text("7"),
        theta_reliability: text("8"),
        theta_pacing: text("9"),
        theta_bias: text("10"),
    };
    let line = s.records[1].update_line("0.199", &update).unwrap();
    assert!(line.starts_with("{\"_step\":1,\"_timestamp\":1700000005,\"t\":5,\"epsilon_greedy/event\":\"model_update\",\"epsilon_greedy/update_source\":\"stale_timeout\",\"epsilon_greedy/path\":0,\"epsilon_greedy/reward\":0.000000,\"epsilon_greedy/epsilon\":0.199,\"epsilon_greedy/x_latency\":1,"));
    assert!(s.records[1].selection_line("0", &Vec::new()).is_none());
    assert!(s.records[0].update_line("0", &update).is_none());
}
