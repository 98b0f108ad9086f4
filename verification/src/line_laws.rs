//! What the metrics lines promise: every value stands under its own key, once, and a
//! line has no other fields.

use crate::json_line::{json_line, line_shows_every_field, shows_field};
use crate::numerals::decimal;
use crate::scheduler_epsilon_greedy::{
    candidate_fields, candidates_fields, selection_head, update_fields, ArmState, CandidateCells,
    GreedyRow, UpdateCells, UpdateSource,
};
use crate::scheduler_linucb::{
    input_fields, linucb_fields, linucb_record_fields, model_fields, network_fields, weight_fields,
    LinUcbCells, LinUcbRow,
};
use crate::traffic_metrics::{record_fields, step_fields, traffic_fields, TrafficCells, TrafficRow};
use vstd::prelude::*;

verus! {

/// The name of a measurement of one path.
pub open spec fn named(prefix: Seq<char>, pid: usize, suffix: Seq<char>) -> Seq<char> {
    prefix + decimal(pid as nat) + suffix
}

proof fn lemma_shown(
    fs: Seq<(Seq<char>, Seq<char>)>,
    k: int,
    key: Seq<char>,
    value: Seq<char>,
)
    requires
        0 <= k < fs.len(),
        fs[k] == (key, value),
    ensures
        shows_field(json_line(fs), key, value),
{
    line_shows_every_field(fs, k);
}

/// Every metrics line starts with its number, its time and the seconds since the
/// start.
pub proof fn line_starts_with_its_time(step: nat, timestamp: nat, elapsed_s: nat)
    ensures
        step_fields(step, timestamp, elapsed_s).len() == 3,
        step_fields(step, timestamp, elapsed_s)[0] == ("_step"@, decimal(step)),
        step_fields(step, timestamp, elapsed_s)[1] == ("_timestamp"@, decimal(timestamp)),
        step_fields(step, timestamp, elapsed_s)[2] == ("t"@, decimal(elapsed_s)),
{
}

// ───────────────────────────── traffic ─────────────────────────────

proof fn lemma_traffic_fields(head: Seq<(Seq<char>, Seq<char>)>, row: TrafficRow, c: TrafficCells)
    ensures
        traffic_fields(head, row, c).len() == head.len() + 8,
        traffic_fields(head, row, c).subrange(0, head.len() as int) == head,
        traffic_fields(head, row, c)[head.len() as int + 0] == (
            named("traffic/path"@, row.pid, "_pct"@),
            c.pct@,
        ),
        traffic_fields(head, row, c)[head.len() as int + 1] == (
            named("latency/path"@, row.pid, "_rtt_ms"@),
            c.rtt_ms@,
        ),
        traffic_fields(head, row, c)[head.len() as int + 2] == (
            named("throughput/path"@, row.pid, "_mbps"@),
            c.mbps@,
        ),
        traffic_fields(head, row, c)[head.len() as int + 3] == (
            named("congestion/path"@, row.pid, "_cwnd_KB"@),
            c.cwnd_kb@,
        ),
        traffic_fields(head, row, c)[head.len() as int + 4] == (
            named("congestion/path"@, row.pid, "_inflight_KB"@),
            c.inflight_kb@,
        ),
        traffic_fields(head, row, c)[head.len() as int + 5] == (
            named("congestion/path"@, row.pid, "_pacing_mbps"@),
            c.pacing_mbps@,
        ),
        traffic_fields(head, row, c)[head.len() as int + 6] == (
            named("loss/path"@, row.pid, "_sent"@),
            decimal(row.sent_count as nat),
        ),
        traffic_fields(head, row, c)[head.len() as int + 7] == (
            named("loss/path"@, row.pid, "_lost"@),
            decimal(row.lost_count as nat),
        ),
{
    assert(traffic_fields(head, row, c).subrange(0, head.len() as int) =~= head);
}

/// Where the fields of each row stand.
proof fn lemma_record_fields(
    head: Seq<(Seq<char>, Seq<char>)>,
    rows: Seq<TrafficRow>,
    cells: Seq<TrafficCells>,
    i: int,
    j: int,
)
    requires
        rows.len() == cells.len(),
        0 <= i < rows.len(),
        0 <= j < 8,
    ensures
        record_fields(head, rows, cells)[head.len() + 8 * i + j] == traffic_fields(
            Seq::empty(),
            rows[i],
            cells[i],
        )[j],
    decreases rows.len(),
{
    let front = record_fields(head, rows.drop_last(), cells.drop_last());
    lemma_record_fields_len(head, rows.drop_last(), cells.drop_last());
    lemma_traffic_fields(front, rows.last(), cells.last());
    lemma_traffic_fields(Seq::empty(), rows.last(), cells.last());
    let all = record_fields(head, rows, cells);
    if i < rows.len() - 1 {
        lemma_record_fields(head, rows.drop_last(), cells.drop_last(), i, j);
        let k = head.len() + 8 * i + j;
        assert(all.subrange(0, front.len() as int)[k] == all[k]);
    }
}

proof fn lemma_record_fields_len(
    head: Seq<(Seq<char>, Seq<char>)>,
    rows: Seq<TrafficRow>,
    cells: Seq<TrafficCells>,
)
    requires
        rows.len() == cells.len(),
    ensures
        record_fields(head, rows, cells).len() == head.len() + 8 * rows.len(),
        record_fields(head, rows, cells).subrange(0, head.len() as int) == head,
    decreases rows.len(),
{
    if rows.len() == 0 {
        assert(head.subrange(0, head.len() as int) =~= head);
    } else {
        let front = record_fields(head, rows.drop_last(), cells.drop_last());
        lemma_record_fields_len(head, rows.drop_last(), cells.drop_last());
        lemma_traffic_fields(front, rows.last(), cells.last());
        let all = record_fields(head, rows, cells);
        assert(all.subrange(0, head.len() as int) =~= all.subrange(0, front.len() as int).subrange(
            0,
            head.len() as int,
        ));
    }
}

/// A traffic line shows every measurement of every path under the key that names both,
/// and nothing else behind its head.
#[verifier::rlimit(40)]
pub proof fn traffic_line_shows_each_measurement(
    head: Seq<(Seq<char>, Seq<char>)>,
    rows: Seq<TrafficRow>,
    cells: Seq<TrafficCells>,
    i: int,
)
    requires
        rows.len() == cells.len(),
        0 <= i < rows.len(),
    ensures
        record_fields(head, rows, cells).len() == head.len() + 8 * rows.len(),
        record_fields(head, rows, cells).subrange(0, head.len() as int) == head,
        ({
            let line = json_line(record_fields(head, rows, cells));
            let pid = rows[i].pid;
            let row = rows[i];
            let c = cells[i];
            &&& shows_field(line, named("traffic/path"@, pid, "_pct"@), c.pct@)
            &&& shows_field(line, named("latency/path"@, pid, "_rtt_ms"@), c.rtt_ms@)
            &&& shows_field(line, named("throughput/path"@, pid, "_mbps"@), c.mbps@)
            &&& shows_field(line, named("congestion/path"@, pid, "_cwnd_KB"@), c.cwnd_kb@)
            &&& shows_field(line, named("congestion/path"@, pid, "_inflight_KB"@), c.inflight_kb@)
            &&& shows_field(line, named("congestion/path"@, pid, "_pacing_mbps"@), c.pacing_mbps@)
            &&& shows_field(
                line,
                named("loss/path"@, pid, "_sent"@),
                decimal(row.sent_count as nat),
            )
            &&& shows_field(
                line,
                named("loss/path"@, pid, "_lost"@),
                decimal(row.lost_count as nat),
            )
        }),
{
    let fs = record_fields(head, rows, cells);
    let row = rows[i];
    let c = cells[i];
    let pid = row.pid;
    let k = head.len() + 8 * i;
    lemma_record_fields_len(head, rows, cells);
    lemma_traffic_fields(Seq::empty(), row, c);
    lemma_record_fields(head, rows, cells, i, 0);
    lemma_shown(fs, k + 0, named("traffic/path"@, pid, "_pct"@), c.pct@);
    lemma_record_fields(head, rows, cells, i, 1);
    lemma_shown(fs, k + 1, named("latency/path"@, pid, "_rtt_ms"@), c.rtt_ms@);
    lemma_record_fields(head, rows, cells, i, 2);
    lemma_shown(fs, k + 2, named("throughput/path"@, pid, "_mbps"@), c.mbps@);
    lemma_record_fields(head, rows, cells, i, 3);
    lemma_shown(fs, k + 3, named("congestion/path"@, pid, "_cwnd_KB"@), c.cwnd_kb@);
    lemma_record_fields(head, rows, cells, i, 4);
    lemma_shown(fs, k + 4, named("congestion/path"@, pid, "_inflight_KB"@), c.inflight_kb@);
    lemma_record_fields(head, rows, cells, i, 5);
    lemma_shown(fs, k + 5, named("congestion/path"@, pid, "_pacing_mbps"@), c.pacing_mbps@);
    lemma_record_fields(head, rows, cells, i, 6);
    lemma_shown(fs, k + 6, named("loss/path"@, pid, "_sent"@), decimal(row.sent_count as nat));
    lemma_record_fields(head, rows, cells, i, 7);
    lemma_shown(fs, k + 7, named("loss/path"@, pid, "_lost"@), decimal(row.lost_count as nat));
}

// ───────────────────────────── LinUCB ─────────────────────────────

proof fn lemma_network_fields(head: Seq<(Seq<char>, Seq<char>)>, row: LinUcbRow, c: LinUcbCells)
    ensures
        network_fields(head, row, c).len() == head.len() + 12,
        network_fields(head, row, c).subrange(0, head.len() as int) == head,
        network_fields(head, row, c)[head.len() as int + 0] == (
            named("traffic/path"@, row.stats.pid, "_pct"@),
            c.pct@,
        ),
        network_fields(head, row, c)[head.len() as int + 1] == (
            named("latency/path"@, row.stats.pid, "_rtt_ms"@),
            c.rtt_ms@,
        ),
        network_fields(head, row, c)[head.len() as int + 2] == (
            named("latency/path"@, row.stats.pid, "_latest_rtt_ms"@),
            c.latest_rtt_ms@,
        ),
        network_fields(head, row, c)[head.len() as int + 3] == (
            named("throughput/path"@, row.stats.pid, "_mbps"@),
            c.mbps@,
        ),
        network_fields(head, row, c)[head.len() as int + 4] == (
            named("congestion/path"@, row.stats.pid, "_cwnd_KB"@),
            c.cwnd_kb@,
        ),
        network_fields(head, row, c)[head.len() as int + 5] == (
            named("congestion/path"@, row.stats.pid, "_inflight_KB"@),
            c.inflight_kb@,
        ),
        network_fields(head, row, c)[head.len() as int + 6] == (
            named("congestion/path"@, row.stats.pid, "_pacing_mbps"@),
            c.pacing_mbps@,
        ),
        network_fields(head, row, c)[head.len() as int + 7] == (
            named("loss/path"@, row.stats.pid, "_sent"@),
            decimal(row.stats.sent as nat),
        ),
        network_fields(head, row, c)[head.len() as int + 8] == (
            named("loss/path"@, row.stats.pid, "_lost"@),
            decimal(row.stats.lost as nat),
        ),
        network_fields(head, row, c)[head.len() as int + 9] == (
            named("linucb/path"@, row.stats.pid, "_reward"@),
            c.reward@,
        ),
        network_fields(head, row, c)[head.len() as int + 10] == (
            named("linucb/path"@, row.stats.pid, "_explore_bonus"@),
            c.bonus@,
        ),
        network_fields(head, row, c)[head.len() as int + 11] == (
            named("linucb/path"@, row.stats.pid, "_samples"@),
            decimal(row.samples as nat),
        ),
{
    assert(network_fields(head, row, c).subrange(0, head.len() as int) =~= head);
}

proof fn lemma_model_fields(head: Seq<(Seq<char>, Seq<char>)>, row: LinUcbRow, c: LinUcbCells)
    ensures
        model_fields(head, row, c).len() == head.len() + 19,
        model_fields(head, row, c).subrange(0, head.len() as int) == head,
        model_fields(head, row, c)[head.len() as int + 0] == (
            named("p"@, row.stats.pid, ".pct"@),
            c.pct@,
        ),
        model_fields(head, row, c)[head.len() as int + 1] == (
            named("p"@, row.stats.pid, ".rtt_us"@),
            c.rtt_us@,
        ),
        model_fields(head, row, c)[head.len() as int + 2] == (
            named("p"@, row.stats.pid, ".rtt_ms"@),
            c.rtt_ms@,
        ),
        model_fields(head, row, c)[head.len() as int + 3] == (
            named("p"@, row.stats.pid, ".reward"@),
            c.reward@,
        ),
        model_fields(head, row, c)[head.len() as int + 4] == (
            named("p"@, row.stats.pid, ".bonus"@),
            c.bonus@,
        ),
        model_fields(head, row, c)[head.len() as int + 5] == (
            named("p"@, row.stats.pid, ".ucb_total"@),
            c.ucb_total@,
        ),
        model_fields(head, row, c)[head.len() as int + 6] == (
            named("p"@, row.stats.pid, ".explore_ratio"@),
            c.explore_ratio@,
        ),
        model_fields(head, row, c)[head.len() as int + 7] == (
            named("p"@, row.stats.pid, ".a_trace"@),
            c.a_trace@,
        ),
        model_fields(head, row, c)[head.len() as int + 8] == (
            named("p"@, row.stats.pid, ".forget_count"@),
            "0"@,
        ),
        model_fields(head, row, c)[head.len() as int + 9] == (
            named("p"@, row.stats.pid, ".n"@),
            decimal(row.samples as nat),
        ),
        model_fields(head, row, c)[head.len() as int + 10] == (
            named("p"@, row.stats.pid, ".alpha"@),
            c.alpha@,
        ),
        model_fields(head, row, c)[head.len() as int + 11] == (
            named("p"@, row.stats.pid, ".pacing_mbps"@),
            c.pacing_mbps@,
        ),
        model_fields(head, row, c)[head.len() as int + 12] == (
            named("p"@, row.stats.pid, ".delivered_mbps"@),
            c.mbps@,
        ),
        model_fields(head, row, c)[head.len() as int + 13] == (
            named("p"@, row.stats.pid, ".sent_per_sec"@),
            "0"@,
        ),
        model_fields(head, row, c)[head.len() as int + 14] == (
            named("p"@, row.stats.pid, ".traffic_share_pct"@),
            c.share_pct@,
        ),
        model_fields(head, row, c)[head.len() as int + 15] == (
            named("p"@, row.stats.pid, ".bif_kb"@),
            c.bif_kb@,
        ),
        model_fields(head, row, c)[head.len() as int + 16] == (
            named("p"@, row.stats.pid, ".cwnd_kb"@),
            c.cwnd_kb_fine@,
        ),
        model_fields(head, row, c)[head.len() as int + 17] == (
            named("p"@, row.stats.pid, ".sent"@),
            decimal(row.stats.sent as nat),
        ),
        model_fields(head, row, c)[head.len() as int + 18] == (
            named("p"@, row.stats.pid, ".lost"@),
            decimal(row.stats.lost as nat),
        ),
{
    assert(model_fields(head, row, c).subrange(0, head.len() as int) =~= head);
}

proof fn lemma_input_fields(head: Seq<(Seq<char>, Seq<char>)>, row: LinUcbRow, c: LinUcbCells)
    ensures
        input_fields(head, row, c).len() == head.len() + 10,
        input_fields(head, row, c).subrange(0, head.len() as int) == head,
        input_fields(head, row, c)[head.len() as int + 0] == (
            named("p"@, row.stats.pid, ".x_rtt_norm"@),
            c.rtt_norm@,
        ),
        input_fields(head, row, c)[head.len() as int + 1] == (
            named("p"@, row.stats.pid, ".x_cwnd_p"@),
            c.cwnd_p@,
        ),
        input_fields(head, row, c)[head.len() as int + 2] == (
            named("p"@, row.stats.pid, ".x_loss_rate"@),
            c.loss_rate@,
        ),
        input_fields(head, row, c)[head.len() as int + 3] == (
            named("p"@, row.stats.pid, ".x_bw_norm"@),
            c.bw_norm@,
        ),
        input_fields(head, row, c)[head.len() as int + 4] == (
            named("p"@, row.stats.pid, ".x_bias"@),
            "1.0000"@,
        ),
        input_fields(head, row, c)[head.len() as int + 5] == (
            named("p"@, row.stats.pid, ".th_rtt_norm"@),
            c.w_latency@,
        ),
        input_fields(head, row, c)[head.len() as int + 6] == (
            named("p"@, row.stats.pid, ".th_cwnd_p"@),
            c.w_headroom@,
        ),
        input_fields(head, row, c)[head.len() as int + 7] == (
            named("p"@, row.stats.pid, ".th_loss_rate"@),
            c.w_reliability@,
        ),
        input_fields(head, row, c)[head.len() as int + 8] == (
            named("p"@, row.stats.pid, ".th_bw_norm"@),
            c.w_pacing@,
        ),
        input_fields(head, row, c)[head.len() as int + 9] == (
            named("p"@, row.stats.pid, ".th_bias"@),
            c.w_bias@,
        ),
{
    assert(input_fields(head, row, c).subrange(0, head.len() as int) =~= head);
}

proof fn lemma_weight_fields(head: Seq<(Seq<char>, Seq<char>)>, row: LinUcbRow, c: LinUcbCells)
    ensures
        weight_fields(head, row, c).len() == head.len() + 10,
        weight_fields(head, row, c).subrange(0, head.len() as int) == head,
        weight_fields(head, row, c)[head.len() as int + 0] == (
            named("features/path"@, row.stats.pid, "_latency_score"@),
            c.x_latency@,
        ),
        weight_fields(head, row, c)[head.len() as int + 1] == (
            named("features/path"@, row.stats.pid, "_cwnd_headroom"@),
            c.x_headroom@,
        ),
        weight_fields(head, row, c)[head.len() as int + 2] == (
            named("features/path"@, row.stats.pid, "_reliability_score"@),
            c.x_reliability@,
        ),
        weight_fields(head, row, c)[head.len() as int + 3] == (
            named("features/path"@, row.stats.pid, "_relative_pacing_score"@),
            c.x_pacing@,
        ),
        weight_fields(head, row, c)[head.len() as int + 4] == (
            named("features/path"@, row.stats.pid, "_bias"@),
            c.x_bias@,
        ),
        weight_fields(head, row, c)[head.len() as int + 5] == (
            named("weights/path"@, row.stats.pid, "_latency_score"@),
            c.w_latency@,
        ),
        weight_fields(head, row, c)[head.len() as int + 6] == (
            named("weights/path"@, row.stats.pid, "_cwnd_headroom"@),
            c.w_headroom@,
        ),
        weight_fields(head, row, c)[head.len() as int + 7] == (
            named("weights/path"@, row.stats.pid, "_reliability_score"@),
            c.w_reliability@,
        ),
        weight_fields(head, row, c)[head.len() as int + 8] == (
            named("weights/path"@, row.stats.pid, "_relative_pacing_score"@),
            c.w_pacing@,
        ),
        weight_fields(head, row, c)[head.len() as int + 9] == (
            named("weights/path"@, row.stats.pid, "_bias"@),
            c.w_bias@,
        ),
{
    assert(weight_fields(head, row, c).subrange(0, head.len() as int) =~= head);
}

#[verifier::rlimit(60)]
proof fn lemma_linucb_fields(head: Seq<(Seq<char>, Seq<char>)>, row: LinUcbRow, c: LinUcbCells)
    ensures
        linucb_fields(head, row, c).len() == head.len() + 51,
        linucb_fields(head, row, c).subrange(0, head.len() as int) == head,
        linucb_fields(head, row, c)[head.len() as int + 0] == (
            named("traffic/path"@, row.stats.pid, "_pct"@),
            c.pct@,
        ),
        linucb_fields(head, row, c)[head.len() as int + 1] == (
            named("latency/path"@, row.stats.pid, "_rtt_ms"@),
            c.rtt_ms@,
        ),
        linucb_fields(head, row, c)[head.len() as int + 2] == (
            named("latency/path"@, row.stats.pid, "_latest_rtt_ms"@),
            c.latest_rtt_ms@,
        ),
        linucb_fields(head, row, c)[head.len() as int + 3] == (
            named("throughput/path"@, row.stats.pid, "_mbps"@),
            c.mbps@,
        ),
        linucb_fields(head, row, c)[head.len() as int + 4] == (
            named("congestion/path"@, row.stats.pid, "_cwnd_KB"@),
            c.cwnd_kb@,
        ),
        linucb_fields(head, row, c)[head.len() as int + 5] == (
            named("congestion/path"@, row.stats.pid, "_inflight_KB"@),
            c.inflight_kb@,
        ),
        linucb_fields(head, row, c)[head.len() as int + 6] == (
            named("congestion/path"@, row.stats.pid, "_pacing_mbps"@),
            c.pacing_mbps@,
        ),
        linucb_fields(head, row, c)[head.len() as int + 7] == (
            named("loss/path"@, row.stats.pid, "_sent"@),
            decimal(row.stats.sent as nat),
        ),
        linucb_fields(head, row, c)[head.len() as int + 8] == (
            named("loss/path"@, row.stats.pid, "_lost"@),
            decimal(row.stats.lost as nat),
        ),
        linucb_fields(head, row, c)[head.len() as int + 9] == (
            named("linucb/path"@, row.stats.pid, "_reward"@),
            c.reward@,
        ),
        linucb_fields(head, row, c)[head.len() as int + 10] == (
            named("linucb/path"@, row.stats.pid, "_explore_bonus"@),
            c.bonus@,
        ),
        linucb_fields(head, row, c)[head.len() as int + 11] == (
            named("linucb/path"@, row.stats.pid, "_samples"@),
            decimal(row.samples as nat),
        ),
        linucb_fields(head, row, c)[head.len() as int + 12] == (
            named("p"@, row.stats.pid, ".pct"@),
            c.pct@,
        ),
        linucb_fields(head, row, c)[head.len() as int + 13] == (
            named("p"@, row.stats.pid, ".rtt_us"@),
            c.rtt_us@,
        ),
        linucb_fields(head, row, c)[head.len() as int + 14] == (
            named("p"@, row.stats.pid, ".rtt_ms"@),
            c.rtt_ms@,
        ),
        linucb_fields(head, row, c)[head.len() as int + 15] == (
            named("p"@, row.stats.pid, ".reward"@),
            c.reward@,
        ),
        linucb_fields(head, row, c)[head.len() as int + 16] == (
            named("p"@, row.stats.pid, ".bonus"@),
            c.bonus@,
        ),
        linucb_fields(head, row, c)[head.len() as int + 17] == (
            named("p"@, row.stats.pid, ".ucb_total"@),
            c.ucb_total@,
        ),
        linucb_fields(head, row, c)[head.len() as int + 18] == (
            named("p"@, row.stats.pid, ".explore_ratio"@),
            c.explore_ratio@,
        ),
        linucb_fields(head, row, c)[head.len() as int + 19] == (
            named("p"@, row.stats.pid, ".a_trace"@),
            c.a_trace@,
        ),
        linucb_fields(head, row, c)[head.len() as int + 20] == (
            named("p"@, row.stats.pid, ".forget_count"@),
            "0"@,
        ),
        linucb_fields(head, row, c)[head.len() as int + 21] == (
            named("p"@, row.stats.pid, ".n"@),
            decimal(row.samples as nat),
        ),
        linucb_fields(head, row, c)[head.len() as int + 22] == (
            named("p"@, row.stats.pid, ".alpha"@),
            c.alpha@,
        ),
        linucb_fields(head, row, c)[head.len() as int + 23] == (
            named("p"@, row.stats.pid, ".pacing_mbps"@),
            c.pacing_mbps@,
        ),
        linucb_fields(head, row, c)[head.len() as int + 24] == (
            named("p"@, row.stats.pid, ".delivered_mbps"@),
            c.mbps@,
        ),
        linucb_fields(head, row, c)[head.len() as int + 25] == (
            named("p"@, row.stats.pid, ".sent_per_sec"@),
            "0"@,
        ),
        linucb_fields(head, row, c)[head.len() as int + 26] == (
            named("p"@, row.stats.pid, ".traffic_share_pct"@),
            c.share_pct@,
        ),
        linucb_fields(head, row, c)[head.len() as int + 27] == (
            named("p"@, row.stats.pid, ".bif_kb"@),
            c.bif_kb@,
        ),
        linucb_fields(head, row, c)[head.len() as int + 28] == (
            named("p"@, row.stats.pid, ".cwnd_kb"@),
            c.cwnd_kb_fine@,
        ),
        linucb_fields(head, row, c)[head.len() as int + 29] == (
            named("p"@, row.stats.pid, ".sent"@),
            decimal(row.stats.sent as nat),
        ),
        linucb_fields(head, row, c)[head.len() as int + 30] == (
            named("p"@, row.stats.pid, ".lost"@),
            decimal(row.stats.lost as nat),
        ),
        linucb_fields(head, row, c)[head.len() as int + 31] == (
            named("p"@, row.stats.pid, ".x_rtt_norm"@),
            c.rtt_norm@,
        ),
        linucb_fields(head, row, c)[head.len() as int + 32] == (
            named("p"@, row.stats.pid, ".x_cwnd_p"@),
            c.cwnd_p@,
        ),
        linucb_fields(head, row, c)[head.len() as int + 33] == (
            named("p"@, row.stats.pid, ".x_loss_rate"@),
            c.loss_rate@,
        ),
        linucb_fields(head, row, c)[head.len() as int + 34] == (
            named("p"@, row.stats.pid, ".x_bw_norm"@),
            c.bw_norm@,
        ),
        linucb_fields(head, row, c)[head.len() as int + 35] == (
            named("p"@, row.stats.pid, ".x_bias"@),
            "1.0000"@,
        ),
        linucb_fields(head, row, c)[head.len() as int + 36] == (
            named("p"@, row.stats.pid, ".th_rtt_norm"@),
            c.w_latency@,
        ),
        linucb_fields(head, row, c)[head.len() as int + 37] == (
            named("p"@, row.stats.pid, ".th_cwnd_p"@),
            c.w_headroom@,
        ),
        linucb_fields(head, row, c)[head.len() as int + 38] == (
            named("p"@, row.stats.pid, ".th_loss_rate"@),
            c.w_reliability@,
        ),
        linucb_fields(head, row, c)[head.len() as int + 39] == (
            named("p"@, row.stats.pid, ".th_bw_norm"@),
            c.w_pacing@,
        ),
        linucb_fields(head, row, c)[head.len() as int + 40] == (
            named("p"@, row.stats.pid, ".th_bias"@),
            c.w_bias@,
        ),
        linucb_fields(head, row, c)[head.len() as int + 41] == (
            named("features/path"@, row.stats.pid, "_latency_score"@),
            c.x_latency@,
        ),
        linucb_fields(head, row, c)[head.len() as int + 42] == (
            named("features/path"@, row.stats.pid, "_cwnd_headroom"@),
            c.x_headroom@,
        ),
        linucb_fields(head, row, c)[head.len() as int + 43] == (
            named("features/path"@, row.stats.pid, "_reliability_score"@),
            c.x_reliability@,
        ),
        linucb_fields(head, row, c)[head.len() as int + 44] == (
            named("features/path"@, row.stats.pid, "_relative_pacing_score"@),
            c.x_pacing@,
        ),
        linucb_fields(head, row, c)[head.len() as int + 45] == (
            named("features/path"@, row.stats.pid, "_bias"@),
            c.x_bias@,
        ),
        linucb_fields(head, row, c)[head.len() as int + 46] == (
            named("weights/path"@, row.stats.pid, "_latency_score"@),
            c.w_latency@,
        ),
        linucb_fields(head, row, c)[head.len() as int + 47] == (
            named("weights/path"@, row.stats.pid, "_cwnd_headroom"@),
            c.w_headroom@,
        ),
        linucb_fields(head, row, c)[head.len() as int + 48] == (
            named("weights/path"@, row.stats.pid, "_reliability_score"@),
            c.w_reliability@,
        ),
        linucb_fields(head, row, c)[head.len() as int + 49] == (
            named("weights/path"@, row.stats.pid, "_relative_pacing_score"@),
            c.w_pacing@,
        ),
        linucb_fields(head, row, c)[head.len() as int + 50] == (
            named("weights/path"@, row.stats.pid, "_bias"@),
            c.w_bias@,
        ),
{
    reveal(linucb_fields);
    let a = network_fields(head, row, c);
    let b = model_fields(a, row, c);
    let d = input_fields(b, row, c);
    let e = weight_fields(d, row, c);
    lemma_network_fields(head, row, c);
    lemma_model_fields(a, row, c);
    lemma_input_fields(b, row, c);
    lemma_weight_fields(d, row, c);
    lemma_kept(d, e);
    lemma_kept(b, d);
    lemma_kept(a, b);
    lemma_kept(head, a);
    assert(e.subrange(0, head.len() as int) =~= head);
    assert(e[head.len() as int + 0] == a[head.len() as int + 0]);
    assert(e[head.len() as int + 1] == a[head.len() as int + 1]);
    assert(e[head.len() as int + 2] == a[head.len() as int + 2]);
    assert(e[head.len() as int + 3] == a[head.len() as int + 3]);
    assert(e[head.len() as int + 4] == a[head.len() as int + 4]);
    assert(e[head.len() as int + 5] == a[head.len() as int + 5]);
    assert(e[head.len() as int + 6] == a[head.len() as int + 6]);
    assert(e[head.len() as int + 7] == a[head.len() as int + 7]);
    assert(e[head.len() as int + 8] == a[head.len() as int + 8]);
    assert(e[head.len() as int + 9] == a[head.len() as int + 9]);
    assert(e[head.len() as int + 10] == a[head.len() as int + 10]);
    assert(e[head.len() as int + 11] == a[head.len() as int + 11]);
    assert(e[head.len() as int + 12] == b[head.len() as int + 12]);
    assert(e[head.len() as int + 13] == b[head.len() as int + 13]);
    assert(e[head.len() as int + 14] == b[head.len() as int + 14]);
    assert(e[head.len() as int + 15] == b[head.len() as int + 15]);
    assert(e[head.len() as int + 16] == b[head.len() as int + 16]);
    assert(e[head.len() as int + 17] == b[head.len() as int + 17]);
    assert(e[head.len() as int + 18] == b[head.len() as int + 18]);
    assert(e[head.len() as int + 19] == b[head.len() as int + 19]);
    assert(e[head.len() as int + 20] == b[head.len() as int + 20]);
    assert(e[head.len() as int + 21] == b[head.len() as int + 21]);
    assert(e[head.len() as int + 22] == b[head.len() as int + 22]);
    assert(e[head.len() as int + 23] == b[head.len() as int + 23]);
    assert(e[head.len() as int + 24] == b[head.len() as int + 24]);
    assert(e[head.len() as int + 25] == b[head.len() as int + 25]);
    assert(e[head.len() as int + 26] == b[head.len() as int + 26]);
    assert(e[head.len() as int + 27] == b[head.len() as int + 27]);
    assert(e[head.len() as int + 28] == b[head.len() as int + 28]);
    assert(e[head.len() as int + 29] == b[head.len() as int + 29]);
    assert(e[head.len() as int + 30] == b[head.len() as int + 30]);
    assert(e[head.len() as int + 31] == d[head.len() as int + 31]);
    assert(e[head.len() as int + 32] == d[head.len() as int + 32]);
    assert(e[head.len() as int + 33] == d[head.len() as int + 33]);
    assert(e[head.len() as int + 34] == d[head.len() as int + 34]);
    assert(e[head.len() as int + 35] == d[head.len() as int + 35]);
    assert(e[head.len() as int + 36] == d[head.len() as int + 36]);
    assert(e[head.len() as int + 37] == d[head.len() as int + 37]);
    assert(e[head.len() as int + 38] == d[head.len() as int + 38]);
    assert(e[head.len() as int + 39] == d[head.len() as int + 39]);
    assert(e[head.len() as int + 40] == d[head.len() as int + 40]);
    assert(e[head.len() as int + 41] == e[head.len() as int + 41]);
    assert(e[head.len() as int + 42] == e[head.len() as int + 42]);
    assert(e[head.len() as int + 43] == e[head.len() as int + 43]);
    assert(e[head.len() as int + 44] == e[head.len() as int + 44]);
    assert(e[head.len() as int + 45] == e[head.len() as int + 45]);
    assert(e[head.len() as int + 46] == e[head.len() as int + 46]);
    assert(e[head.len() as int + 47] == e[head.len() as int + 47]);
    assert(e[head.len() as int + 48] == e[head.len() as int + 48]);
    assert(e[head.len() as int + 49] == e[head.len() as int + 49]);
    assert(e[head.len() as int + 50] == e[head.len() as int + 50]);
}

proof fn lemma_kept(head: Seq<(Seq<char>, Seq<char>)>, all: Seq<(Seq<char>, Seq<char>)>)
    requires
        head.len() <= all.len(),
        all.subrange(0, head.len() as int) == head,
    ensures
        forall|i: int| 0 <= i < head.len() ==> all[i] == #[trigger] head[i],
{
    assert forall|i: int| 0 <= i < head.len() implies all[i] == #[trigger] head[i] by {
        assert(all.subrange(0, head.len() as int)[i] == all[i]);
    }
}

/// Where the fields of each row stand.
proof fn lemma_linucb_record_fields(
    head: Seq<(Seq<char>, Seq<char>)>,
    rows: Seq<LinUcbRow>,
    cells: Seq<LinUcbCells>,
    i: int,
    j: int,
)
    requires
        rows.len() == cells.len(),
        0 <= i < rows.len(),
        0 <= j < 51,
    ensures
        linucb_record_fields(head, rows, cells)[head.len() + 51 * i + j] == linucb_fields(
            Seq::empty(),
            rows[i],
            cells[i],
        )[j],
    decreases rows.len(),
{
    let front = linucb_record_fields(head, rows.drop_last(), cells.drop_last());
    lemma_linucb_record_fields_len(head, rows.drop_last(), cells.drop_last());
    lemma_linucb_fields(front, rows.last(), cells.last());
    lemma_linucb_fields(Seq::empty(), rows.last(), cells.last());
    let all = linucb_record_fields(head, rows, cells);
    if i < rows.len() - 1 {
        lemma_linucb_record_fields(head, rows.drop_last(), cells.drop_last(), i, j);
        let k = head.len() + 51 * i + j;
        assert(all.subrange(0, front.len() as int)[k] == all[k]);
    }
}

proof fn lemma_linucb_record_fields_len(
    head: Seq<(Seq<char>, Seq<char>)>,
    rows: Seq<LinUcbRow>,
    cells: Seq<LinUcbCells>,
)
    requires
        rows.len() == cells.len(),
    ensures
        linucb_record_fields(head, rows, cells).len() == head.len() + 51 * rows.len(),
        linucb_record_fields(head, rows, cells).subrange(0, head.len() as int) == head,
    decreases rows.len(),
{
    if rows.len() == 0 {
        assert(head.subrange(0, head.len() as int) =~= head);
    } else {
        let front = linucb_record_fields(head, rows.drop_last(), cells.drop_last());
        lemma_linucb_record_fields_len(head, rows.drop_last(), cells.drop_last());
        lemma_linucb_fields(front, rows.last(), cells.last());
        let all = linucb_record_fields(head, rows, cells);
        assert(all.subrange(0, head.len() as int) =~= all.subrange(0, front.len() as int).subrange(
            0,
            head.len() as int,
        ));
    }
}

/// A LinUCB line shows the traffic, latency, throughput, congestion and loss of every
/// path, each value under the key that names both.
#[verifier::rlimit(40)]
pub proof fn linucb_line_shows_network_values(
    head: Seq<(Seq<char>, Seq<char>)>,
    rows: Seq<LinUcbRow>,
    cells: Seq<LinUcbCells>,
    i: int,
)
    requires
        rows.len() == cells.len(),
        0 <= i < rows.len(),
    ensures
        linucb_record_fields(head, rows, cells).len() == head.len() + 51 * rows.len(),
        linucb_record_fields(head, rows, cells).subrange(0, head.len() as int) == head,
        ({
            let line = json_line(linucb_record_fields(head, rows, cells));
            let pid = rows[i].stats.pid;
            let row = rows[i];
            let c = cells[i];
            &&& shows_field(line, named("traffic/path"@, pid, "_pct"@), c.pct@)
            &&& shows_field(line, named("latency/path"@, pid, "_rtt_ms"@), c.rtt_ms@)
            &&& shows_field(line, named("latency/path"@, pid, "_latest_rtt_ms"@), c.latest_rtt_ms@)
            &&& shows_field(line, named("throughput/path"@, pid, "_mbps"@), c.mbps@)
            &&& shows_field(line, named("congestion/path"@, pid, "_cwnd_KB"@), c.cwnd_kb@)
            &&& shows_field(line, named("congestion/path"@, pid, "_inflight_KB"@), c.inflight_kb@)
            &&& shows_field(line, named("congestion/path"@, pid, "_pacing_mbps"@), c.pacing_mbps@)
            &&& shows_field(
                line,
                named("loss/path"@, pid, "_sent"@),
                decimal(row.stats.sent as nat),
            )
            &&& shows_field(
                line,
                named("loss/path"@, pid, "_lost"@),
                decimal(row.stats.lost as nat),
            )
            &&& shows_field(line, named("linucb/path"@, pid, "_reward"@), c.reward@)
            &&& shows_field(line, named("linucb/path"@, pid, "_explore_bonus"@), c.bonus@)
            &&& shows_field(
                line,
                named("linucb/path"@, pid, "_samples"@),
                decimal(row.samples as nat),
            )
        }),
{
    let fs = linucb_record_fields(head, rows, cells);
    let row = rows[i];
    let c = cells[i];
    let pid = row.stats.pid;
    let k = head.len() + 51 * i;
    lemma_linucb_record_fields_len(head, rows, cells);
    lemma_linucb_fields(Seq::empty(), row, c);
    lemma_linucb_record_fields(head, rows, cells, i, 0);
    lemma_shown(fs, k + 0, named("traffic/path"@, pid, "_pct"@), c.pct@);
    lemma_linucb_record_fields(head, rows, cells, i, 1);
    lemma_shown(fs, k + 1, named("latency/path"@, pid, "_rtt_ms"@), c.rtt_ms@);
    lemma_linucb_record_fields(head, rows, cells, i, 2);
    lemma_shown(fs, k + 2, named("latency/path"@, pid, "_latest_rtt_ms"@), c.latest_rtt_ms@);
    lemma_linucb_record_fields(head, rows, cells, i, 3);
    lemma_shown(fs, k + 3, named("throughput/path"@, pid, "_mbps"@), c.mbps@);
    lemma_linucb_record_fields(head, rows, cells, i, 4);
    lemma_shown(fs, k + 4, named("congestion/path"@, pid, "_cwnd_KB"@), c.cwnd_kb@);
    lemma_linucb_record_fields(head, rows, cells, i, 5);
    lemma_shown(fs, k + 5, named("congestion/path"@, pid, "_inflight_KB"@), c.inflight_kb@);
    lemma_linucb_record_fields(head, rows, cells, i, 6);
    lemma_shown(fs, k + 6, named("congestion/path"@, pid, "_pacing_mbps"@), c.pacing_mbps@);
    lemma_linucb_record_fields(head, rows, cells, i, 7);
    lemma_shown(fs, k + 7, named("loss/path"@, pid, "_sent"@), decimal(row.stats.sent as nat));
    lemma_linucb_record_fields(head, rows, cells, i, 8);
    lemma_shown(fs, k + 8, named("loss/path"@, pid, "_lost"@), decimal(row.stats.lost as nat));
    lemma_linucb_record_fields(head, rows, cells, i, 9);
    lemma_shown(fs, k + 9, named("linucb/path"@, pid, "_reward"@), c.reward@);
    lemma_linucb_record_fields(head, rows, cells, i, 10);
    lemma_shown(fs, k + 10, named("linucb/path"@, pid, "_explore_bonus"@), c.bonus@);
    lemma_linucb_record_fields(head, rows, cells, i, 11);
    lemma_shown(fs, k + 11, named("linucb/path"@, pid, "_samples"@), decimal(row.samples as nat));
}

/// A LinUCB line shows the state of the model of every path, each value under the key
/// that names both.
#[verifier::rlimit(40)]
pub proof fn linucb_line_shows_model_values(
    head: Seq<(Seq<char>, Seq<char>)>,
    rows: Seq<LinUcbRow>,
    cells: Seq<LinUcbCells>,
    i: int,
)
    requires
        rows.len() == cells.len(),
        0 <= i < rows.len(),
    ensures
        linucb_record_fields(head, rows, cells).len() == head.len() + 51 * rows.len(),
        linucb_record_fields(head, rows, cells).subrange(0, head.len() as int) == head,
        ({
            let line = json_line(linucb_record_fields(head, rows, cells));
            let pid = rows[i].stats.pid;
            let row = rows[i];
            let c = cells[i];
            &&& shows_field(line, named("p"@, pid, ".pct"@), c.pct@)
            &&& shows_field(line, named("p"@, pid, ".rtt_us"@), c.rtt_us@)
            &&& shows_field(line, named("p"@, pid, ".rtt_ms"@), c.rtt_ms@)
            &&& shows_field(line, named("p"@, pid, ".reward"@), c.reward@)
            &&& shows_field(line, named("p"@, pid, ".bonus"@), c.bonus@)
            &&& shows_field(line, named("p"@, pid, ".ucb_total"@), c.ucb_total@)
            &&& shows_field(line, named("p"@, pid, ".explore_ratio"@), c.explore_ratio@)
            &&& shows_field(line, named("p"@, pid, ".a_trace"@), c.a_trace@)
            &&& shows_field(line, named("p"@, pid, ".forget_count"@), "0"@)
            &&& shows_field(line, named("p"@, pid, ".n"@), decimal(row.samples as nat))
            &&& shows_field(line, named("p"@, pid, ".alpha"@), c.alpha@)
            &&& shows_field(line, named("p"@, pid, ".pacing_mbps"@), c.pacing_mbps@)
            &&& shows_field(line, named("p"@, pid, ".delivered_mbps"@), c.mbps@)
            &&& shows_field(line, named("p"@, pid, ".sent_per_sec"@), "0"@)
            &&& shows_field(line, named("p"@, pid, ".traffic_share_pct"@), c.share_pct@)
            &&& shows_field(line, named("p"@, pid, ".bif_kb"@), c.bif_kb@)
            &&& shows_field(line, named("p"@, pid, ".cwnd_kb"@), c.cwnd_kb_fine@)
            &&& shows_field(line, named("p"@, pid, ".sent"@), decimal(row.stats.sent as nat))
            &&& shows_field(line, named("p"@, pid, ".lost"@), decimal(row.stats.lost as nat))
        }),
{
    let fs = linucb_record_fields(head, rows, cells);
    let row = rows[i];
    let c = cells[i];
    let pid = row.stats.pid;
    let k = head.len() + 51 * i;
    lemma_linucb_record_fields_len(head, rows, cells);
    lemma_linucb_fields(Seq::empty(), row, c);
    lemma_linucb_record_fields(head, rows, cells, i, 12);
    lemma_shown(fs, k + 12, named("p"@, pid, ".pct"@), c.pct@);
    lemma_linucb_record_fields(head, rows, cells, i, 13);
    lemma_shown(fs, k + 13, named("p"@, pid, ".rtt_us"@), c.rtt_us@);
    lemma_linucb_record_fields(head, rows, cells, i, 14);
    lemma_shown(fs, k + 14, named("p"@, pid, ".rtt_ms"@), c.rtt_ms@);
    lemma_linucb_record_fields(head, rows, cells, i, 15);
    lemma_shown(fs, k + 15, named("p"@, pid, ".reward"@), c.reward@);
    lemma_linucb_record_fields(head, rows, cells, i, 16);
    lemma_shown(fs, k + 16, named("p"@, pid, ".bonus"@), c.bonus@);
    lemma_linucb_record_fields(head, rows, cells, i, 17);
    lemma_shown(fs, k + 17, named("p"@, pid, ".ucb_total"@), c.ucb_total@);
    lemma_linucb_record_fields(head, rows, cells, i, 18);
    lemma_shown(fs, k + 18, named("p"@, pid, ".explore_ratio"@), c.explore_ratio@);
    lemma_linucb_record_fields(head, rows, cells, i, 19);
    lemma_shown(fs, k + 19, named("p"@, pid, ".a_trace"@), c.a_trace@);
    lemma_linucb_record_fields(head, rows, cells, i, 20);
    lemma_shown(fs, k + 20, named("p"@, pid, ".forget_count"@), "0"@);
    lemma_linucb_record_fields(head, rows, cells, i, 21);
    lemma_shown(fs, k + 21, named("p"@, pid, ".n"@), decimal(row.samples as nat));
    lemma_linucb_record_fields(head, rows, cells, i, 22);
    lemma_shown(fs, k + 22, named("p"@, pid, ".alpha"@), c.alpha@);
    lemma_linucb_record_fields(head, rows, cells, i, 23);
    lemma_shown(fs, k + 23, named("p"@, pid, ".pacing_mbps"@), c.pacing_mbps@);
    lemma_linucb_record_fields(head, rows, cells, i, 24);
    lemma_shown(fs, k + 24, named("p"@, pid, ".delivered_mbps"@), c.mbps@);
    lemma_linucb_record_fields(head, rows, cells, i, 25);
    lemma_shown(fs, k + 25, named("p"@, pid, ".sent_per_sec"@), "0"@);
    lemma_linucb_record_fields(head, rows, cells, i, 26);
    lemma_shown(fs, k + 26, named("p"@, pid, ".traffic_share_pct"@), c.share_pct@);
    lemma_linucb_record_fields(head, rows, cells, i, 27);
    lemma_shown(fs, k + 27, named("p"@, pid, ".bif_kb"@), c.bif_kb@);
    lemma_linucb_record_fields(head, rows, cells, i, 28);
    lemma_shown(fs, k + 28, named("p"@, pid, ".cwnd_kb"@), c.cwnd_kb_fine@);
    lemma_linucb_record_fields(head, rows, cells, i, 29);
    lemma_shown(fs, k + 29, named("p"@, pid, ".sent"@), decimal(row.stats.sent as nat));
    lemma_linucb_record_fields(head, rows, cells, i, 30);
    lemma_shown(fs, k + 30, named("p"@, pid, ".lost"@), decimal(row.stats.lost as nat));
}

/// A LinUCB line shows the inputs and weights, under their short names, of every path,
/// each value under the key that names both.
#[verifier::rlimit(40)]
pub proof fn linucb_line_shows_input_values(
    head: Seq<(Seq<char>, Seq<char>)>,
    rows: Seq<LinUcbRow>,
    cells: Seq<LinUcbCells>,
    i: int,
)
    requires
        rows.len() == cells.len(),
        0 <= i < rows.len(),
    ensures
        linucb_record_fields(head, rows, cells).len() == head.len() + 51 * rows.len(),
        linucb_record_fields(head, rows, cells).subrange(0, head.len() as int) == head,
        ({
            let line = json_line(linucb_record_fields(head, rows, cells));
            let pid = rows[i].stats.pid;
            let row = rows[i];
            let c = cells[i];
            &&& shows_field(line, named("p"@, pid, ".x_rtt_norm"@), c.rtt_norm@)
            &&& shows_field(line, named("p"@, pid, ".x_cwnd_p"@), c.cwnd_p@)
            &&& shows_field(line, named("p"@, pid, ".x_loss_rate"@), c.loss_rate@)
            &&& shows_field(line, named("p"@, pid, ".x_bw_norm"@), c.bw_norm@)
            &&& shows_field(line, named("p"@, pid, ".x_bias"@), "1.0000"@)
            &&& shows_field(line, named("p"@, pid, ".th_rtt_norm"@), c.w_latency@)
            &&& shows_field(line, named("p"@, pid, ".th_cwnd_p"@), c.w_headroom@)
            &&& shows_field(line, named("p"@, pid, ".th_loss_rate"@), c.w_reliability@)
            &&& shows_field(line, named("p"@, pid, ".th_bw_norm"@), c.w_pacing@)
            &&& shows_field(line, named("p"@, pid, ".th_bias"@), c.w_bias@)
        }),
{
    let fs = linucb_record_fields(head, rows, cells);
    let row = rows[i];
    let c = cells[i];
    let pid = row.stats.pid;
    let k = head.len() + 51 * i;
    lemma_linucb_record_fields_len(head, rows, cells);
    lemma_linucb_fields(Seq::empty(), row, c);
    lemma_linucb_record_fields(head, rows, cells, i, 31);
    lemma_shown(fs, k + 31, named("p"@, pid, ".x_rtt_norm"@), c.rtt_norm@);
    lemma_linucb_record_fields(head, rows, cells, i, 32);
    lemma_shown(fs, k + 32, named("p"@, pid, ".x_cwnd_p"@), c.cwnd_p@);
    lemma_linucb_record_fields(head, rows, cells, i, 33);
    lemma_shown(fs, k + 33, named("p"@, pid, ".x_loss_rate"@), c.loss_rate@);
    lemma_linucb_record_fields(head, rows, cells, i, 34);
    lemma_shown(fs, k + 34, named("p"@, pid, ".x_bw_norm"@), c.bw_norm@);
    lemma_linucb_record_fields(head, rows, cells, i, 35);
    lemma_shown(fs, k + 35, named("p"@, pid, ".x_bias"@), "1.0000"@);
    lemma_linucb_record_fields(head, rows, cells, i, 36);
    lemma_shown(fs, k + 36, named("p"@, pid, ".th_rtt_norm"@), c.w_latency@);
    lemma_linucb_record_fields(head, rows, cells, i, 37);
    lemma_shown(fs, k + 37, named("p"@, pid, ".th_cwnd_p"@), c.w_headroom@);
    lemma_linucb_record_fields(head, rows, cells, i, 38);
    lemma_shown(fs, k + 38, named("p"@, pid, ".th_loss_rate"@), c.w_reliability@);
    lemma_linucb_record_fields(head, rows, cells, i, 39);
    lemma_shown(fs, k + 39, named("p"@, pid, ".th_bw_norm"@), c.w_pacing@);
    lemma_linucb_record_fields(head, rows, cells, i, 40);
    lemma_shown(fs, k + 40, named("p"@, pid, ".th_bias"@), c.w_bias@);
}

/// A LinUCB line shows the features and the weights of every path, each value under the
/// key that names both.
#[verifier::rlimit(40)]
pub proof fn linucb_line_shows_weight_values(
    head: Seq<(Seq<char>, Seq<char>)>,
    rows: Seq<LinUcbRow>,
    cells: Seq<LinUcbCells>,
    i: int,
)
    requires
        rows.len() == cells.len(),
        0 <= i < rows.len(),
    ensures
        linucb_record_fields(head, rows, cells).len() == head.len() + 51 * rows.len(),
        linucb_record_fields(head, rows, cells).subrange(0, head.len() as int) == head,
        ({
            let line = json_line(linucb_record_fields(head, rows, cells));
            let pid = rows[i].stats.pid;
            let row = rows[i];
            let c = cells[i];
            &&& shows_field(line, named("features/path"@, pid, "_latency_score"@), c.x_latency@)
            &&& shows_field(line, named("features/path"@, pid, "_cwnd_headroom"@), c.x_headroom@)
            &&& shows_field(
                line,
                named("features/path"@, pid, "_reliability_score"@),
                c.x_reliability@,
            )
            &&& shows_field(
                line,
                named("features/path"@, pid, "_relative_pacing_score"@),
                c.x_pacing@,
            )
            &&& shows_field(line, named("features/path"@, pid, "_bias"@), c.x_bias@)
            &&& shows_field(line, named("weights/path"@, pid, "_latency_score"@), c.w_latency@)
            &&& shows_field(line, named("weights/path"@, pid, "_cwnd_headroom"@), c.w_headroom@)
            &&& shows_field(
                line,
                named("weights/path"@, pid, "_reliability_score"@),
                c.w_reliability@,
            )
            &&& shows_field(
                line,
                named("weights/path"@, pid, "_relative_pacing_score"@),
                c.w_pacing@,
            )
            &&& shows_field(line, named("weights/path"@, pid, "_bias"@), c.w_bias@)
        }),
{
    let fs = linucb_record_fields(head, rows, cells);
    let row = rows[i];
    let c = cells[i];
    let pid = row.stats.pid;
    let k = head.len() + 51 * i;
    lemma_linucb_record_fields_len(head, rows, cells);
    lemma_linucb_fields(Seq::empty(), row, c);
    lemma_linucb_record_fields(head, rows, cells, i, 41);
    lemma_shown(fs, k + 41, named("features/path"@, pid, "_latency_score"@), c.x_latency@);
    lemma_linucb_record_fields(head, rows, cells, i, 42);
    lemma_shown(fs, k + 42, named("features/path"@, pid, "_cwnd_headroom"@), c.x_headroom@);
    lemma_linucb_record_fields(head, rows, cells, i, 43);
    lemma_shown(fs, k + 43, named("features/path"@, pid, "_reliability_score"@), c.x_reliability@);
    lemma_linucb_record_fields(head, rows, cells, i, 44);
    lemma_shown(fs, k + 44, named("features/path"@, pid, "_relative_pacing_score"@), c.x_pacing@);
    lemma_linucb_record_fields(head, rows, cells, i, 45);
    lemma_shown(fs, k + 45, named("features/path"@, pid, "_bias"@), c.x_bias@);
    lemma_linucb_record_fields(head, rows, cells, i, 46);
    lemma_shown(fs, k + 46, named("weights/path"@, pid, "_latency_score"@), c.w_latency@);
    lemma_linucb_record_fields(head, rows, cells, i, 47);
    lemma_shown(fs, k + 47, named("weights/path"@, pid, "_cwnd_headroom"@), c.w_headroom@);
    lemma_linucb_record_fields(head, rows, cells, i, 48);
    lemma_shown(fs, k + 48, named("weights/path"@, pid, "_reliability_score"@), c.w_reliability@);
    lemma_linucb_record_fields(head, rows, cells, i, 49);
    lemma_shown(fs, k + 49, named("weights/path"@, pid, "_relative_pacing_score"@), c.w_pacing@);
    lemma_linucb_record_fields(head, rows, cells, i, 50);
    lemma_shown(fs, k + 50, named("weights/path"@, pid, "_bias"@), c.w_bias@);
}

// ───────────────────────────── epsilon-greedy ─────────────────────────────

proof fn lemma_candidate_fields(
    head: Seq<(Seq<char>, Seq<char>)>,
    row: GreedyRow,
    c: CandidateCells,
)
    ensures
        candidate_fields(head, row, c).len() == head.len() + 15,
        candidate_fields(head, row, c).subrange(0, head.len() as int) == head,
        candidate_fields(head, row, c)[head.len() as int + 0] == (
            named("epsilon_greedy/path"@, row.pid, "_selection_pct"@),
            c.selection_pct@,
        ),
        candidate_fields(head, row, c)[head.len() as int + 1] == (
            named("epsilon_greedy/path"@, row.pid, "_prediction"@),
            c.prediction@,
        ),
        candidate_fields(head, row, c)[head.len() as int + 2] == (
            named("epsilon_greedy/path"@, row.pid, "_samples"@),
            decimal(row.arm.samples as nat),
        ),
        candidate_fields(head, row, c)[head.len() as int + 3] == (
            named("epsilon_greedy/path"@, row.pid, "_selections"@),
            decimal(row.arm.selections as nat),
        ),
        candidate_fields(head, row, c)[head.len() as int + 4] == (
            named("epsilon_greedy/path"@, row.pid, "_pending"@),
            decimal(row.arm.pending_decisions as nat),
        ),
        candidate_fields(head, row, c)[head.len() as int + 5] == (
            named("epsilon_greedy/path"@, row.pid, "_loss_ewma"@),
            c.loss_ewma@,
        ),
        candidate_fields(head, row, c)[head.len() as int + 6] == (
            named("epsilon_greedy/path"@, row.pid, "_x_latency"@),
            c.x_latency@,
        ),
        candidate_fields(head, row, c)[head.len() as int + 7] == (
            named("epsilon_greedy/path"@, row.pid, "_x_cwnd"@),
            c.x_cwnd@,
        ),
        candidate_fields(head, row, c)[head.len() as int + 8] == (
            named("epsilon_greedy/path"@, row.pid, "_x_reliability"@),
            c.x_reliability@,
        ),
        candidate_fields(head, row, c)[head.len() as int + 9] == (
            named("epsilon_greedy/path"@, row.pid, "_x_pacing"@),
            c.x_pacing@,
        ),
        candidate_fields(head, row, c)[head.len() as int + 10] == (
            named("epsilon_greedy/path"@, row.pid, "_theta_latency"@),
            c.theta_latency@,
        ),
        candidate_fields(head, row, c)[head.len() as int + 11] == (
            named("epsilon_greedy/path"@, row.pid, "_theta_cwnd"@),
            c.theta_cwnd@,
        ),
        candidate_fields(head, row, c)[head.len() as int + 12] == (
            named("epsilon_greedy/path"@, row.pid, "_theta_reliability"@),
            c.theta_reliability@,
        ),
        candidate_fields(head, row, c)[head.len() as int + 13] == (
            named("epsilon_greedy/path"@, row.pid, "_theta_pacing"@),
            c.theta_pacing@,
        ),
        candidate_fields(head, row, c)[head.len() as int + 14] == (
            named("epsilon_greedy/path"@, row.pid, "_theta_bias"@),
            c.theta_bias@,
        ),
{
    assert(candidate_fields(head, row, c).subrange(0, head.len() as int) =~= head);
}

/// Where the fields of each row stand.
proof fn lemma_candidates_fields(
    head: Seq<(Seq<char>, Seq<char>)>,
    rows: Seq<GreedyRow>,
    cells: Seq<CandidateCells>,
    i: int,
    j: int,
)
    requires
        rows.len() == cells.len(),
        0 <= i < rows.len(),
        0 <= j < 15,
    ensures
        candidates_fields(head, rows, cells)[head.len() + 15 * i + j] == candidate_fields(
            Seq::empty(),
            rows[i],
            cells[i],
        )[j],
    decreases rows.len(),
{
    let front = candidates_fields(head, rows.drop_last(), cells.drop_last());
    lemma_candidates_fields_len(head, rows.drop_last(), cells.drop_last());
    lemma_candidate_fields(front, rows.last(), cells.last());
    lemma_candidate_fields(Seq::empty(), rows.last(), cells.last());
    let all = candidates_fields(head, rows, cells);
    if i < rows.len() - 1 {
        lemma_candidates_fields(head, rows.drop_last(), cells.drop_last(), i, j);
        let k = head.len() + 15 * i + j;
        assert(all.subrange(0, front.len() as int)[k] == all[k]);
    }
}

proof fn lemma_candidates_fields_len(
    head: Seq<(Seq<char>, Seq<char>)>,
    rows: Seq<GreedyRow>,
    cells: Seq<CandidateCells>,
)
    requires
        rows.len() == cells.len(),
    ensures
        candidates_fields(head, rows, cells).len() == head.len() + 15 * rows.len(),
        candidates_fields(head, rows, cells).subrange(0, head.len() as int) == head,
    decreases rows.len(),
{
    if rows.len() == 0 {
        assert(head.subrange(0, head.len() as int) =~= head);
    } else {
        let front = candidates_fields(head, rows.drop_last(), cells.drop_last());
        lemma_candidates_fields_len(head, rows.drop_last(), cells.drop_last());
        lemma_candidate_fields(front, rows.last(), cells.last());
        let all = candidates_fields(head, rows, cells);
        assert(all.subrange(0, head.len() as int) =~= all.subrange(0, front.len() as int).subrange(
            0,
            head.len() as int,
        ));
    }
}

/// A selection line shows every value of every candidate under the key that names both,
/// and nothing else behind its head.
#[verifier::rlimit(40)]
pub proof fn selection_line_shows_each_candidate(
    head: Seq<(Seq<char>, Seq<char>)>,
    rows: Seq<GreedyRow>,
    cells: Seq<CandidateCells>,
    i: int,
)
    requires
        rows.len() == cells.len(),
        0 <= i < rows.len(),
    ensures
        candidates_fields(head, rows, cells).len() == head.len() + 15 * rows.len(),
        candidates_fields(head, rows, cells).subrange(0, head.len() as int) == head,
        ({
            let line = json_line(candidates_fields(head, rows, cells));
            let pid = rows[i].pid;
            let row = rows[i];
            let c = cells[i];
            &&& shows_field(
                line,
                named("epsilon_greedy/path"@, pid, "_selection_pct"@),
                c.selection_pct@,
            )
            &&& shows_field(line, named("epsilon_greedy/path"@, pid, "_prediction"@), c.prediction@)
            &&& shows_field(
                line,
                named("epsilon_greedy/path"@, pid, "_samples"@),
                decimal(row.arm.samples as nat),
            )
            &&& shows_field(
                line,
                named("epsilon_greedy/path"@, pid, "_selections"@),
                decimal(row.arm.selections as nat),
            )
            &&& shows_field(
                line,
                named("epsilon_greedy/path"@, pid, "_pending"@),
                decimal(row.arm.pending_decisions as nat),
            )
            &&& shows_field(line, named("epsilon_greedy/path"@, pid, "_loss_ewma"@), c.loss_ewma@)
            &&& shows_field(line, named("epsilon_greedy/path"@, pid, "_x_latency"@), c.x_latency@)
            &&& shows_field(line, named("epsilon_greedy/path"@, pid, "_x_cwnd"@), c.x_cwnd@)
            &&& shows_field(
                line,
                named("epsilon_greedy/path"@, pid, "_x_reliability"@),
                c.x_reliability@,
            )
            &&& shows_field(line, named("epsilon_greedy/path"@, pid, "_x_pacing"@), c.x_pacing@)
            &&& shows_field(
                line,
                named("epsilon_greedy/path"@, pid, "_theta_latency"@),
                c.theta_latency@,
            )
            &&& shows_field(line, named("epsilon_greedy/path"@, pid, "_theta_cwnd"@), c.theta_cwnd@)
            &&& shows_field(
                line,
                named("epsilon_greedy/path"@, pid, "_theta_reliability"@),
                c.theta_reliability@,
            )
            &&& shows_field(
                line,
                named("epsilon_greedy/path"@, pid, "_theta_pacing"@),
                c.theta_pacing@,
            )
            &&& shows_field(line, named("epsilon_greedy/path"@, pid, "_theta_bias"@), c.theta_bias@)
        }),
{
    let fs = candidates_fields(head, rows, cells);
    let row = rows[i];
    let c = cells[i];
    let pid = row.pid;
    let k = head.len() + 15 * i;
    lemma_candidates_fields_len(head, rows, cells);
    lemma_candidate_fields(Seq::empty(), row, c);
    lemma_candidates_fields(head, rows, cells, i, 0);
    lemma_shown(fs, k + 0, named("epsilon_greedy/path"@, pid, "_selection_pct"@), c.selection_pct@);
    lemma_candidates_fields(head, rows, cells, i, 1);
    lemma_shown(fs, k + 1, named("epsilon_greedy/path"@, pid, "_prediction"@), c.prediction@);
    lemma_candidates_fields(head, rows, cells, i, 2);
    lemma_shown(
        fs,
        k + 2,
        named("epsilon_greedy/path"@, pid, "_samples"@),
        decimal(row.arm.samples as nat),
    );
    lemma_candidates_fields(head, rows, cells, i, 3);
    lemma_shown(
        fs,
        k + 3,
        named("epsilon_greedy/path"@, pid, "_selections"@),
        decimal(row.arm.selections as nat),
    );
    lemma_candidates_fields(head, rows, cells, i, 4);
    lemma_shown(
        fs,
        k + 4,
        named("epsilon_greedy/path"@, pid, "_pending"@),
        decimal(row.arm.pending_decisions as nat),
    );
    lemma_candidates_fields(head, rows, cells, i, 5);
    lemma_shown(fs, k + 5, named("epsilon_greedy/path"@, pid, "_loss_ewma"@), c.loss_ewma@);
    lemma_candidates_fields(head, rows, cells, i, 6);
    lemma_shown(fs, k + 6, named("epsilon_greedy/path"@, pid, "_x_latency"@), c.x_latency@);
    lemma_candidates_fields(head, rows, cells, i, 7);
    lemma_shown(fs, k + 7, named("epsilon_greedy/path"@, pid, "_x_cwnd"@), c.x_cwnd@);
    lemma_candidates_fields(head, rows, cells, i, 8);
    lemma_shown(fs, k + 8, named("epsilon_greedy/path"@, pid, "_x_reliability"@), c.x_reliability@);
    lemma_candidates_fields(head, rows, cells, i, 9);
    lemma_shown(fs, k + 9, named("epsilon_greedy/path"@, pid, "_x_pacing"@), c.x_pacing@);
    lemma_candidates_fields(head, rows, cells, i, 10);
    lemma_shown(
        fs,
        k + 10,
        named("epsilon_greedy/path"@, pid, "_theta_latency"@),
        c.theta_latency@,
    );
    lemma_candidates_fields(head, rows, cells, i, 11);
    lemma_shown(fs, k + 11, named("epsilon_greedy/path"@, pid, "_theta_cwnd"@), c.theta_cwnd@);
    lemma_candidates_fields(head, rows, cells, i, 12);
    lemma_shown(
        fs,
        k + 12,
        named("epsilon_greedy/path"@, pid, "_theta_reliability"@),
        c.theta_reliability@,
    );
    lemma_candidates_fields(head, rows, cells, i, 13);
    lemma_shown(fs, k + 13, named("epsilon_greedy/path"@, pid, "_theta_pacing"@), c.theta_pacing@);
    lemma_candidates_fields(head, rows, cells, i, 14);
    lemma_shown(fs, k + 14, named("epsilon_greedy/path"@, pid, "_theta_bias"@), c.theta_bias@);
}

/// The head of a selection line says what it is, which path was selected and the
/// exploration rate.
pub proof fn selection_line_starts_with_its_choice(
    head: Seq<(Seq<char>, Seq<char>)>,
    selected: usize,
    epsilon: Seq<char>,
)
    ensures
        selection_head(head, selected, epsilon) == head + seq![
            ("epsilon_greedy/event"@, "\"selection_snapshot\""@),
            ("epsilon_greedy/selected_path"@, decimal(selected as nat)),
            ("epsilon_greedy/epsilon"@, epsilon),
        ],
{
}

/// An update line shows the path, what caused the update, and every value of the
/// model under its own key, and nothing else behind its head.
#[verifier::rlimit(40)]
pub proof fn update_line_shows_each_value(
    head: Seq<(Seq<char>, Seq<char>)>,
    path_id: usize,
    arm: ArmState,
    source: UpdateSource,
    epsilon: Seq<char>,
    c: UpdateCells,
)
    ensures
        update_fields(head, path_id, arm, source, epsilon, c).len() == head.len() + 19,
        update_fields(head, path_id, arm, source, epsilon, c).subrange(0, head.len() as int)
            == head,
        ({
            let line = json_line(update_fields(head, path_id, arm, source, epsilon, c));
            let cause = match source {
                UpdateSource::AckFeedback => "\"ack_feedback\""@,
                UpdateSource::StaleTimeout => "\"stale_timeout\""@,
            };
            &&& shows_field(line, "epsilon_greedy/event"@, "\"model_update\""@)
            &&& shows_field(line, "epsilon_greedy/update_source"@, cause)
            &&& shows_field(line, "epsilon_greedy/path"@, decimal(path_id as nat))
            &&& shows_field(line, "epsilon_greedy/reward"@, c.reward@)
            &&& shows_field(line, "epsilon_greedy/epsilon"@, epsilon)
            &&& shows_field(line, "epsilon_greedy/x_latency"@, c.x_latency@)
            &&& shows_field(line, "epsilon_greedy/x_cwnd"@, c.x_cwnd@)
            &&& shows_field(line, "epsilon_greedy/x_reliability"@, c.x_reliability@)
            &&& shows_field(line, "epsilon_greedy/x_pacing"@, c.x_pacing@)
            &&& shows_field(line, "epsilon_greedy/x_bias"@, c.x_bias@)
            &&& shows_field(line, "epsilon_greedy/samples"@, decimal(arm.samples as nat))
            &&& shows_field(line, "epsilon_greedy/selections"@, decimal(arm.selections as nat))
            &&& shows_field(line, "epsilon_greedy/pending"@, decimal(arm.pending_decisions as nat))
            &&& shows_field(line, "epsilon_greedy/loss_ewma"@, c.loss_ewma@)
            &&& shows_field(line, "epsilon_greedy/theta_latency"@, c.theta_latency@)
            &&& shows_field(line, "epsilon_greedy/theta_cwnd"@, c.theta_cwnd@)
            &&& shows_field(line, "epsilon_greedy/theta_reliability"@, c.theta_reliability@)
            &&& shows_field(line, "epsilon_greedy/theta_pacing"@, c.theta_pacing@)
            &&& shows_field(line, "epsilon_greedy/theta_bias"@, c.theta_bias@)
        }),
{
    let fs = update_fields(head, path_id, arm, source, epsilon, c);
    let k = head.len() as int;
    let cause = match source {
        UpdateSource::AckFeedback => "\"ack_feedback\""@,
        UpdateSource::StaleTimeout => "\"stale_timeout\""@,
    };
    assert(fs.subrange(0, k) =~= head);
    lemma_shown(fs, k + 0, "epsilon_greedy/event"@, "\"model_update\""@);
    lemma_shown(fs, k + 1, "epsilon_greedy/update_source"@, cause);
    lemma_shown(fs, k + 2, "epsilon_greedy/path"@, decimal(path_id as nat));
    lemma_shown(fs, k + 3, "epsilon_greedy/reward"@, c.reward@);
    lemma_shown(fs, k + 4, "epsilon_greedy/epsilon"@, epsilon);
    lemma_shown(fs, k + 5, "epsilon_greedy/x_latency"@, c.x_latency@);
    lemma_shown(fs, k + 6, "epsilon_greedy/x_cwnd"@, c.x_cwnd@);
    lemma_shown(fs, k + 7, "epsilon_greedy/x_reliability"@, c.x_reliability@);
    lemma_shown(fs, k + 8, "epsilon_greedy/x_pacing"@, c.x_pacing@);
    lemma_shown(fs, k + 9, "epsilon_greedy/x_bias"@, c.x_bias@);
    lemma_shown(fs, k + 10, "epsilon_greedy/samples"@, decimal(arm.samples as nat));
    lemma_shown(fs, k + 11, "epsilon_greedy/selections"@, decimal(arm.selections as nat));
    lemma_shown(fs, k + 12, "epsilon_greedy/pending"@, decimal(arm.pending_decisions as nat));
    lemma_shown(fs, k + 13, "epsilon_greedy/loss_ewma"@, c.loss_ewma@);
    lemma_shown(fs, k + 14, "epsilon_greedy/theta_latency"@, c.theta_latency@);
    lemma_shown(fs, k + 15, "epsilon_greedy/theta_cwnd"@, c.theta_cwnd@);
    lemma_shown(fs, k + 16, "epsilon_greedy/theta_reliability"@, c.theta_reliability@);
    lemma_shown(fs, k + 17, "epsilon_greedy/theta_pacing"@, c.theta_pacing@);
    lemma_shown(fs, k + 18, "epsilon_greedy/theta_bias"@, c.theta_bias@);
}

} // verus!
