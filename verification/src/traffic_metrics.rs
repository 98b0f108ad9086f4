//! Per-second traffic metrics, kept by the schedulers.
//!
//! Every selection is recorded. Once per second the collector takes a record of
//! every path, from which a flat JSON line is rendered with the sections
//!
//! * `traffic/`: share of the selections routed to each path, in percent
//! * `latency/`: smoothed round-trip time per path, in milliseconds
//! * `throughput/`: send rate per path, in Mbit/s
//! * `congestion/`: congestion window and bytes in flight in KB, pacing in Mbit/s
//! * `loss/`: cumulative sent and lost packet counts

use crate::clock::{
    elapsed, elapsed_ns, elapsed_secs, is_second_passed, second_passed, NANOS_PER_SEC, UNIX_LIMIT,
};
use crate::dense::{
    at, clear_counts, get, lemma_placed_at, lemma_total_placed, lemma_total_zeros, placed, put,
    total, zeros,
};
use crate::json_line::{json_line, Fields};
use crate::numerals::{decimal, decimal_string, push_decimal};
use crate::paths::{Path, PathMap};
use vstd::prelude::*;
use vstd::string::StringExecFns;

verus! {

/// What a record holds of one path.
#[derive(Clone, Copy)]
pub struct TrafficRow {
    pub pid: usize,
    /// Selections of the path in the window.
    pub count: u64,
    /// Selections of all paths in the window, at least one.
    pub total: u64,
    /// Smoothed round-trip time in microseconds.
    pub rtt_us: u64,
    /// Bytes sent since the record before.
    pub delta_bytes: u64,
    pub cwnd: u64,
    pub bytes_in_flight: usize,
    pub pacing: u64,
    pub sent_count: u64,
    pub lost_count: u64,
}

/// The record of one second.
pub struct TrafficRecord {
    pub step: u64,
    /// Unix time in seconds.
    pub timestamp: u64,
    /// Seconds since the collector was made.
    pub elapsed_s: u64,
    /// Nanoseconds since the record before, in which the rows' bytes were sent;
    /// `None` for the first record.
    pub window_ns: Option<u64>,
    pub rows: Vec<TrafficRow>,
}

/// [`TrafficRecord`] with the rows as a sequence.
#[verifier::ext_equal]
pub struct TrafficRecordModel {
    pub step: nat,
    pub timestamp: nat,
    pub elapsed_s: nat,
    pub window_ns: Option<u64>,
    pub rows: Seq<TrafficRow>,
}

impl View for TrafficRecord {
    type V = TrafficRecordModel;

    open spec fn view(&self) -> TrafficRecordModel {
        TrafficRecordModel {
            step: self.step as nat,
            timestamp: self.timestamp as nat,
            elapsed_s: self.elapsed_s as nat,
            window_ns: self.window_ns,
            rows: self.rows@,
        }
    }
}

/// Per-second traffic metrics of one connection.
pub struct TrafficMetricsCollector {
    pub start_time: u64,
    pub start_unix_secs: u64,
    pub last_log: Option<u64>,
    /// Sent bytes by path at the last record.
    pub prev_sent_bytes: Vec<u64>,
    /// Selections by path in the window.
    pub window_counts: Vec<u64>,
    pub window_total: u64,
    pub records: Vec<TrafficRecord>,
}

/// [`TrafficMetricsCollector`] with its tables as sequences.
#[verifier::ext_equal]
pub struct TrafficModel {
    pub start_time: u64,
    pub start_unix_secs: u64,
    pub last_log: Option<u64>,
    pub prev_sent_bytes: Seq<u64>,
    pub window_counts: Seq<u64>,
    pub window_total: nat,
    pub records: Seq<TrafficRecordModel>,
}

/// The row of a path.
pub open spec fn traffic_row(p: Path, prev: Seq<u64>, counts: Seq<u64>, sum: nat) -> TrafficRow {
    let before = at(prev, p.id as int, 0);
    TrafficRow {
        pid: p.id,
        count: at(counts, p.id as int, 0),
        total: if sum >= 1 {
            sum as u64
        } else {
            1
        },
        rtt_us: p.smoothed_rtt / 1000,
        delta_bytes: if p.sent_bytes >= before {
            (p.sent_bytes - before) as u64
        } else {
            0
        },
        cwnd: p.cwnd,
        bytes_in_flight: p.bytes_in_flight,
        pacing: p.pacing(),
        sent_count: p.sent_count,
        lost_count: p.lost_count,
    }
}

/// The rows of all paths.
pub open spec fn traffic_rows(
    paths: Seq<Path>,
    prev: Seq<u64>,
    counts: Seq<u64>,
    sum: nat,
) -> Seq<TrafficRow> {
    Seq::new(paths.len(), |i: int| traffic_row(paths[i], prev, counts, sum))
}

/// The table of sent bytes with the present value of every path.
pub open spec fn sent_noted(prev: Seq<u64>, paths: Seq<Path>) -> Seq<u64>
    decreases paths.len(),
{
    if paths.len() == 0 {
        prev
    } else {
        placed(
            sent_noted(prev, paths.drop_last()),
            paths.last().id as int,
            paths.last().sent_bytes,
            0,
        )
    }
}

/// Noting some paths changes nothing of another.
pub proof fn lemma_sent_noted_other(prev: Seq<u64>, paths: Seq<Path>, id: usize)
    requires
        forall|i: int| 0 <= i < paths.len() ==> (#[trigger] paths[i]).id != id,
    ensures
        at(sent_noted(prev, paths), id as int, 0) == at(prev, id as int, 0),
    decreases paths.len(),
{
    if paths.len() > 0 {
        let front = paths.drop_last();
        assert forall|i: int| 0 <= i < front.len() implies (#[trigger] front[i]).id != id by {
            assert(front[i] == paths[i]);
        }
        lemma_sent_noted_other(prev, front, id);
        lemma_placed_at(
            sent_noted(prev, front),
            paths.last().id as int,
            paths.last().sent_bytes,
            0,
            id as int,
        );
    }
}

/// The collector after a selection of the path `best` at `now`.
pub open spec fn recorded(m: TrafficModel, best: int, paths: Seq<Path>, now: u64) -> TrafficModel {
    let counts = placed(
        m.window_counts,
        best,
        (at(m.window_counts, best, 0) + 1) as u64,
        0,
    );
    let sum = m.window_total + 1;
    if second_passed(m.last_log, now) {
        let secs = elapsed_secs(m.start_time, now);
        TrafficModel {
            last_log: Some(now),
            prev_sent_bytes: sent_noted(m.prev_sent_bytes, paths),
            window_counts: zeros(counts.len()),
            window_total: 0,
            records: m.records.push(
                TrafficRecordModel {
                    step: m.records.len(),
                    timestamp: (m.start_unix_secs + secs) as nat,
                    elapsed_s: secs as nat,
                    window_ns: match m.last_log {
                        Some(t) => Some(elapsed(t, now)),
                        None => None,
                    },
                    rows: traffic_rows(paths, m.prev_sent_bytes, counts, sum),
                },
            ),
            ..m
        }
    } else {
        TrafficModel { window_counts: counts, window_total: sum, ..m }
    }
}

/// A collector that starts at `now`, which is the Unix second `unix_secs`.
pub open spec fn traffic_start(now: u64, unix_secs: u64) -> TrafficModel {
    TrafficModel {
        start_time: now,
        start_unix_secs: unix_secs,
        last_log: None,
        prev_sent_bytes: Seq::empty(),
        window_counts: Seq::empty(),
        window_total: 0,
        records: Seq::empty(),
    }
}

/// The counts of the window sum up to its total.
pub open spec fn window_ok(m: TrafficModel) -> bool {
    total(m.window_counts) == m.window_total
}

/// Recording keeps the window's counts and its total in step, so the shares of
/// one second sum up to the whole.
pub proof fn recording_keeps_window(m: TrafficModel, best: int, paths: Seq<Path>, now: u64)
    requires
        window_ok(m),
        0 <= best,
        m.window_total < u64::MAX,
    ensures
        window_ok(recorded(m, best, paths, now)),
{
    crate::dense::lemma_entry_at_most_total(m.window_counts, best);
    let x = (at(m.window_counts, best, 0) + 1) as u64;
    lemma_total_placed(m.window_counts, best, x);
    lemma_total_zeros(placed(m.window_counts, best, x, 0).len());
}

/// Two records are at least a second apart: right after one, a selection within
/// the same second adds none.
pub proof fn one_record_per_second(
    m: TrafficModel,
    best: int,
    paths: Seq<Path>,
    now: u64,
    next: int,
    later: u64,
)
    requires
        second_passed(m.last_log, now),
        now <= later,
        later - now < NANOS_PER_SEC,
    ensures
        ({
            let once = recorded(m, best, paths, now);
            recorded(once, next, paths, later).records == once.records
        }),
{
}

/// The whole seconds since the start, and the Unix time in seconds.
pub open spec fn seconds_at(start_time: u64, unix_secs: u64, now: u64) -> (int, int) {
    (elapsed_secs(start_time, now) as int, unix_secs + elapsed_secs(start_time, now))
}

/// The Unix time and the seconds since the start run together: a whole number of
/// seconds later, both are that many higher.
pub proof fn seconds_run_together(start_time: u64, unix_secs: u64, now: u64, k: nat)
    requires
        start_time <= now,
        now + k * NANOS_PER_SEC <= u64::MAX,
    ensures
        seconds_at(start_time, unix_secs, now).0 == (now - start_time) / NANOS_PER_SEC as int,
        seconds_at(start_time, unix_secs, now).1 == unix_secs + seconds_at(
            start_time,
            unix_secs,
            now,
        ).0,
        seconds_at(start_time, unix_secs, (now + k * NANOS_PER_SEC) as u64) == (
            seconds_at(start_time, unix_secs, now).0 + k,
            seconds_at(start_time, unix_secs, now).1 + k,
        ),
{
}

/// One call of the collector.
pub struct RecordCall {
    pub best: usize,
    pub paths: Seq<Path>,
    pub now: u64,
}

/// The collector after the calls, in order.
pub open spec fn recorded_all(m: TrafficModel, calls: Seq<RecordCall>) -> TrafficModel
    decreases calls.len(),
{
    if calls.len() == 0 {
        m
    } else {
        let c = calls.last();
        recorded(recorded_all(m, calls.drop_last()), c.best as int, c.paths, c.now)
    }
}

/// The calls since the last record was taken.
pub open spec fn window_calls(m: TrafficModel, calls: Seq<RecordCall>) -> Seq<RecordCall>
    decreases calls.len(),
{
    if calls.len() == 0 || second_passed(
        recorded_all(m, calls.drop_last()).last_log,
        calls.last().now,
    ) {
        Seq::empty()
    } else {
        window_calls(m, calls.drop_last()).push(calls.last())
    }
}

/// How many of the calls selected the path.
pub open spec fn calls_of(calls: Seq<RecordCall>, id: usize) -> nat
    decreases calls.len(),
{
    if calls.len() == 0 {
        0
    } else {
        calls_of(calls.drop_last(), id) + if calls.last().best == id {
            1nat
        } else {
            0
        }
    }
}

/// The window counts the calls since the last record, and those of each path.
pub proof fn window_counts_calls(now: u64, unix_secs: u64, calls: Seq<RecordCall>, id: usize)
    requires
        calls.len() <= u64::MAX,
    ensures
        ({
            let m = recorded_all(traffic_start(now, unix_secs), calls);
            let w = window_calls(traffic_start(now, unix_secs), calls);
            &&& w.len() <= calls.len()
            &&& m.window_total == w.len()
            &&& total(m.window_counts) == w.len()
            &&& at(m.window_counts, id as int, 0) == calls_of(w, id)
        }),
    decreases calls.len(),
{
    let start = traffic_start(now, unix_secs);
    if calls.len() > 0 {
        let front = calls.drop_last();
        let c = calls.last();
        window_counts_calls(now, unix_secs, front, id);
        window_counts_calls(now, unix_secs, front, c.best);
        let m = recorded_all(start, front);
        let w = window_calls(start, front);
        recording_keeps_window(m, c.best as int, c.paths, c.now);
        crate::dense::lemma_entry_at_most_total(m.window_counts, c.best as int);
        let x = (at(m.window_counts, c.best as int, 0) + 1) as u64;
        lemma_placed_at(m.window_counts, c.best as int, x, 0, id as int);
        assert(w.push(c).drop_last() =~= w);
    }
}

/// Over all calls, the records are numbered in order, their Unix time is the start
/// second and the seconds since, and those never fall while the clock does not.
pub proof fn records_run_in_step(now: u64, unix_secs: u64, calls: Seq<RecordCall>)
    requires
        forall|i: int, j: int| 0 <= i < j < calls.len() ==> calls[i].now <= calls[j].now,
    ensures
        ({
            let m = recorded_all(traffic_start(now, unix_secs), calls);
            &&& m.start_time == now && m.start_unix_secs == unix_secs
            &&& m.last_log matches Some(t) ==> calls.len() > 0 && t <= calls.last().now
            &&& m.records.len() > 0 ==> m.last_log is Some && m.records.last().elapsed_s
                == elapsed_secs(now, m.last_log->0)
            &&& forall|i: int|
                0 <= i < m.records.len() ==> (#[trigger] m.records[i]).step == i
                    && m.records[i].timestamp == unix_secs + m.records[i].elapsed_s
            &&& forall|i: int, j: int|
                0 <= i <= j < m.records.len() ==> (#[trigger] m.records[i]).elapsed_s <= (
                #[trigger] m.records[j]).elapsed_s
        }),
    decreases calls.len(),
{
    if calls.len() > 0 {
        let front = calls.drop_last();
        let c = calls.last();
        assert forall|i: int, j: int| 0 <= i < j < front.len() implies front[i].now
            <= front[j].now by {
            assert(front[i] == calls[i] && front[j] == calls[j]);
        }
        records_run_in_step(now, unix_secs, front);
        let m = recorded_all(traffic_start(now, unix_secs), front);
        let n = recorded_all(traffic_start(now, unix_secs), calls);
        assert(n == recorded(m, c.best as int, c.paths, c.now));
        if let Some(t) = m.last_log {
            assert(front.last() == calls[front.len() - 1]);
            assert(t <= c.now);
        }
        let k = m.records.len() as int;
        assert forall|i: int, j: int| 0 <= i <= j < n.records.len() implies (
        #[trigger] n.records[i]).elapsed_s <= (#[trigger] n.records[j]).elapsed_s by {
            if j < k {
                assert(n.records[i] == m.records[i] && n.records[j] == m.records[j]);
            } else if i < k {
                assert(n.records[i] == m.records[i]);
                assert(m.records[i].elapsed_s <= m.records[k - 1].elapsed_s);
            }
        }
        assert forall|i: int| 0 <= i < n.records.len() implies (#[trigger] n.records[i]).step == i
            && n.records[i].timestamp == unix_secs + n.records[i].elapsed_s by {
            if i < k {
                assert(n.records[i] == m.records[i]);
            }
        }
    }
}

impl View for TrafficMetricsCollector {
    type V = TrafficModel;

    open spec fn view(&self) -> TrafficModel {
        TrafficModel {
            start_time: self.start_time,
            start_unix_secs: self.start_unix_secs,
            last_log: self.last_log,
            prev_sent_bytes: self.prev_sent_bytes@,
            window_counts: self.window_counts@,
            window_total: self.window_total as nat,
            records: self.records@.map_values(|r: TrafficRecord| r@),
        }
    }
}

impl TrafficMetricsCollector {
    /// The window adds up, and a timestamp fits.
    pub open spec fn wf(self) -> bool {
        window_ok(self@) && self.start_unix_secs <= UNIX_LIMIT
    }

    /// A collector that starts at `now`, which is the Unix second `unix_secs`.
    pub fn new(now: u64, unix_secs: u64) -> (r: Self)
        requires
            unix_secs <= UNIX_LIMIT,
        ensures
            r.wf(),
            r@ == traffic_start(now, unix_secs),
    {
        let r = TrafficMetricsCollector {
            start_time: now,
            start_unix_secs: unix_secs,
            last_log: None,
            prev_sent_bytes: Vec::new(),
            window_counts: Vec::new(),
            window_total: 0,
            records: Vec::new(),
        };
        assert(r@.records =~= Seq::empty());
        r
    }

    /// The seconds since the start, and the Unix time in seconds.
    pub fn elapsed_and_timestamp(&self, now: u64) -> (r: (u64, u64))
        requires
            self.start_unix_secs <= UNIX_LIMIT,
        ensures
            (r.0 as int, r.1 as int) == seconds_at(self.start_time, self.start_unix_secs, now),
    {
        let elapsed_s: u64 = elapsed_ns(self.start_time, now) / NANOS_PER_SEC;
        (elapsed_s, self.start_unix_secs + elapsed_s)
    }

    /// Records a selection of a path, and takes a record once per second.
    pub fn record(&mut self, best_pid: usize, paths: &PathMap, now: u64)
        requires
            old(self).wf(),
            paths.wf(),
            best_pid < usize::MAX,
            old(self).window_total < u64::MAX,
        ensures
            final(self).wf(),
            final(self)@ == recorded(old(self)@, best_pid as int, paths@, now),
    {
        let ghost m = self@;
        proof {
            crate::dense::lemma_entry_at_most_total(m.window_counts, best_pid as int);
            recording_keeps_window(m, best_pid as int, paths@, now);
        }
        let count: u64 = get(&self.window_counts, best_pid, 0);
        put(&mut self.window_counts, best_pid, count + 1, 0);
        self.window_total += 1;
        if !is_second_passed(self.last_log, now) {
            assert(self@ =~= recorded(m, best_pid as int, paths@, now));
            return ;
        }
        let (elapsed_s, timestamp) = self.elapsed_and_timestamp(now);
        let step: u64 = self.records.len() as u64;
        let window_ns = match self.last_log {
            Some(t) => Some(elapsed_ns(t, now)),
            None => None,
        };
        let rows = self.take_rows(paths);
        let ghost counts = self.window_counts@;
        self.records.push(TrafficRecord { step, timestamp, elapsed_s, window_ns, rows });
        self.last_log = Some(now);
        clear_counts(&mut self.window_counts);
        self.window_total = 0;
        proof {
            let want = recorded(m, best_pid as int, paths@, now);
            assert(self@.records =~= want.records);
            assert(self@ =~= want);
        }
    }

    fn take_rows(&mut self, paths: &PathMap) -> (rows: Vec<TrafficRow>)
        requires
            paths.wf(),
        ensures
            rows@ == traffic_rows(
                paths@,
                old(self).prev_sent_bytes@,
                old(self).window_counts@,
                old(self).window_total as nat,
            ),
            final(self)@ == (TrafficModel {
                prev_sent_bytes: sent_noted(old(self).prev_sent_bytes@, paths@),
                ..old(self)@
            }),
    {
        let ghost prev = self.prev_sent_bytes@;
        let ghost m = self@;
        let mut rows: Vec<TrafficRow> = Vec::new();
        let mut i: usize = 0;
        assert(paths@.subrange(0, 0) =~= Seq::<Path>::empty());
        while i < paths.paths.len()
            invariant
                i <= paths@.len(),
                paths.wf(),
                prev == m.prev_sent_bytes,
                self@ == (TrafficModel {
                    prev_sent_bytes: sent_noted(prev, paths@.subrange(0, i as int)),
                    ..m
                }),
                rows@ =~= traffic_rows(
                    paths@.subrange(0, i as int),
                    prev,
                    m.window_counts,
                    m.window_total,
                ),
            decreases paths@.len() - i,
        {
            let p = &paths.paths[i];
            let pid: usize = p.id;
            proof {
                let seen = paths@.subrange(0, i as int);
                assert forall|j: int| 0 <= j < seen.len() implies (#[trigger] seen[j]).id
                    != pid by {
                    assert(seen[j] == paths@[j]);
                    assert(paths@[j].id < paths@[i as int].id);
                }
                lemma_sent_noted_other(prev, seen, pid);
                assert(paths@.subrange(0, i + 1).drop_last() =~= seen);
            }
            let before: u64 = get(&self.prev_sent_bytes, pid, 0);
            let row = TrafficRow {
                pid,
                count: get(&self.window_counts, pid, 0),
                total: if self.window_total >= 1 {
                    self.window_total
                } else {
                    1
                },
                rtt_us: p.smoothed_rtt / 1000,
                delta_bytes: if p.sent_bytes >= before {
                    p.sent_bytes - before
                } else {
                    0
                },
                cwnd: p.cwnd,
                bytes_in_flight: p.bytes_in_flight,
                pacing: p.pacing_or_zero(),
                sent_count: p.sent_count,
                lost_count: p.lost_count,
            };
            put(&mut self.prev_sent_bytes, pid, p.sent_bytes, 0);
            rows.push(row);
            i += 1;
        }
        assert(paths@.subrange(0, i as int) =~= paths@);
        rows
    }
}

// ───────────────────────────── rendering ─────────────────────────────

/// The rendered measurements of one path.
pub struct TrafficCells {
    pub pct: String,
    pub rtt_ms: String,
    pub mbps: String,
    pub cwnd_kb: String,
    pub inflight_kb: String,
    pub pacing_mbps: String,
}

/// A key that names a path.
pub open spec fn path_key(prefix: Seq<char>, pid: nat, suffix: Seq<char>) -> Seq<char> {
    prefix + decimal(pid) + suffix
}

/// The key that names a path.
pub fn make_path_key(prefix: &str, pid: usize, suffix: &str) -> (r: String)
    ensures
        r@ == path_key(prefix@, pid as nat, suffix@),
{
    let mut s = String::from_str(prefix);
    push_decimal(&mut s, pid as u64);
    s.append(suffix);
    s
}

/// The fields of one path, behind those in `head`.
pub open spec fn traffic_fields(
    head: Seq<(Seq<char>, Seq<char>)>,
    row: TrafficRow,
    c: TrafficCells,
) -> Seq<(Seq<char>, Seq<char>)> {
    let k = |prefix: Seq<char>, suffix: Seq<char>| path_key(prefix, row.pid as nat, suffix);
    head.push((k("traffic/path"@, "_pct"@), c.pct@)).push(
        (k("latency/path"@, "_rtt_ms"@), c.rtt_ms@),
    ).push((k("throughput/path"@, "_mbps"@), c.mbps@)).push(
        (k("congestion/path"@, "_cwnd_KB"@), c.cwnd_kb@),
    ).push((k("congestion/path"@, "_inflight_KB"@), c.inflight_kb@)).push(
        (k("congestion/path"@, "_pacing_mbps"@), c.pacing_mbps@),
    ).push((k("loss/path"@, "_sent"@), decimal(row.sent_count as nat))).push(
        (k("loss/path"@, "_lost"@), decimal(row.lost_count as nat)),
    )
}

/// The fields that every metrics line starts with.
pub open spec fn step_fields(step: nat, timestamp: nat, elapsed_s: nat) -> Seq<
    (Seq<char>, Seq<char>),
> {
    seq![
        ("_step"@, decimal(step)),
        ("_timestamp"@, decimal(timestamp)),
        ("t"@, decimal(elapsed_s)),
    ]
}

/// The fields that every metrics line starts with.
pub fn make_step_fields(step: u64, timestamp: u64, elapsed_s: u64) -> (r: Fields)
    ensures
        r@ == step_fields(step as nat, timestamp as nat, elapsed_s as nat),
{
    let mut f = Fields::new();
    f.put(String::from_str("_step"), decimal_string(step));
    f.put(String::from_str("_timestamp"), decimal_string(timestamp));
    f.put(String::from_str("t"), decimal_string(elapsed_s));
    f
}

/// The fields of a record.
pub open spec fn record_fields(
    head: Seq<(Seq<char>, Seq<char>)>,
    rows: Seq<TrafficRow>,
    cells: Seq<TrafficCells>,
) -> Seq<(Seq<char>, Seq<char>)>
    decreases rows.len(),
{
    if rows.len() == 0 || cells.len() == 0 {
        head
    } else {
        traffic_fields(
            record_fields(head, rows.drop_last(), cells.drop_last()),
            rows.last(),
            cells.last(),
        )
    }
}

impl TrafficRecord {
    /// The metrics line of the record, given the rendered measurements of each row.
    pub fn line(&self, cells: &Vec<TrafficCells>) -> (r: String)
        requires
            cells@.len() == self.rows@.len(),
        ensures
            r@ == json_line(
                record_fields(
                    step_fields(self@.step, self@.timestamp, self@.elapsed_s),
                    self.rows@,
                    cells@,
                ),
            ),
    {
        let mut f = make_step_fields(self.step, self.timestamp, self.elapsed_s);
        let ghost head = f@;
        let mut i: usize = 0;
        while i < self.rows.len()
            invariant
                i <= self.rows@.len() == cells@.len(),
                f@ == record_fields(
                    head,
                    self.rows@.subrange(0, i as int),
                    cells@.subrange(0, i as int),
                ),
            decreases self.rows@.len() - i,
        {
            let row = self.rows[i];
            let c = &cells[i];
            let pid: usize = row.pid;
            f.put(make_path_key("traffic/path", pid, "_pct"), c.pct.clone());
            f.put(make_path_key("latency/path", pid, "_rtt_ms"), c.rtt_ms.clone());
            f.put(make_path_key("throughput/path", pid, "_mbps"), c.mbps.clone());
            f.put(make_path_key("congestion/path", pid, "_cwnd_KB"), c.cwnd_kb.clone());
            f.put(make_path_key("congestion/path", pid, "_inflight_KB"), c.inflight_kb.clone());
            f.put(make_path_key("congestion/path", pid, "_pacing_mbps"), c.pacing_mbps.clone());
            f.put(make_path_key("loss/path", pid, "_sent"), decimal_string(row.sent_count));
            f.put(make_path_key("loss/path", pid, "_lost"), decimal_string(row.lost_count));
            proof {
                let rows = self.rows@.subrange(0, i + 1);
                let cs = cells@.subrange(0, i + 1);
                assert(rows.drop_last() =~= self.rows@.subrange(0, i as int));
                assert(cs.drop_last() =~= cells@.subrange(0, i as int));
            }
            i += 1;
        }
        assert(self.rows@.subrange(0, i as int) =~= self.rows@);
        assert(cells@.subrange(0, i as int) =~= cells@);
        f.line()
    }
}

} // verus!
