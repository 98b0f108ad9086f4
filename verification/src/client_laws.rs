//! What the client promises of its counts, its report and its bandwidth setting.

use crate::client::{
    bandwidth, conn_closed, conn_created, conn_established, conn_opened, data_arrived, exits,
    merged, opens_another, run_duration, run_report, stream_finished, trigger_next, trigger_tried,
    worker_ended, BandwidthModel, ClientModel, CloseCause, DataReceiver, RunCells, TriggerOutcome,
    WorkerModel,
};
use crate::numerals::{all_digits, decimal, is_digit, is_float_text, lemma_decimal};
use crate::stats::{stats_fit, stats_sum, ConnectionStats};
use crate::text::trimmed;
use vstd::prelude::*;

verus! {

// ───────────────────────────── reading numbers back ─────────────────────────────

/// The line is the label, a number, a separator, a number, a separator and a number.
pub open spec fn shows_three(
    line: Seq<char>,
    label: Seq<char>,
    a: nat,
    first: Seq<char>,
    b: nat,
    second: Seq<char>,
    c: nat,
) -> bool {
    line == label + (decimal(a) + (first + (decimal(b) + (second + decimal(c)))))
}

proof fn lemma_number_ends(x: Seq<char>, y: Seq<char>, s: Seq<char>, t: Seq<char>)
    requires
        all_digits(x),
        all_digits(y),
        s.len() > 0,
        t.len() > 0,
        !is_digit(s[0]),
        !is_digit(t[0]),
        x + s == y + t,
    ensures
        x == y,
        s == t,
{
    if x.len() < y.len() {
        assert((x + s)[x.len() as int] == s[0]);
        assert((y + t)[x.len() as int] == y[x.len() as int]);
    } else if y.len() < x.len() {
        assert((y + t)[y.len() as int] == t[0]);
        assert((x + s)[y.len() as int] == x[y.len() as int]);
    }
    assert(x =~= y) by {
        assert forall|i: int| 0 <= i < x.len() implies x[i] == y[i] by {
            assert((x + s)[i] == x[i] && (y + t)[i] == y[i]);
        }
    }
    lemma_same_rest(x, s, t);
}

proof fn lemma_same_rest(x: Seq<char>, s: Seq<char>, t: Seq<char>)
    requires
        x + s == x + t,
    ensures
        s == t,
{
    assert((x + s).len() == x.len() + s.len());
    assert((x + t).len() == x.len() + t.len());
    assert forall|i: int| 0 <= i < s.len() implies s[i] == t[i] by {
        assert((x + s)[x.len() + i] == s[i]);
        assert((x + t)[x.len() + i] == t[i]);
    }
    assert(s =~= t);
}

/// Such a line reads back: no other three numbers make it.
proof fn lemma_three_read_back(
    line: Seq<char>,
    label: Seq<char>,
    first: Seq<char>,
    second: Seq<char>,
    a: nat,
    b: nat,
    c: nat,
    x: nat,
    y: nat,
    z: nat,
)
    requires
        shows_three(line, label, a, first, b, second, c),
        shows_three(line, label, x, first, y, second, z),
        first.len() > 0,
        second.len() > 0,
        !is_digit(first[0]),
        !is_digit(second[0]),
    ensures
        a == x,
        b == y,
        c == z,
{
    let p = second + decimal(c);
    let q = second + decimal(z);
    lemma_decimal(a);
    lemma_decimal(b);
    lemma_decimal(c);
    lemma_decimal(x);
    lemma_decimal(y);
    lemma_decimal(z);
    lemma_same_rest(
        label,
        decimal(a) + (first + (decimal(b) + p)),
        decimal(x) + (first + (decimal(y) + q)),
    );
    lemma_number_ends(
        decimal(a),
        decimal(x),
        first + (decimal(b) + p),
        first + (decimal(y) + q),
    );
    lemma_same_rest(first, decimal(b) + p, decimal(y) + q);
    lemma_number_ends(decimal(b), decimal(y), p, q);
    lemma_same_rest(second, decimal(c), decimal(z));
}

/// The packet line of the report reads back, in the order that its label names: the
/// first number behind the label is how many packets were received, the second how
/// many were sent, the third how many were lost, and no other three numbers make it.
pub proof fn packet_line_reads_back(ctx: ClientModel, cells: RunCells, x: nat, y: nat, z: nat)
    ensures
        run_report(ctx, cells).len() == 9,
        shows_three(
            run_report(ctx, cells)[6],
            "  Pkts  recv/sent/lost : "@,
            x,
            "/"@,
            y,
            "/"@,
            z,
        ) <==> {
            &&& x == ctx.conn_stats.recv_count
            &&& y == ctx.conn_stats.sent_count
            &&& z == ctx.conn_stats.lost_count
        },
{
    reveal_strlit("/");
    let line = run_report(ctx, cells)[6];
    let label = "  Pkts  recv/sent/lost : "@;
    let a = ctx.conn_stats.recv_count as nat;
    let b = ctx.conn_stats.sent_count as nat;
    let c = ctx.conn_stats.lost_count as nat;
    assert(line =~= label + (decimal(a) + ("/"@ + (decimal(b) + ("/"@ + decimal(c))))));
    if shows_three(line, label, x, "/"@, y, "/"@, z) {
        lemma_three_read_back(line, label, "/"@, "/"@, a, b, c, x, y, z);
    }
}

/// The byte line of the report reads back in the same way: bytes received, sent, lost.
pub proof fn byte_line_reads_back(ctx: ClientModel, cells: RunCells, x: nat, y: nat, z: nat)
    ensures
        shows_three(
            run_report(ctx, cells)[7],
            "  Bytes recv/sent/lost : "@,
            x,
            "/"@,
            y,
            "/"@,
            z,
        ) <==> {
            &&& x == ctx.conn_stats.recv_bytes
            &&& y == ctx.conn_stats.sent_bytes
            &&& z == ctx.conn_stats.lost_bytes
        },
{
    reveal_strlit("/");
    let line = run_report(ctx, cells)[7];
    let label = "  Bytes recv/sent/lost : "@;
    let a = ctx.conn_stats.recv_bytes as nat;
    let b = ctx.conn_stats.sent_bytes as nat;
    let c = ctx.conn_stats.lost_bytes as nat;
    assert(line =~= label + (decimal(a) + ("/"@ + (decimal(b) + ("/"@ + decimal(c))))));
    if shows_three(line, label, x, "/"@, y, "/"@, z) {
        lemma_three_read_back(line, label, "/"@, "/"@, a, b, c, x, y, z);
    }
}

/// The connection line of the report reads back: all connections, those that ended
/// well, those that failed.
pub proof fn connection_line_reads_back(ctx: ClientModel, cells: RunCells, x: nat, y: nat, z: nat)
    requires
        ctx.conn_total >= 0,
        ctx.conn_finish_success >= 0,
        ctx.conn_finish_failed >= 0,
    ensures
        shows_three(
            run_report(ctx, cells)[5],
            "  Conns     : total "@,
            x,
            ", ok "@,
            y,
            ", failed "@,
            z,
        ) <==> {
            &&& x == ctx.conn_total
            &&& y == ctx.conn_finish_success
            &&& z == ctx.conn_finish_failed
        },
{
    reveal_strlit(", ok ");
    reveal_strlit(", failed ");
    let line = run_report(ctx, cells)[5];
    let label = "  Conns     : total "@;
    let a = ctx.conn_total as nat;
    let b = ctx.conn_finish_success as nat;
    let c = ctx.conn_finish_failed as nat;
    assert(line =~= label + (decimal(a) + (", ok "@ + (decimal(b) + (", failed "@ + decimal(c))))));
    if shows_three(line, label, x, ", ok "@, y, ", failed "@, z) {
        lemma_three_read_back(line, label, ", ok "@, ", failed "@, a, b, c, x, y, z);
    }
}

/// The transfer line of the report reads back: its number is how many bytes the client
/// received, and the rendered gigabytes follow; duration and rates stand under their
/// own labels.
pub proof fn transfer_line_reads_back(ctx: ClientModel, cells: RunCells, x: nat)
    requires
        ctx.bytes_received >= 0,
    ensures
        run_report(ctx, cells)[3] == "  Transfer  : "@ + (decimal(x) + (" bytes  ("@ + (
        cells.gigabytes@ + " GB)"@))) <==> x == ctx.bytes_received,
        run_report(ctx, cells)[2] == "  Duration  : "@ + cells.secs@ + " s"@,
        run_report(ctx, cells)[4] == "  Bitrate   : "@ + cells.gbps@ + " Gbits/sec  ("@
            + cells.mbps@ + " Mbits/sec)"@,
{
    reveal_strlit(" bytes  (");
    let line = run_report(ctx, cells)[3];
    let label = "  Transfer  : "@;
    let a = ctx.bytes_received as nat;
    let rest = " bytes  ("@ + (cells.gigabytes@ + " GB)"@);
    assert(line =~= label + (decimal(a) + rest));
    if line == label + (decimal(x) + rest) {
        lemma_decimal(a);
        lemma_decimal(x);
        lemma_same_rest(label, decimal(a) + rest, decimal(x) + rest);
        assert(rest[0] == ' ');
        lemma_number_ends(decimal(a), decimal(x), rest, rest);
    }
}

// ───────────────────────────── counts ─────────────────────────────

/// Adding counts adds each of them to its own total.
pub proof fn counts_are_added_one_by_one(a: ConnectionStats, b: ConnectionStats)
    requires
        stats_fit(a, b),
    ensures
        stats_sum(a, b).recv_count == a.recv_count + b.recv_count,
        stats_sum(a, b).recv_bytes == a.recv_bytes + b.recv_bytes,
        stats_sum(a, b).sent_count == a.sent_count + b.sent_count,
        stats_sum(a, b).sent_bytes == a.sent_bytes + b.sent_bytes,
        stats_sum(a, b).lost_count == a.lost_count + b.lost_count,
        stats_sum(a, b).lost_bytes == a.lost_bytes + b.lost_bytes,
{
}

/// A closed connection adds its own bytes and packets to the worker's, counts as
/// finished, and as failed exactly where it failed; the receivers of the other
/// connections stay, and one connection fewer is open, unless the client closed it and
/// so has counted it out before.
pub proof fn closed_connection_is_counted(
    m: WorkerModel,
    idx: u64,
    stats: ConnectionStats,
    session: Option<Seq<u8>>,
    cause: CloseCause,
    other: u64,
)
    requires
        stats_fit(m.conn_stats, stats),
    ensures
        ({
            let n = conn_closed(m, idx, stats, session, cause);
            &&& m.receivers.contains_key(idx) ==> n.bytes_received == m.bytes_received
                + m.receivers[idx].bytes_received
            &&& !m.receivers.contains_key(idx) ==> n.bytes_received == m.bytes_received
            &&& n.conn_stats.recv_count == m.conn_stats.recv_count + stats.recv_count
            &&& n.conn_stats.recv_bytes == m.conn_stats.recv_bytes + stats.recv_bytes
            &&& n.conn_stats.sent_count == m.conn_stats.sent_count + stats.sent_count
            &&& n.conn_stats.sent_bytes == m.conn_stats.sent_bytes + stats.sent_bytes
            &&& n.conn_stats.lost_count == m.conn_stats.lost_count + stats.lost_count
            &&& n.conn_stats.lost_bytes == m.conn_stats.lost_bytes + stats.lost_bytes
            &&& n.conn_finish == m.conn_finish + 1
            &&& n.conn_finish_failed - m.conn_finish_failed == (if cause is Failure {
                1int
            } else {
                0
            })
            &&& n.conn_finish_success - m.conn_finish_success == (if cause is Failure {
                0int
            } else {
                1
            })
            &&& m.concurrent_conns - n.concurrent_conns == (if cause is Local {
                0int
            } else {
                1
            })
            &&& !n.receivers.contains_key(idx)
            &&& other != idx ==> (n.receivers.contains_key(other) <==> m.receivers.contains_key(
                other,
            ))
            &&& other != idx && m.receivers.contains_key(other) ==> n.receivers[other]
                == m.receivers[other]
            &&& n.session == (if session is Some {
                session
            } else {
                m.session
            })
            &&& n.conn_total == m.conn_total
            &&& n.conn_handshake_success == m.conn_handshake_success
            &&& n.connected == m.connected
            &&& n.end_time == m.end_time
        }),
{
}

/// A connection from its opening to its close: it counts as one that was opened and one
/// that is open, begins with nothing received, counts each byte that arrives on it
/// once, and hands all of them over when it is closed.
pub proof fn connection_hands_its_bytes_over(
    m: WorkerModel,
    idx: u64,
    a: u64,
    b: u64,
    stats: ConnectionStats,
    session: Option<Seq<u8>>,
    cause: CloseCause,
)
    requires
        a + b <= u64::MAX,
    ensures
        ({
            let opened = conn_created(conn_opened(m), idx);
            let fed = data_arrived(data_arrived(opened, idx, a), idx, b);
            let n = conn_closed(fed, idx, stats, session, cause);
            &&& opened.conn_total == m.conn_total + 1
            &&& opened.concurrent_conns == m.concurrent_conns + 1
            &&& opened.bytes_received == m.bytes_received
            &&& fed.receivers[idx].bytes_received == a + b
            &&& fed.receivers[idx].streams_opened == 0
            &&& fed.receivers[idx].streams_finished == 0
            &&& n.bytes_received == m.bytes_received + a + b
            &&& n.conn_total == m.conn_total + 1
        }),
{
}

/// Bytes count for their own connection, and those of an unknown one for none.
pub proof fn bytes_count_for_their_connection(m: WorkerModel, idx: u64, n: u64, other: u64)
    requires
        m.receivers.contains_key(idx) ==> m.receivers[idx].bytes_received + n <= u64::MAX,
    ensures
        ({
            let w = data_arrived(m, idx, n);
            &&& w.receivers.dom() == m.receivers.dom()
            &&& m.receivers.contains_key(idx) ==> w.receivers[idx].bytes_received
                == m.receivers[idx].bytes_received + n && w.receivers[idx].streams_opened
                == m.receivers[idx].streams_opened && w.receivers[idx].streams_finished
                == m.receivers[idx].streams_finished
            &&& other != idx && m.receivers.contains_key(other) ==> w.receivers[other]
                == m.receivers[other]
            &&& w.bytes_received == m.bytes_received && w.conn_stats == m.conn_stats
        }),
{
    assert(data_arrived(m, idx, n).receivers.dom() =~= m.receivers.dom());
}

/// A connection is to be closed exactly when as many of its streams ended as were
/// opened, and at least one was; it then counts as open no more.
pub proof fn last_stream_closes_the_connection(m: WorkerModel, idx: u64)
    requires
        m.receivers.contains_key(idx),
        m.receivers[idx].streams_finished < u64::MAX,
    ensures
        ({
            let (n, done) = stream_finished(m, idx);
            let before = m.receivers[idx];
            let after = n.receivers[idx];
            &&& after.streams_finished == before.streams_finished + 1
            &&& after.streams_opened == before.streams_opened
            &&& after.bytes_received == before.bytes_received
            &&& done <==> before.streams_opened > 0 && before.streams_finished + 1
                >= before.streams_opened
            &&& m.concurrent_conns - n.concurrent_conns == (if done {
                1int
            } else {
                0
            })
            &&& n.conn_finish == m.conn_finish
        }),
{
}

/// A worker is connected from its first established connection on, and ends once.
pub proof fn worker_connects_and_ends(m: WorkerModel, now: u64, later: u64)
    ensures
        conn_established(m).connected,
        conn_established(m).conn_handshake_success == m.conn_handshake_success + 1,
        conn_established(m).conn_total == m.conn_total,
        m.end_time is None ==> worker_ended(m, now).end_time == Some(now),
        worker_ended(worker_ended(m, now), later) == worker_ended(m, now),
{
}

/// A worker's counts are added one by one to the client's, the client ends with its
/// last worker, and the session of the worker is kept.
pub proof fn workers_are_added_one_by_one(c: ClientModel, w: WorkerModel)
    requires
        stats_fit(c.conn_stats, w.conn_stats),
    ensures
        ({
            let n = merged(c, w);
            &&& n.bytes_received == c.bytes_received + w.bytes_received
            &&& n.conn_total == c.conn_total + w.conn_total
            &&& n.conn_handshake_success == c.conn_handshake_success + w.conn_handshake_success
            &&& n.conn_finish == c.conn_finish + w.conn_finish
            &&& n.conn_finish_success == c.conn_finish_success + w.conn_finish_success
            &&& n.conn_finish_failed == c.conn_finish_failed + w.conn_finish_failed
            &&& n.conn_stats.recv_count == c.conn_stats.recv_count + w.conn_stats.recv_count
            &&& n.conn_stats.recv_bytes == c.conn_stats.recv_bytes + w.conn_stats.recv_bytes
            &&& n.conn_stats.sent_count == c.conn_stats.sent_count + w.conn_stats.sent_count
            &&& n.conn_stats.sent_bytes == c.conn_stats.sent_bytes + w.conn_stats.sent_bytes
            &&& n.conn_stats.lost_count == c.conn_stats.lost_count + w.conn_stats.lost_count
            &&& n.conn_stats.lost_bytes == c.conn_stats.lost_bytes + w.conn_stats.lost_bytes
            &&& n.session == w.session
            &&& n.end_time is None <==> c.end_time is None && w.end_time is None
            &&& c.end_time matches Some(t) ==> n.end_time.unwrap() >= t
            &&& w.end_time matches Some(t) ==> n.end_time.unwrap() >= t
            &&& n.end_time is Some ==> n.end_time == c.end_time || n.end_time == w.end_time
        }),
{
}

/// A worker ends when it is told to, when it was never connected and as many
/// connections failed as it puts up with, or when its seconds are over; otherwise it
/// goes on.
pub proof fn worker_ends_for_one_of_three_reasons(m: WorkerModel, terminated: bool, now: u64)
    ensures
        terminated ==> exits(m, terminated, now),
        !m.connected && m.conn_finish_failed >= m.option.connection_failure_threshold ==> exits(
            m,
            terminated,
            now,
        ),
        0 < m.option.duration && m.start_time <= now && now - m.start_time >= m.option.duration
            * 1_000_000_000 ==> exits(m, terminated, now),
        !terminated && (m.connected || m.conn_finish_failed
            < m.option.connection_failure_threshold) && (m.option.duration == 0 || now
            - m.start_time < m.option.duration * 1_000_000_000) ==> !exits(m, terminated, now),
{
}

/// A worker keeps as many connections open as it may have: it opens another one exactly
/// while that is not one too many.
pub proof fn worker_keeps_to_its_connections(m: WorkerModel)
    ensures
        opens_another(m) <==> conn_opened(m).concurrent_conns <= m.option.max_concurrent_conns,
        conn_opened(m).option == m.option,
{
}

/// The trigger streams of a connection are opened one after the other: a stream that
/// was written counts, the next one has the id four times their number, and none is
/// opened once the peer's limit is reached or as many were tried as are asked for.
pub proof fn trigger_streams_are_opened_in_turn(
    r: DataReceiver,
    attempts: u64,
    streams: u64,
    outcome: Option<TriggerOutcome>,
)
    requires
        r.streams_opened < u64::MAX / 4,
    ensures
        ({
            let n = trigger_tried(r, outcome);
            let next = trigger_next(n, attempts, streams, outcome);
            let written = outcome is Some && outcome.unwrap() is Written;
            let limited = outcome is Some && outcome.unwrap() is LimitReached;
            &&& n.streams_opened == r.streams_opened + (if written {
                1int
            } else {
                0
            })
            &&& n.streams_finished == r.streams_finished && n.bytes_received == r.bytes_received
            &&& next is Some <==> attempts < streams && !limited
            &&& next matches Some(id) ==> id == 4 * n.streams_opened
        }),
{
}

/// A run took from its start to the end of its last worker, or until now while none
/// has ended.
pub proof fn run_lasts_until_its_last_worker(end_time: Option<u64>, start: u64, now: u64)
    ensures
        (end_time matches Some(t) && t >= start) ==> run_duration(end_time, start, now)
            == end_time.unwrap() - start,
        end_time is None && now >= start ==> run_duration(end_time, start, now) == now - start,
{
}

// ───────────────────────────── bandwidth ─────────────────────────────

/// A bandwidth means its number times its unit: a thousand for `K`, a million for `M`,
/// a thousand million for `G`, in either case, and one without a unit. A text whose
/// number is none means nothing, and a bare `0` is no limit.
pub proof fn bandwidth_is_number_times_unit(s: Seq<char>, number: Seq<char>, u: char)
    requires
        trimmed(s) == number.push(u),
    ensures
        ({
            let times = if u == 'K' || u == 'k' {
                1_000
            } else if u == 'M' || u == 'm' {
                1_000_000
            } else {
                1_000_000_000u64
            };
            let known = u == 'K' || u == 'k' || u == 'M' || u == 'm' || u == 'G' || u == 'g';
            &&& known && is_float_text(number) ==> bandwidth(s) == Some(
                BandwidthModel::Scaled { number, multiplier: times },
            )
            &&& known && !is_float_text(number) ==> bandwidth(s) is None
            &&& !known && trimmed(s) != "0"@ && is_float_text(trimmed(s)) ==> bandwidth(s) == Some(
                BandwidthModel::Scaled { number: trimmed(s), multiplier: 1 },
            )
            &&& !known && trimmed(s) != "0"@ && !is_float_text(trimmed(s)) ==> bandwidth(s) is None
            &&& trimmed(s) == "0"@ ==> bandwidth(s) == Some(BandwidthModel::Zero)
        }),
{
    reveal_strlit("0");
    assert(trimmed(s).drop_last() =~= number);
    assert(trimmed(s).last() == u);
    if trimmed(s) == "0"@ {
        assert("0"@.last() == '0');
    }
}

} // verus!
