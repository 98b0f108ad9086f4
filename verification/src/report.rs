//! The server's interval report: what a session transferred, second by second,
//! and the rows in which it is printed.

use crate::counts::risen;
use crate::intervals::{
    behind_first, breakdown, interval_row, is_enclosing, unenclosed, unenclosed_left,
    unenclosed_right, IntervalRow,
};
use crate::numerals::{
    decimal, decimal_string, is_digit, is_float_text, lemma_decimal, push_decimal,
};
use crate::server::{no_counts, LiveCounters};
use crate::text::{
    has_prefix, is_space, lemma_first_index_unique, pad_left, pad_right, padded_left, padded_right,
    spaces, trimmed, words, words_read,
};
use vstd::prelude::*;
use vstd::string::StringExecFns;

verus! {

// ───────────────────────────── the reporter ─────────────────────────────

/// What was transferred in one second.
#[derive(Debug, Clone, Copy, PartialEq, Eq, Structural)]
pub struct Interval {
    /// The second in which it began.
    pub start: u64,
    pub bytes: u64,
    pub lost: u64,
    pub sent: u64,
    /// The session has ended.
    pub done: bool,
}

/// What a session transferred.
#[derive(Debug, Clone, Copy, PartialEq, Eq, Structural)]
pub struct SessionTotal {
    pub bytes: u64,
    pub lost: u64,
    pub sent: u64,
    /// How long it took, in nanoseconds.
    pub duration_ns: u128,
    pub uplink: bool,
}

/// The report of one session.
#[derive(Debug, Clone, Copy, PartialEq, Eq, Structural)]
pub struct IntervalReporter {
    pub last_bytes: u64,
    pub last_lost: u64,
    pub last_sent: u64,
    /// Seconds reported.
    pub interval: u64,
    /// The session was an uplink session when it began.
    pub session_uplink: bool,
}

/// The reporter after a second, and what was transferred in it.
pub open spec fn ticked(r: IntervalReporter, live: LiveCounters) -> (IntervalReporter, Interval) {
    (
        IntervalReporter {
            last_bytes: live.bytes,
            last_lost: live.lost,
            last_sent: live.sent,
            interval: (r.interval + 1) as u64,
            ..r
        },
        Interval {
            start: r.interval,
            bytes: risen(live.bytes, r.last_bytes),
            lost: risen(live.lost, r.last_lost),
            sent: risen(live.sent, r.last_sent),
            done: live.done,
        },
    )
}

/// The intervals of a session add up: while the counter does not fall, what was
/// reported before and in this second is what the counter shows.
pub proof fn intervals_add_up(r: IntervalReporter, live: LiveCounters)
    requires
        r.last_bytes <= live.bytes,
        r.last_lost <= live.lost,
        r.last_sent <= live.sent,
    ensures
        r.last_bytes + ticked(r, live).1.bytes == ticked(r, live).0.last_bytes,
        r.last_lost + ticked(r, live).1.lost == ticked(r, live).0.last_lost,
        r.last_sent + ticked(r, live).1.sent == ticked(r, live).0.last_sent,
        ticked(r, live).0.last_bytes == live.bytes,
{
}

/// The total of a session in which data flowed. Without a measured duration, each
/// reported second counts, at least one.
pub open spec fn session_total(r: IntervalReporter, live: LiveCounters) -> Option<SessionTotal> {
    if live.bytes > 0 {
        Some(
            SessionTotal {
                bytes: live.bytes,
                lost: live.lost,
                sent: live.sent,
                duration_ns: if live.duration_ns > 0 {
                    live.duration_ns as u128
                } else if r.interval >= 1 {
                    (r.interval * 1_000_000_000) as u128
                } else {
                    1_000_000_000
                },
                uplink: live.is_uplink,
            },
        )
    } else {
        None
    }
}

/// Whether a session has begun: data flows.
pub fn session_begun(live: &LiveCounters) -> (r: bool)
    ensures
        r == (live.bytes > 0),
{
    live.bytes > 0
}

/// Clears the counters for the next session.
pub fn reset_session(live: &mut LiveCounters)
    ensures
        *final(live) == no_counts(),
{
    *live = LiveCounters::new();
}

impl IntervalReporter {
    /// The report of a session that begins.
    pub fn new(live: &LiveCounters) -> (r: Self)
        ensures
            r == (IntervalReporter {
                last_bytes: 0,
                last_lost: 0,
                last_sent: 0,
                interval: 0,
                session_uplink: live.is_uplink,
            }),
    {
        IntervalReporter {
            last_bytes: 0,
            last_lost: 0,
            last_sent: 0,
            interval: 0,
            session_uplink: live.is_uplink,
        }
    }

    /// Reports a second.
    pub fn tick(&mut self, live: &LiveCounters) -> (r: Interval)
        requires
            old(self).interval < u64::MAX,
        ensures
            (*final(self), r) == ticked(*old(self), *live),
    {
        let r = Interval {
            start: self.interval,
            bytes: live.bytes.saturating_sub(self.last_bytes),
            lost: live.lost.saturating_sub(self.last_lost),
            sent: live.sent.saturating_sub(self.last_sent),
            done: live.done,
        };
        self.last_bytes = live.bytes;
        self.last_lost = live.lost;
        self.last_sent = live.sent;
        self.interval += 1;
        r
    }

    /// The total of the session; `None` where no data flowed.
    pub fn total(&self, live: &LiveCounters) -> (r: Option<SessionTotal>)
        ensures
            r == session_total(*self, *live),
    {
        if live.bytes == 0 {
            return None;
        }
        let duration_ns: u128 = if live.duration_ns > 0 {
            live.duration_ns as u128
        } else if self.interval >= 1 {
            (self.interval as u128) * 1_000_000_000
        } else {
            1_000_000_000
        };
        Some(
            SessionTotal {
                bytes: live.bytes,
                lost: live.lost,
                sent: live.sent,
                duration_ns,
                uplink: live.is_uplink,
            },
        )
    }
}

// ───────────────────────────── rows ─────────────────────────────

/// The rendered measurements of a row.
pub struct RowCells {
    /// Begin and end of the interval in seconds.
    pub start: String,
    pub end: String,
    /// Transferred megabytes.
    pub mb: String,
    /// Bitrate in Mbit/s.
    pub mbps: String,
    /// Jitter in milliseconds.
    pub jitter: String,
    /// Lost datagrams in percent.
    pub loss: String,
}

/// The columns that every row starts with.
pub open spec fn row_start(c: RowCells) -> Seq<char> {
    "  "@ + pad_right(c.start@ + "-"@ + c.end@ + " s"@, 12) + "  "@ + pad_left(c.mb@ + " MB"@, 10)
        + "  "@ + pad_left(c.mbps@ + " Mbits/sec"@, 16)
}

/// Lost and total datagrams, and the loss.
pub open spec fn loss_text(lost: u64, sent: u64, loss: Seq<char>) -> Seq<char> {
    decimal(lost as nat) + "/"@ + decimal(sent as nat) + " ("@ + loss + "%)"@
}

/// The row of a second of an uplink session.
pub open spec fn uplink_row(c: RowCells, lost: u64, sent: u64) -> Seq<char> {
    row_start(c) + "  "@ + pad_left(c.jitter@ + " ms"@, 13) + "  "@ + loss_text(
        lost,
        sent,
        c.loss@,
    )
}

/// The row of a second of a downlink session.
pub open spec fn downlink_row(c: RowCells, sent: u64) -> Seq<char> {
    row_start(c) + "  "@ + decimal(sent as nat)
}

/// The role of the server in a session.
pub open spec fn role(uplink: bool) -> Seq<char> {
    if uplink {
        "receiver"@
    } else {
        "sender"@
    }
}

/// The summary row of a session. Jitter has a meaning for the receiver only.
pub open spec fn summary_row(c: RowCells, lost: u64, sent: u64, uplink: bool) -> Seq<char> {
    let jitter = if uplink {
        c.jitter@ + " ms"@
    } else {
        Seq::empty()
    };
    row_start(c) + "  "@ + pad_left(jitter, 13) + "  "@ + loss_text(lost, sent, c.loss@) + "  "@
        + role(uplink)
}

/// The header over the rows.
pub open spec fn header_row(jitter: bool) -> Seq<char> {
    let start = "  "@ + pad_right("Interval"@, 12) + "  "@ + pad_left("Transfer"@, 10) + "  "@
        + pad_left("Bitrate"@, 16) + "  "@;
    if jitter {
        start + pad_left("Jitter"@, 10) + "  "@ + "Lost/Total Datagrams"@
    } else {
        start + "Total Datagrams"@
    }
}

fn row_start_string(c: &RowCells) -> (r: String)
    ensures
        r@ == row_start(*c),
{
    let mut r = String::from_str("  ");
    let mut time = c.start.clone();
    time.append("-");
    time.append(c.end.as_str());
    time.append(" s");
    r.append(padded_right(time.as_str(), 12).as_str());
    r.append("  ");
    let mut mb = c.mb.clone();
    mb.append(" MB");
    r.append(padded_left(mb.as_str(), 10).as_str());
    r.append("  ");
    let mut rate = c.mbps.clone();
    rate.append(" Mbits/sec");
    r.append(padded_left(rate.as_str(), 16).as_str());
    r
}

fn loss_string(lost: u64, sent: u64, loss: &str) -> (r: String)
    ensures
        r@ == loss_text(lost, sent, loss@),
{
    let mut r = decimal_string(lost);
    r.append("/");
    push_decimal(&mut r, sent);
    r.append(" (");
    r.append(loss);
    r.append("%)");
    r
}

/// Renders the row of a second of an uplink session.
pub fn render_uplink_row(c: &RowCells, i: &Interval) -> (r: String)
    ensures
        r@ == uplink_row(*c, i.lost, i.sent),
{
    let mut r = row_start_string(c);
    r.append("  ");
    let mut jitter = c.jitter.clone();
    jitter.append(" ms");
    r.append(padded_left(jitter.as_str(), 13).as_str());
    r.append("  ");
    r.append(loss_string(i.lost, i.sent, c.loss.as_str()).as_str());
    r
}

/// Renders the row of a second of a downlink session.
pub fn render_downlink_row(c: &RowCells, i: &Interval) -> (r: String)
    ensures
        r@ == downlink_row(*c, i.sent),
{
    let mut r = row_start_string(c);
    r.append("  ");
    push_decimal(&mut r, i.sent);
    r
}

/// Renders the summary row of a session.
pub fn render_summary_row(c: &RowCells, t: &SessionTotal) -> (r: String)
    ensures
        r@ == summary_row(*c, t.lost, t.sent, t.uplink),
{
    let mut r = row_start_string(c);
    r.append("  ");
    let mut jitter = String::new();
    if t.uplink {
        jitter = c.jitter.clone();
        jitter.append(" ms");
    }
    assert(!t.uplink ==> jitter@ =~= Seq::<char>::empty());
    r.append(padded_left(jitter.as_str(), 13).as_str());
    r.append("  ");
    r.append(loss_string(t.lost, t.sent, c.loss.as_str()).as_str());
    r.append("  ");
    if t.uplink {
        r.append("receiver");
    } else {
        r.append("sender");
    }
    r
}

/// Renders the header over the rows.
pub fn render_header(jitter: bool) -> (r: String)
    ensures
        r@ == header_row(jitter),
{
    let mut r = String::from_str("  ");
    r.append(padded_right("Interval", 12).as_str());
    r.append("  ");
    r.append(padded_left("Transfer", 10).as_str());
    r.append("  ");
    r.append(padded_left("Bitrate", 16).as_str());
    r.append("  ");
    if jitter {
        r.append(padded_left("Jitter", 10).as_str());
        r.append("  ");
        r.append("Lost/Total Datagrams");
    } else {
        r.append("Total Datagrams");
    }
    r
}

/// Columns line up: while the measurements fit their columns, every row has its interval
/// behind two characters, its transfer up to the 26th, its bitrate up to the 44th and
/// its jitter up to the 59th, and the header stands over them.
pub proof fn columns_line_up(c: RowCells, lost: u64, sent: u64, uplink: bool)
    requires
        c.start@.len() + c.end@.len() <= 9,
        c.mb@.len() <= 7,
        c.mbps@.len() <= 6,
        c.jitter@.len() <= 10,
    ensures
        row_start(c).len() == 44,
        row_start(c).subrange(2, 2 + c.start@.len() as int) == c.start@,
        row_start(c).subrange(26 - 3 - c.mb@.len(), 23) == c.mb@,
        row_start(c).subrange(44 - 10 - c.mbps@.len(), 34) == c.mbps@,
        uplink_row(c, lost, sent).subrange(0, 44) == row_start(c),
        uplink_row(c, lost, sent).subrange(59 - 3 - c.jitter@.len(), 56) == c.jitter@,
        uplink_row(c, lost, sent).subrange(61, uplink_row(c, lost, sent).len() as int)
            == loss_text(lost, sent, c.loss@),
        summary_row(c, lost, sent, uplink).subrange(0, 44) == row_start(c),
        uplink ==> summary_row(c, lost, sent, uplink).subrange(0, 59) == uplink_row(
            c,
            lost,
            sent,
        ).subrange(0, 59),
        header_row(uplink).len() >= 44,
        header_row(uplink).subrange(2, 10) == "Interval"@,
        header_row(uplink).subrange(18, 26) == "Transfer"@,
        header_row(uplink).subrange(37, 44) == "Bitrate"@,
{
    reveal_strlit("  ");
    reveal_strlit(" s");
    reveal_strlit("-");
    reveal_strlit(" MB");
    reveal_strlit(" Mbits/sec");
    reveal_strlit(" ms");
    reveal_strlit("Interval");
    reveal_strlit("Transfer");
    reveal_strlit("Bitrate");
    let r = row_start(c);
    let u = uplink_row(c, lost, sent);
    let m = summary_row(c, lost, sent, uplink);
    let h = header_row(uplink);
    assert(r.subrange(2, 2 + c.start@.len() as int) =~= c.start@);
    assert(r.subrange(26 - 3 - c.mb@.len(), 23) =~= c.mb@);
    assert(r.subrange(44 - 10 - c.mbps@.len(), 34) =~= c.mbps@);
    assert(u.subrange(0, 44) =~= r);
    assert(u.subrange(59 - 3 - c.jitter@.len(), 56) =~= c.jitter@);
    assert(u.subrange(61, u.len() as int) =~= loss_text(lost, sent, c.loss@));
    assert(m.subrange(0, 44) =~= r);
    if uplink {
        assert(m.subrange(0, 59) =~= u.subrange(0, 59));
    }
    assert(h.subrange(2, 10) =~= "Interval"@);
    assert(h.subrange(18, 26) =~= "Transfer"@);
    assert(h.subrange(37, 44) =~= "Bitrate"@);
}

// ───────────────────────────── words of a row ─────────────────────────────

/// A word: not empty, and without white space.
pub open spec fn solid(w: Seq<char>) -> bool {
    w.len() > 0 && forall|i: int| 0 <= i < w.len() ==> !is_space(#[trigger] w[i])
}

/// The words with the given gaps between them.
pub open spec fn laid_out(ws: Seq<Seq<char>>, gaps: Seq<nat>) -> Seq<char>
    decreases ws.len(),
{
    if ws.len() == 0 {
        Seq::empty()
    } else if ws.len() == 1 {
        ws[0]
    } else {
        laid_out(ws.drop_last(), gaps.drop_last()) + spaces(gaps.last()) + ws.last()
    }
}

/// Words without white space extend the open word.
proof fn lemma_read_solid(s: Seq<char>, w: Seq<char>)
    requires
        forall|i: int| 0 <= i < w.len() ==> !is_space(#[trigger] w[i]),
    ensures
        words_read(s + w) == (words_read(s).0, words_read(s).1 + w),
    decreases w.len(),
{
    if w.len() == 0 {
        assert(s + w =~= s);
        assert(words_read(s).1 + w =~= words_read(s).1);
    } else {
        let front = w.drop_last();
        assert forall|i: int| 0 <= i < front.len() implies !is_space(#[trigger] front[i]) by {
            assert(front[i] == w[i]);
        }
        lemma_read_solid(s, front);
        assert((s + w).drop_last() =~= s + front);
        assert((s + w).last() == w.last());
        assert(words_read(s).1 + w =~= (words_read(s).1 + front).push(w.last()));
    }
}

/// Spaces close the open word.
proof fn lemma_read_spaces(s: Seq<char>, n: nat)
    requires
        n > 0,
        words_read(s).1.len() > 0,
    ensures
        words_read(s + spaces(n)) == (words_read(s).0.push(words_read(s).1), Seq::<char>::empty()),
    decreases n,
{
    let t = s + spaces(n);
    assert(t.drop_last() =~= s + spaces((n - 1) as nat));
    assert(t.last() == ' ');
    if n > 1 {
        lemma_read_spaces(s, (n - 1) as nat);
    } else {
        assert(s + spaces(0) =~= s);
    }
}

/// Reading laid-out words gives the words back.
proof fn lemma_laid_out(ws: Seq<Seq<char>>, gaps: Seq<nat>)
    requires
        ws.len() > 0,
        gaps.len() == ws.len() - 1,
        forall|i: int| 0 <= i < ws.len() ==> solid(#[trigger] ws[i]),
        forall|i: int| 0 <= i < gaps.len() ==> (#[trigger] gaps[i]) > 0,
    ensures
        words_read(laid_out(ws, gaps)) == (ws.drop_last(), ws.last()),
        words(laid_out(ws, gaps)) == ws,
        laid_out(ws, gaps).len() > 0,
        laid_out(ws, gaps)[0] == ws[0][0],
        laid_out(ws, gaps).last() == ws.last().last(),
    decreases ws.len(),
{
    let line = laid_out(ws, gaps);
    if ws.len() == 1 {
        lemma_read_solid(Seq::empty(), ws[0]);
        assert(Seq::<char>::empty() + ws[0] =~= ws[0]);
        assert(ws.drop_last() =~= Seq::<Seq<char>>::empty());
    } else {
        let front = ws.drop_last();
        let g = gaps.drop_last();
        assert forall|i: int| 0 <= i < front.len() implies solid(#[trigger] front[i]) by {
            assert(front[i] == ws[i]);
        }
        assert forall|i: int| 0 <= i < g.len() implies (#[trigger] g[i]) > 0 by {
            assert(g[i] == gaps[i]);
        }
        lemma_laid_out(front, g);
        let head = laid_out(front, g);
        assert(solid(front.last()));
        assert(gaps.last() > 0);
        lemma_read_spaces(head, gaps.last());
        lemma_read_solid(head + spaces(gaps.last()), ws.last());
        assert(front.drop_last().push(front.last()) =~= front);
        assert(Seq::<char>::empty() + ws.last() =~= ws.last());
        assert(solid(ws.last()));
        assert(line.last() == ws.last().last());
        assert(line[0] == head[0]);
        assert(front[0] == ws[0]);
    }
    assert(solid(ws.last()));
    assert(ws.drop_last().push(ws.last()) =~= ws);
}

/// Trimming takes leading spaces off a text that starts and ends with words.
proof fn lemma_trim_spaces(n: nat, s: Seq<char>)
    requires
        s.len() > 0,
        !is_space(s[0]),
        !is_space(s.last()),
    ensures
        trimmed(spaces(n) + s) == s,
    decreases n,
{
    let t = spaces(n) + s;
    if n > 0 {
        assert(t[0] == ' ');
        assert(t.subrange(1, t.len() as int) =~= spaces((n - 1) as nat) + s);
        lemma_trim_spaces((n - 1) as nat, s);
    } else {
        assert(t =~= s);
    }
}

/// How many spaces padding adds.
spec fn pad(s: Seq<char>, width: nat) -> nat {
    if s.len() < width {
        (width - s.len()) as nat
    } else {
        0
    }
}

/// A text made of digits and dots, as measurements are rendered.
pub open spec fn is_measure(s: Seq<char>) -> bool {
    s.len() > 0 && forall|i: int| 0 <= i < s.len() ==> is_digit(#[trigger] s[i]) || s[i] == '.'
}

/// The measurements of a row are rendered as numbers.
pub open spec fn cells_ok(c: RowCells) -> bool {
    &&& is_measure(c.start@)
    &&& is_measure(c.end@) && is_float_text(c.end@)
    &&& is_measure(c.mb@)
    &&& is_measure(c.mbps@) && is_float_text(c.mbps@)
    &&& is_measure(c.jitter@) && is_float_text(c.jitter@)
    &&& is_measure(c.loss@) && is_float_text(c.loss@)
}

/// The interval of a row.
spec fn time_word(c: RowCells) -> Seq<char> {
    c.start@ + "-"@ + c.end@
}

/// The words that every row starts with.
spec fn start_words(c: RowCells) -> Seq<Seq<char>> {
    seq![time_word(c), "s"@, c.mb@, "MB"@, c.mbps@, "Mbits/sec"@]
}

spec fn start_gaps(c: RowCells) -> Seq<nat> {
    seq![
        1nat,
        pad(c.start@ + "-"@ + c.end@ + " s"@, 12) + 2 + pad(c.mb@ + " MB"@, 10),
        1nat,
        2 + pad(c.mbps@ + " Mbits/sec"@, 16),
        1nat,
    ]
}

/// One more word.
proof fn lemma_laid_out_push(ws: Seq<Seq<char>>, gaps: Seq<nat>, g: nat, w: Seq<char>)
    requires
        ws.len() > 0,
        gaps.len() == ws.len() - 1,
    ensures
        laid_out(ws.push(w), gaps.push(g)) == laid_out(ws, gaps) + spaces(g) + w,
{
    assert(ws.push(w).drop_last() =~= ws);
    assert(gaps.push(g).drop_last() =~= gaps);
}

/// One more column with its unit, on a line that begins with two spaces.
proof fn lemma_unit_column(
    line: Seq<char>,
    body: Seq<char>,
    extra: nat,
    value: Seq<char>,
    u: Seq<char>,
    unit: Seq<char>,
    width: nat,
)
    requires
        line == spaces(2) + body + spaces(extra),
        u == spaces(1) + unit,
    ensures
        line + "  "@ + pad_left(value + u, width) == spaces(2) + (body + spaces(
            extra + 2 + pad(value + u, width),
        ) + value + spaces(1) + unit),
{
    reveal_strlit("  ");
    assert("  "@ =~= spaces(2));
    let p = pad(value + u, width);
    assert(line + "  "@ + pad_left(value + u, width) =~= spaces(2) + (body + spaces(extra + 2 + p)
        + value + spaces(1) + unit));
}

proof fn lemma_row_start(c: RowCells)
    ensures
        row_start(c) == spaces(2) + laid_out(start_words(c), start_gaps(c)),
{
    reveal_strlit("  ");
    reveal_strlit(" s");
    reveal_strlit("s");
    reveal_strlit(" MB");
    reveal_strlit("MB");
    reveal_strlit(" Mbits/sec");
    reveal_strlit("Mbits/sec");
    assert("  "@ =~= spaces(2));
    assert(" s"@ =~= spaces(1) + "s"@);
    assert(" MB"@ =~= spaces(1) + "MB"@);
    assert(" Mbits/sec"@ =~= spaces(1) + "Mbits/sec"@);
    let w0 = time_word(c);
    let time = c.start@ + "-"@ + c.end@ + " s"@;
    let p1 = pad(time, 12);
    let p2 = pad(c.mb@ + " MB"@, 10);
    let p3 = pad(c.mbps@ + " Mbits/sec"@, 16);
    let ws1 = seq![w0];
    let gs1 = Seq::<nat>::empty();
    let ws2 = ws1.push("s"@);
    let gs2 = gs1.push(1);
    lemma_laid_out_push(ws1, gs1, 1, "s"@);
    let l2 = laid_out(ws2, gs2);
    let a = "  "@ + pad_right(time, 12);
    assert(a =~= spaces(2) + l2 + spaces(p1));
    let ws3 = ws2.push(c.mb@);
    let gs3 = gs2.push(p1 + 2 + p2);
    lemma_laid_out_push(ws2, gs2, p1 + 2 + p2, c.mb@);
    let ws4 = ws3.push("MB"@);
    let gs4 = gs3.push(1);
    lemma_laid_out_push(ws3, gs3, 1, "MB"@);
    lemma_unit_column(a, l2, p1, c.mb@, " MB"@, "MB"@, 10);
    let l4 = laid_out(ws4, gs4);
    let b = a + "  "@ + pad_left(c.mb@ + " MB"@, 10);
    assert(b == spaces(2) + l4);
    assert(b =~= spaces(2) + l4 + spaces(0));
    let ws5 = ws4.push(c.mbps@);
    let gs5 = gs4.push(2 + p3);
    lemma_laid_out_push(ws4, gs4, 2 + p3, c.mbps@);
    let ws6 = ws5.push("Mbits/sec"@);
    let gs6 = gs5.push(1);
    lemma_laid_out_push(ws5, gs5, 1, "Mbits/sec"@);
    lemma_unit_column(b, l4, 0, c.mbps@, " Mbits/sec"@, "Mbits/sec"@, 16);
    assert(ws6 =~= start_words(c));
    assert(gs6 =~= start_gaps(c));
    assert(row_start(c) == b + "  "@ + pad_left(c.mbps@ + " Mbits/sec"@, 16));
}

proof fn lemma_measure_solid(s: Seq<char>)
    requires
        is_measure(s),
    ensures
        solid(s),
        forall|i: int|
            0 <= i < s.len() ==> (#[trigger] s[i]) != '-' && s[i] != '[' && s[i] != '#'
                && !is_enclosing(s[i]) && s[i] != 's' && s[i] != 'r',
{
    assert forall|i: int| 0 <= i < s.len() implies !is_space(#[trigger] s[i]) by {
        assert(is_digit(s[i]) || s[i] == '.');
    }
    assert forall|i: int| 0 <= i < s.len() implies (#[trigger] s[i]) != '-' && s[i] != '[' && s[i]
        != '#' && !is_enclosing(s[i]) && s[i] != 's' && s[i] != 'r' by {
        assert(is_digit(s[i]) || s[i] == '.');
    }
}

proof fn lemma_decimal_measure(n: nat)
    ensures
        is_measure(decimal(n)),
{
    lemma_decimal(n);
    assert forall|i: int| 0 <= i < decimal(n).len() implies is_digit(#[trigger] decimal(n)[i])
        || decimal(n)[i] == '.' by {}
}

/// The words of a row without a per-path breakdown have none.
proof fn lemma_no_breakdown(ws: Seq<Seq<char>>)
    requires
        forall|i: int| 0 <= i < ws.len() ==> (#[trigger] ws[i]).len() > 0 && ws[i][0] != '#',
    ensures
        breakdown(ws) == (None::<Seq<char>>, None::<Seq<char>>),
    decreases ws.len(),
{
    if ws.len() > 0 {
        reveal_strlit("#path5G=");
        let front = ws.drop_last();
        assert forall|i: int| 0 <= i < front.len() implies (#[trigger] front[i]).len() > 0
            && front[i][0] != '#' by {
            assert(front[i] == ws[i]);
        }
        lemma_no_breakdown(front);
        let w = ws.last();
        assert(ws[ws.len() - 1] == w);
        if has_prefix(w, "#path5G="@) {
            assert(w.subrange(0, 8)[0] == w[0]);
            assert("#path5G="@[0] == '#');
        }
    }
}

/// The end of the interval reads back.
proof fn lemma_time_word(c: RowCells)
    requires
        cells_ok(c),
    ensures
        solid(time_word(c)),
        time_word(c)[0] != '-' && time_word(c)[0] != '[' && time_word(c)[0] != '#'
            && time_word(c)[0] != 's' && time_word(c)[0] != 'r',
        time_word(c).contains('-'),
        behind_first(time_word(c), '-') == Some(c.end@),
{
    reveal_strlit("-");
    let w = time_word(c);
    let k = c.start@.len() as int;
    lemma_measure_solid(c.start@);
    lemma_measure_solid(c.end@);
    assert(w[0] == c.start@[0]);
    assert(w[k] == '-');
    assert forall|i: int| 0 <= i < w.len() implies !is_space(#[trigger] w[i]) by {
        if i < k {
            assert(w[i] == c.start@[i]);
        } else if i > k {
            assert(w[i] == c.end@[i - k - 1]);
        }
    }
    assert forall|j: int| 0 <= j < k implies w[j] != '-' by {
        assert(w[j] == c.start@[j]);
    }
    lemma_first_index_unique(w, '-', k);
    assert(w.subrange(k + 1, w.len() as int) =~= c.end@);
}

/// The first six words of a row.
proof fn lemma_start_words(c: RowCells)
    requires
        cells_ok(c),
    ensures
        ({
            let ws = start_words(c);
            &&& forall|i: int| 0 <= i < 6 ==> solid(#[trigger] ws[i])
            &&& forall|i: int| 0 <= i < 6 ==> (#[trigger] ws[i])[0] != '#'
            &&& forall|i: int|
                0 <= i < 6 ==> (#[trigger] ws[i]) != "sender"@ && ws[i] != "receiver"@
        }),
{
    lemma_time_word(c);
    lemma_measure_solid(c.mb@);
    lemma_measure_solid(c.mbps@);
    reveal_strlit("s");
    reveal_strlit("MB");
    reveal_strlit("Mbits/sec");
    reveal_strlit("sender");
    reveal_strlit("receiver");
    let ws = start_words(c);
    assert("sender"@[0] == 's' && "receiver"@[0] == 'r');
    assert("s"@.len() == 1 && "MB"@[0] == 'M' && "Mbits/sec"@[0] == 'M');
    assert forall|i: int| 0 <= i < 6 implies solid(#[trigger] ws[i]) && ws[i][0] != '#' && ws[i]
        != "sender"@ && ws[i] != "receiver"@ by {
        if i == 0 {
        } else if i == 1 {
        } else if i == 2 {
        } else if i == 3 {
        } else if i == 4 {
        } else {
        }
    }
}

/// The loss reads back out of its brackets.
pub proof fn lemma_unenclosed(loss: Seq<char>)
    requires
        is_measure(loss),
    ensures
        unenclosed("("@ + loss + "%)"@) == loss,
{
    lemma_measure_solid(loss);
    reveal_strlit("(");
    reveal_strlit("%)");
    let w = "("@ + loss + "%)"@;
    let a = loss + "%)"@;
    assert(w.subrange(1, w.len() as int) =~= a);
    assert(a[0] == loss[0]);
    assert(unenclosed_left(a) == a);
    assert(unenclosed_left(w) == a);
    let b = a.drop_last();
    assert(a.last() == ')');
    assert(b =~= loss.push('%'));
    assert(b.last() == '%');
    assert(b.drop_last() =~= loss);
    assert(loss.last() == loss[loss.len() - 1]);
    assert(unenclosed_right(loss) == loss);
    assert(unenclosed_right(b) == loss);
}

/// The columns of the loss.
proof fn lemma_loss_words(lost: u64, sent: u64, loss: Seq<char>)
    requires
        is_measure(loss),
    ensures
        ({
            let counts = decimal(lost as nat) + "/"@ + decimal(sent as nat);
            let pct = "("@ + loss + "%)"@;
            &&& loss_text(lost, sent, loss) == counts + spaces(1) + pct
            &&& solid(counts) && solid(pct)
            &&& counts[0] != '#' && pct[0] != '#'
            &&& counts != "sender"@ && counts != "receiver"@
            &&& pct != "sender"@ && pct != "receiver"@
            &&& pct.last() == ')'
        }),
{
    reveal_strlit("/");
    reveal_strlit(" (");
    reveal_strlit("(");
    reveal_strlit("%)");
    reveal_strlit("sender");
    reveal_strlit("receiver");
    lemma_decimal_measure(lost as nat);
    lemma_decimal_measure(sent as nat);
    lemma_measure_solid(decimal(lost as nat));
    lemma_measure_solid(decimal(sent as nat));
    lemma_measure_solid(loss);
    let a = decimal(lost as nat);
    let b = decimal(sent as nat);
    let counts = a + "/"@ + b;
    let pct = "("@ + loss + "%)"@;
    assert(loss_text(lost, sent, loss) =~= counts + spaces(1) + pct);
    assert forall|i: int| 0 <= i < counts.len() implies !is_space(#[trigger] counts[i]) by {
        if i < a.len() {
            assert(counts[i] == a[i]);
        } else if i > a.len() {
            assert(counts[i] == b[i - a.len() - 1]);
        }
    }
    assert forall|i: int| 0 <= i < pct.len() implies !is_space(#[trigger] pct[i]) by {
        if 1 <= i < 1 + loss.len() {
            assert(pct[i] == loss[i - 1]);
        }
    }
    assert(counts[0] == a[0]);
    assert("sender"@[0] == 's' && "receiver"@[0] == 'r');
}

/// A row of an uplink session reads back: what the server prints for a second is
/// what a reader of its output gets, and its columns are the interval, the transfer,
/// the bitrate, the jitter, and lost of all datagrams with the loss.
pub proof fn uplink_row_reads_back(c: RowCells, lost: u64, sent: u64)
    requires
        cells_ok(c),
    ensures
        interval_row(uplink_row(c, lost, sent)) == Some(
            IntervalRow {
                throughput: c.mbps@,
                jitter: Some(c.jitter@),
                packet_loss: Some(c.loss@),
                interval_end: Some(c.end@),
                path5g: None,
                pathsat: None,
            },
        ),
        words(trimmed(uplink_row(c, lost, sent))) == seq![
            c.start@ + "-"@ + c.end@,
            "s"@,
            c.mb@,
            "MB"@,
            c.mbps@,
            "Mbits/sec"@,
            c.jitter@,
            "ms"@,
            decimal(lost as nat) + "/"@ + decimal(sent as nat),
            "("@ + c.loss@ + "%)"@,
        ],
{
    reveal_strlit("  ");
    reveal_strlit(" ms");
    reveal_strlit("ms");
    reveal_strlit("sender");
    reveal_strlit("receiver");
    assert("  "@ =~= spaces(2));
    assert(" ms"@ =~= spaces(1) + "ms"@);
    lemma_row_start(c);
    lemma_start_words(c);
    lemma_time_word(c);
    lemma_measure_solid(c.jitter@);
    lemma_loss_words(lost, sent, c.loss@);
    lemma_unenclosed(c.loss@);
    let counts = decimal(lost as nat) + "/"@ + decimal(sent as nat);
    let pct = "("@ + c.loss@ + "%)"@;
    let p = pad(c.jitter@ + " ms"@, 13);
    let ws6 = start_words(c);
    let gs6 = start_gaps(c);
    let l6 = laid_out(ws6, gs6);
    let a = row_start(c);
    assert(a =~= spaces(2) + l6 + spaces(0));
    lemma_unit_column(a, l6, 0, c.jitter@, " ms"@, "ms"@, 13);
    let ws7 = ws6.push(c.jitter@);
    let gs7 = gs6.push(2 + p);
    lemma_laid_out_push(ws6, gs6, 2 + p, c.jitter@);
    let ws8 = ws7.push("ms"@);
    let gs8 = gs7.push(1);
    lemma_laid_out_push(ws7, gs7, 1, "ms"@);
    let l8 = laid_out(ws8, gs8);
    let b = a + "  "@ + pad_left(c.jitter@ + " ms"@, 13);
    assert(b == spaces(2) + l8);
    let ws9 = ws8.push(counts);
    let gs9 = gs8.push(2);
    lemma_laid_out_push(ws8, gs8, 2, counts);
    let ws = ws9.push(pct);
    let gs = gs9.push(1);
    lemma_laid_out_push(ws9, gs9, 1, pct);
    let line = laid_out(ws, gs);
    assert(uplink_row(c, lost, sent) =~= spaces(2) + line);
    assert forall|i: int| 0 <= i < ws.len() implies solid(#[trigger] ws[i]) && ws[i][0] != '#'
        && ws[i] != "sender"@ && ws[i] != "receiver"@ by {
        if i < 6 {
            assert(ws[i] == ws6[i]);
        } else if i == 6 {
            assert(ws[i] == c.jitter@);
            assert("sender"@[0] == 's' && "receiver"@[0] == 'r');
        } else if i == 7 {
            assert(ws[i] == "ms"@);
            assert("ms"@[0] == 'm');
        } else if i == 8 {
            assert(ws[i] == counts);
        } else {
            assert(ws[i] == pct);
        }
    }
    assert forall|i: int| 0 <= i < gs.len() implies (#[trigger] gs[i]) > 0 by {}
    lemma_laid_out(ws, gs);
    assert(ws[0] == time_word(c));
    lemma_trim_spaces(2, line);
    lemma_no_breakdown(ws);
    assert(ws[9] == pct && ws[7] == "ms"@ && ws[6] == c.jitter@ && ws[4] == c.mbps@);
    assert(ws[1] == "s"@ && ws[3] == "MB"@ && ws[5] == "Mbits/sec"@);
    assert(ws =~= seq![
        time_word(c),
        "s"@,
        c.mb@,
        "MB"@,
        c.mbps@,
        "Mbits/sec"@,
        c.jitter@,
        "ms"@,
        counts,
        pct,
    ]);
}

/// A row of a downlink session reads back, without jitter and loss; its last column
/// is the number of datagrams.
pub proof fn downlink_row_reads_back(c: RowCells, sent: u64)
    requires
        cells_ok(c),
    ensures
        interval_row(downlink_row(c, sent)) == Some(
            IntervalRow {
                throughput: c.mbps@,
                jitter: None,
                packet_loss: None,
                interval_end: Some(c.end@),
                path5g: None,
                pathsat: None,
            },
        ),
        words(trimmed(downlink_row(c, sent))) == seq![
            c.start@ + "-"@ + c.end@,
            "s"@,
            c.mb@,
            "MB"@,
            c.mbps@,
            "Mbits/sec"@,
            decimal(sent as nat),
        ],
{
    reveal_strlit("  ");
    reveal_strlit("sender");
    reveal_strlit("receiver");
    assert("  "@ =~= spaces(2));
    lemma_row_start(c);
    lemma_start_words(c);
    lemma_time_word(c);
    lemma_decimal_measure(sent as nat);
    let counts = decimal(sent as nat);
    lemma_measure_solid(counts);
    let ws6 = start_words(c);
    let gs6 = start_gaps(c);
    let ws = ws6.push(counts);
    let gs = gs6.push(2);
    lemma_laid_out_push(ws6, gs6, 2, counts);
    let line = laid_out(ws, gs);
    assert(downlink_row(c, sent) =~= spaces(2) + line);
    assert forall|i: int| 0 <= i < ws.len() implies solid(#[trigger] ws[i]) && ws[i][0] != '#'
        && ws[i] != "sender"@ && ws[i] != "receiver"@ by {
        if i < 6 {
            assert(ws[i] == ws6[i]);
        } else {
            assert(ws[i] == counts);
            assert("sender"@[0] == 's' && "receiver"@[0] == 'r');
        }
    }
    assert forall|i: int| 0 <= i < gs.len() implies (#[trigger] gs[i]) > 0 by {}
    lemma_laid_out(ws, gs);
    assert(ws[0] == time_word(c));
    assert(line.last() == counts.last());
    assert(counts.last() == counts[counts.len() - 1]);
    lemma_trim_spaces(2, line);
    lemma_no_breakdown(ws);
    assert(ws[4] == c.mbps@);
    assert(ws[1] == "s"@ && ws[3] == "MB"@ && ws[5] == "Mbits/sec"@);
    assert(ws =~= seq![time_word(c), "s"@, c.mb@, "MB"@, c.mbps@, "Mbits/sec"@, counts]);
}

/// A summary row is never taken for a second: a reader of the output rejects it. It
/// has the columns of a second, those of jitter only for a receiver, and ends with the
/// role of the server.
#[verifier::rlimit(50)]
pub proof fn summary_row_is_rejected(c: RowCells, lost: u64, sent: u64, uplink: bool)
    requires
        cells_ok(c),
    ensures
        interval_row(summary_row(c, lost, sent, uplink)) is None,
        uplink ==> words(trimmed(summary_row(c, lost, sent, uplink))) == seq![
            c.start@ + "-"@ + c.end@,
            "s"@,
            c.mb@,
            "MB"@,
            c.mbps@,
            "Mbits/sec"@,
            c.jitter@,
            "ms"@,
            decimal(lost as nat) + "/"@ + decimal(sent as nat),
            "("@ + c.loss@ + "%)"@,
            "receiver"@,
        ],
        !uplink ==> words(trimmed(summary_row(c, lost, sent, uplink))) == seq![
            c.start@ + "-"@ + c.end@,
            "s"@,
            c.mb@,
            "MB"@,
            c.mbps@,
            "Mbits/sec"@,
            decimal(lost as nat) + "/"@ + decimal(sent as nat),
            "("@ + c.loss@ + "%)"@,
            "sender"@,
        ],
{
    reveal_strlit("  ");
    reveal_strlit(" ms");
    reveal_strlit("ms");
    reveal_strlit("sender");
    reveal_strlit("receiver");
    assert("  "@ =~= spaces(2));
    assert(" ms"@ =~= spaces(1) + "ms"@);
    lemma_row_start(c);
    lemma_start_words(c);
    lemma_time_word(c);
    lemma_measure_solid(c.jitter@);
    lemma_loss_words(lost, sent, c.loss@);
    let counts = decimal(lost as nat) + "/"@ + decimal(sent as nat);
    let pct = "("@ + c.loss@ + "%)"@;
    let r = role(uplink);
    let ws6 = start_words(c);
    let gs6 = start_gaps(c);
    let l6 = laid_out(ws6, gs6);
    let a = row_start(c);
    let (ws8, gs8, g) = if uplink {
        let p = pad(c.jitter@ + " ms"@, 13);
        (ws6.push(c.jitter@).push("ms"@), gs6.push(2 + p).push(1), 2nat)
    } else {
        (ws6, gs6, 17nat)
    };
    let jitter = if uplink {
        c.jitter@ + " ms"@
    } else {
        Seq::empty()
    };
    let l8 = laid_out(ws8, gs8);
    let b = a + "  "@ + pad_left(jitter, 13) + "  "@;
    if uplink {
        let p = pad(c.jitter@ + " ms"@, 13);
        assert(a =~= spaces(2) + l6 + spaces(0));
        lemma_unit_column(a, l6, 0, c.jitter@, " ms"@, "ms"@, 13);
        lemma_laid_out_push(ws6, gs6, 2 + p, c.jitter@);
        lemma_laid_out_push(ws6.push(c.jitter@), gs6.push(2 + p), 1, "ms"@);
        assert(b =~= spaces(2) + l8 + spaces(g));
    } else {
        assert(b =~= spaces(2) + l8 + spaces(g));
    }
    let ws9 = ws8.push(counts);
    let gs9 = gs8.push(g);
    lemma_laid_out_push(ws8, gs8, g, counts);
    let ws10 = ws9.push(pct);
    let gs10 = gs9.push(1);
    lemma_laid_out_push(ws9, gs9, 1, pct);
    let ws = ws10.push(r);
    let gs = gs10.push(2);
    lemma_laid_out_push(ws10, gs10, 2, r);
    let line = laid_out(ws, gs);
    assert(summary_row(c, lost, sent, uplink) == b + loss_text(lost, sent, c.loss@) + "  "@ + r);
    assert(summary_row(c, lost, sent, uplink) =~= spaces(2) + line);
    let n = ws8.len() as int;
    assert forall|i: int| 0 <= i < ws.len() implies solid(#[trigger] ws[i]) by {
        if i < 6 {
            assert(ws[i] == ws6[i]);
        } else if i < n {
            if i == 6 {
                assert(ws[i] == c.jitter@);
            } else {
                assert(ws[i] == "ms"@);
            }
        } else if i == n {
            assert(ws[i] == counts);
        } else if i == n + 1 {
            assert(ws[i] == pct);
        } else {
            assert(ws[i] == r);
        }
    }
    assert forall|i: int| 0 <= i < gs.len() implies (#[trigger] gs[i]) > 0 by {}
    lemma_laid_out(ws, gs);
    assert(ws[0] == time_word(c));
    assert(line.last() == r.last());
    lemma_trim_spaces(2, line);
    assert(ws[ws.len() - 1] == r);
    assert(ws.contains(r));
    if uplink {
        assert(ws =~= seq![
            time_word(c),
            "s"@,
            c.mb@,
            "MB"@,
            c.mbps@,
            "Mbits/sec"@,
            c.jitter@,
            "ms"@,
            counts,
            pct,
            "receiver"@,
        ]);
    } else {
        assert(ws =~= seq![
            time_word(c),
            "s"@,
            c.mb@,
            "MB"@,
            c.mbps@,
            "Mbits/sec"@,
            counts,
            pct,
            "sender"@,
        ]);
    }
}

} // verus!
