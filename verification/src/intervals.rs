//! Per-second interval rows printed by the benchmark client and server.
//!
//! A row looks like
//! `0.00-1.00 s  59.60 MB  500.00 Mbits/sec  0.009 ms  0/52106 (0%)`, with or
//! without the jitter and loss columns, and may end in a per-path breakdown
//! `#path5G=7.86Mbps,pathSat=28.81Mbps`. The numbers of a row are kept as the
//! texts that denote them.

use crate::numerals::{denotes_float, is_float_text};
use crate::text::{
    after_prefix, chars_of, find_char, first_index, has_char, is_text, opt_text, slice_chars,
    split_whitespace, string_of, strip_prefix, tokens, trim, trim_end_matches, trimmed,
    without_suffixes, words,
};
use vstd::prelude::*;

verus! {

/// The numbers of one interval row, each as the text that denotes it.
///
/// A column that the row lacks, or that does not hold a number, is `None`; it
/// counts as zero for the jitter, the loss and the end of the interval, and as
/// absent for the two paths.
pub struct IntervalSample {
    /// Bitrate in Mbit/s.
    pub throughput: String,
    /// Jitter in milliseconds.
    pub jitter: Option<String>,
    /// Lost datagrams in percent.
    pub packet_loss: Option<String>,
    /// End of the interval in seconds since the start of the test.
    pub interval_end: Option<String>,
    /// Share of the bitrate on the 5G path, in Mbit/s.
    pub path5g: Option<String>,
    /// Share of the bitrate on the satellite path, in Mbit/s.
    pub pathsat: Option<String>,
}

/// The texts of an [`IntervalSample`].
pub struct IntervalRow {
    pub throughput: Seq<char>,
    pub jitter: Option<Seq<char>>,
    pub packet_loss: Option<Seq<char>>,
    pub interval_end: Option<Seq<char>>,
    pub path5g: Option<Seq<char>>,
    pub pathsat: Option<Seq<char>>,
}

impl View for IntervalSample {
    type V = IntervalRow;

    open spec fn view(&self) -> IntervalRow {
        IntervalRow {
            throughput: self.throughput@,
            jitter: opt_text(self.jitter),
            packet_loss: opt_text(self.packet_loss),
            interval_end: opt_text(self.interval_end),
            path5g: opt_text(self.path5g),
            pathsat: opt_text(self.pathsat),
        }
    }
}

/// The text where it denotes a number.
pub open spec fn number(s: Seq<char>) -> Option<Seq<char>> {
    if is_float_text(s) {
        Some(s)
    } else {
        None
    }
}

/// The characters that enclose a percentage.
pub open spec fn is_enclosing(c: char) -> bool {
    c == '(' || c == ')' || c == '%'
}

/// The text without leading enclosing characters.
pub open spec fn unenclosed_left(s: Seq<char>) -> Seq<char>
    decreases s.len(),
{
    if s.len() > 0 && is_enclosing(s[0]) {
        unenclosed_left(s.subrange(1, s.len() as int))
    } else {
        s
    }
}

/// The text without trailing enclosing characters.
pub open spec fn unenclosed_right(s: Seq<char>) -> Seq<char>
    decreases s.len(),
{
    if s.len() > 0 && is_enclosing(s.last()) {
        unenclosed_right(s.drop_last())
    } else {
        s
    }
}

/// The percentage inside its brackets.
pub open spec fn unenclosed(s: Seq<char>) -> Seq<char> {
    unenclosed_right(unenclosed_left(s))
}

/// What stands before the first `c`.
pub open spec fn before_first(s: Seq<char>, c: char) -> Seq<char> {
    s.subrange(0, first_index(s, c))
}

/// What stands behind the first `c`.
pub open spec fn behind_first(s: Seq<char>, c: char) -> Option<Seq<char>> {
    if first_index(s, c) < s.len() {
        Some(s.subrange(first_index(s, c) + 1, s.len() as int))
    } else {
        None
    }
}

/// The rate in a `<rate>Mbps` text.
pub open spec fn mbps(s: Seq<char>) -> Option<Seq<char>> {
    number(without_suffixes(s, "Mbps"@))
}

/// The 5G and satellite rates behind `#path5G=`.
pub open spec fn path_rates(rest: Seq<char>) -> (Option<Seq<char>>, Option<Seq<char>>) {
    let sat = match behind_first(rest, ',') {
        Some(tail) => match after_prefix(tail, "pathSat="@) {
            Some(rate) => mbps(rate),
            None => None,
        },
        None => None,
    };
    (mbps(before_first(rest, ',')), sat)
}

/// The path rates of a row: those of its last `#path5G=` word.
pub open spec fn breakdown(parts: Seq<Seq<char>>) -> (Option<Seq<char>>, Option<Seq<char>>)
    decreases parts.len(),
{
    if parts.len() == 0 {
        (None, None)
    } else {
        match after_prefix(parts.last(), "#path5G="@) {
            Some(rest) => path_rates(rest),
            None => breakdown(parts.drop_last()),
        }
    }
}

/// Whether the words have the shape of an interval row, not of a header, a
/// separator or a summary row.
pub open spec fn is_row(line: Seq<char>) -> bool {
    let t = trimmed(line);
    let parts = words(t);
    &&& t.len() > 0 ==> t[0] != '-' && t[0] != '['
    &&& parts.len() >= 7
    &&& parts[1] == "s"@ && parts[3] == "MB"@ && parts[5] == "Mbits/sec"@
    &&& parts[0].contains('-')
    &&& !parts.contains("sender"@)
    &&& !parts.contains("receiver"@)
}

/// Whether the row has a jitter column.
pub open spec fn has_jitter(parts: Seq<Seq<char>>) -> bool {
    parts.len() >= 10 && parts[7] == "ms"@
}

/// Whether the row has a loss column and no jitter column.
pub open spec fn has_loss_only(parts: Seq<Seq<char>>) -> bool {
    !has_jitter(parts) && parts.len() >= 8 && parts[6].contains('/')
}

/// The sample that a line holds, or `None` where the line is not an interval
/// row or its bitrate or jitter is not a number.
pub open spec fn interval_row(line: Seq<char>) -> Option<IntervalRow> {
    let parts = words(trimmed(line));
    if !is_row(line) || !is_float_text(parts[4]) || (has_jitter(parts) && !is_float_text(parts[6])) {
        None
    } else {
        let (path5g, pathsat) = breakdown(parts);
        Some(
            IntervalRow {
                throughput: parts[4],
                jitter: if has_jitter(parts) {
                    Some(parts[6])
                } else {
                    None
                },
                packet_loss: if has_jitter(parts) {
                    number(unenclosed(parts[9]))
                } else if has_loss_only(parts) {
                    number(unenclosed(parts[7]))
                } else {
                    None
                },
                interval_end: match behind_first(parts[0], '-') {
                    Some(end) => number(end),
                    None => None,
                },
                path5g,
                pathsat,
            },
        )
    }
}

fn number_of(v: &Vec<char>) -> (r: Option<String>)
    ensures
        opt_text(r) == number(v@),
{
    if denotes_float(v) {
        Some(string_of(v))
    } else {
        None
    }
}

fn enclosing(c: char) -> (r: bool)
    ensures
        r == is_enclosing(c),
{
    c == '(' || c == ')' || c == '%'
}

fn unenclose(v: &Vec<char>) -> (r: Vec<char>)
    ensures
        r@ == unenclosed(v@),
{
    let mut from: usize = 0;
    assert(v@.subrange(0, v.len() as int) == v@);
    while from < v.len() && enclosing(v[from])
        invariant
            from <= v.len(),
            unenclosed_left(v@.subrange(from as int, v.len() as int)) == unenclosed_left(v@),
        decreases v.len() - from,
    {
        from += 1;
        assert(v@.subrange(from - 1, v.len() as int).subrange(1, v.len() - from + 1) == v@.subrange(
            from as int,
            v.len() as int,
        ));
    }
    let ghost left = v@.subrange(from as int, v.len() as int);
    let mut to: usize = v.len();
    assert(left.subrange(0, to - from) == left);
    while from < to && enclosing(v[to - 1])
        invariant
            from <= to <= v.len(),
            left == v@.subrange(from as int, v.len() as int),
            unenclosed_right(left.subrange(0, to - from)) == unenclosed_right(left),
        decreases to - from,
    {
        let ghost before = left.subrange(0, to - from);
        to -= 1;
        assert(before.drop_last() == left.subrange(0, to - from));
        assert(before.last() == v@[to as int]);
    }
    let ghost kept = left.subrange(0, to - from);
    assert(kept.len() > 0 ==> kept.last() == v@[to - 1]);
    assert(kept == v@.subrange(from as int, to as int));
    slice_chars(v, from, to)
}

fn rate_of(v: &Vec<char>) -> (r: Option<String>)
    ensures
        opt_text(r) == mbps(v@),
{
    let t = trim_end_matches(v, "Mbps");
    number_of(&t)
}

fn rates_of(rest: &Vec<char>) -> (r: (Option<String>, Option<String>))
    ensures
        (opt_text(r.0), opt_text(r.1)) == path_rates(rest@),
{
    let comma: usize = find_char(rest, ',');
    let head = slice_chars(rest, 0, comma);
    let first = rate_of(&head);
    if comma == rest.len() {
        return (first, None);
    }
    let tail = slice_chars(rest, comma + 1, rest.len());
    match strip_prefix(&tail, "pathSat=") {
        Some(rate) => (first, rate_of(&rate)),
        None => (first, None),
    }
}

fn breakdown_of(parts: &Vec<Vec<char>>) -> (r: (Option<String>, Option<String>))
    ensures
        (opt_text(r.0), opt_text(r.1)) == breakdown(tokens(parts@)),
{
    let mut k: usize = parts.len();
    let ghost all = tokens(parts@);
    assert(all.subrange(0, k as int) == all);
    while k > 0
        invariant
            k <= parts.len(),
            all == tokens(parts@),
            breakdown(all.subrange(0, k as int)) == breakdown(all),
        decreases k,
    {
        let ghost head = all.subrange(0, k as int);
        k -= 1;
        assert(head.last() == parts@[k as int]@);
        assert(head.drop_last() == all.subrange(0, k as int));
        match strip_prefix(&parts[k], "#path5G=") {
            Some(rest) => {
                return rates_of(&rest);
            },
            None => {},
        }
    }
    (None, None)
}

fn has_word(parts: &Vec<Vec<char>>, lit: &str) -> (r: bool)
    ensures
        r == tokens(parts@).contains(lit@),
{
    let mut i: usize = 0;
    while i < parts.len()
        invariant
            i <= parts.len(),
            forall|j: int| 0 <= j < i ==> parts@[j]@ != lit@,
        decreases parts.len() - i,
    {
        if is_text(&parts[i], lit) {
            assert(tokens(parts@)[i as int] == lit@);
            return true;
        }
        i += 1;
    }
    assert forall|j: int| 0 <= j < tokens(parts@).len() implies tokens(parts@)[j] != lit@ by {
        assert(tokens(parts@)[j] == parts@[j]@);
    }
    false
}

/// Parses a per-second interval line into its numbers.
///
/// Accepted formats:
///
/// * sender row: `0.00-1.00 s  59.60 MB  500.00 Mbits/sec  52051`
/// * receiver row: `0.00-1.00 s  59.60 MB  500.00 Mbits/sec  0.009 ms  0/52106 (0%)`
///
/// Separators, headers and summary rows (which name the `sender` or the
/// `receiver`) are rejected.
pub fn parse_interval_line(line: &str) -> (r: Option<IntervalSample>)
    ensures
        match r {
            Some(sample) => interval_row(line@) == Some(sample@),
            None => interval_row(line@) is None,
        },
{
    let chars = chars_of(line);
    let t = trim(&chars);
    if t.len() > 0 && (t[0] == '-' || t[0] == '[') {
        return None;
    }
    let parts = split_whitespace(&t);
    let ghost p = tokens(parts@);
    assert(p.len() == parts.len());
    assert(forall|i: int| 0 <= i < parts.len() ==> p[i] == #[trigger] parts@[i]@);
    if parts.len() < 7 {
        return None;
    }
    if !is_text(&parts[1], "s") || !is_text(&parts[3], "MB") || !is_text(&parts[5], "Mbits/sec") {
        return None;
    }
    if !has_char(&parts[0], '-') {
        return None;
    }
    if has_word(&parts, "sender") || has_word(&parts, "receiver") {
        return None;
    }
    if !denotes_float(&parts[4]) {
        return None;
    }
    let with_jitter = parts.len() >= 10 && is_text(&parts[7], "ms");
    if with_jitter && !denotes_float(&parts[6]) {
        return None;
    }
    let jitter: Option<String> = if with_jitter {
        Some(string_of(&parts[6]))
    } else {
        None
    };
    let packet_loss: Option<String> = if with_jitter {
        number_of(&unenclose(&parts[9]))
    } else if parts.len() >= 8 && has_char(&parts[6], '/') {
        number_of(&unenclose(&parts[7]))
    } else {
        None
    };
    let dash: usize = find_char(&parts[0], '-');
    let interval_end: Option<String> = if dash < parts[0].len() {
        number_of(&slice_chars(&parts[0], dash + 1, parts[0].len()))
    } else {
        None
    };
    let (path5g, pathsat) = breakdown_of(&parts);
    Some(
        IntervalSample {
            throughput: string_of(&parts[4]),
            jitter,
            packet_loss,
            interval_end,
            path5g,
            pathsat,
        },
    )
}

} // verus!
