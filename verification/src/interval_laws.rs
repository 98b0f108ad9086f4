//! What reading an interval row promises of its columns.

use crate::intervals::{
    before_first, behind_first, breakdown, interval_row, is_row, mbps, path_rates,
};
use crate::numerals::{is_digit, is_float_text};
use crate::report::{is_measure, lemma_unenclosed};
use crate::text::{
    after_prefix, has_prefix, has_suffix, lemma_first_index_unique, trimmed, without_suffixes,
    words,
};
use vstd::prelude::*;

verus! {

/// The bitrate of a row is its fifth word, and it has to be a number. A separator, a row
/// in brackets and a summary, which names a role, are no rows.
pub proof fn bitrate_is_the_fifth_word(line: Seq<char>)
    ensures
        trimmed(line).len() > 0 && (trimmed(line)[0] == '-' || trimmed(line)[0] == '[')
            ==> interval_row(line) is None,
        words(trimmed(line)).contains("sender"@) || words(trimmed(line)).contains("receiver"@)
            ==> interval_row(line) is None,
        interval_row(line) matches Some(row) ==> {
            &&& row.throughput == words(trimmed(line))[4]
            &&& is_float_text(row.throughput)
            &&& words(trimmed(line)).len() >= 7
            &&& words(trimmed(line))[1] == "s"@
            &&& words(trimmed(line))[3] == "MB"@
            &&& words(trimmed(line))[5] == "Mbits/sec"@
        },
{
}

/// A row without a jitter column whose seventh word counts datagrams, as `lost/total`,
/// has its loss in the eighth word, in brackets.
pub proof fn loss_is_read_without_jitter(line: Seq<char>, loss: Seq<char>)
    requires
        is_row(line),
        words(trimmed(line)).len() >= 8,
        words(trimmed(line))[6].contains('/'),
        words(trimmed(line))[7] == "("@ + loss + "%)"@,
        is_measure(loss),
        is_float_text(loss),
        is_float_text(words(trimmed(line))[4]),
    ensures
        interval_row(line) matches Some(row) && row.jitter is None && row.packet_loss == Some(loss),
{
    reveal_strlit("(");
    reveal_strlit("ms");
    lemma_unenclosed(loss);
    let w = "("@ + loss + "%)"@;
    assert(w[0] == '(');
    assert("ms"@[0] == 'm');
}

/// A row with neither a jitter nor a loss column has neither.
pub proof fn plain_row_has_no_jitter_and_no_loss(line: Seq<char>)
    requires
        is_row(line),
        words(trimmed(line)).len() == 7,
        is_float_text(words(trimmed(line))[4]),
    ensures
        interval_row(line) matches Some(row) && row.jitter is None && row.packet_loss is None,
{
}

proof fn lemma_mbps(rate: Seq<char>)
    requires
        is_measure(rate),
        is_float_text(rate),
    ensures
        mbps(rate + "Mbps"@) == Some(rate),
{
    reveal_strlit("Mbps");
    let s = rate + "Mbps"@;
    assert(s.subrange(s.len() - 4, s.len() as int) =~= "Mbps"@);
    assert(s.subrange(0, s.len() - 4) =~= rate);
    assert(!has_suffix(rate, "Mbps"@)) by {
        if has_suffix(rate, "Mbps"@) {
            let t = rate.subrange(rate.len() - 4, rate.len() as int);
            assert(t[3] == 's');
            assert(t[3] == rate[rate.len() - 1]);
            assert(is_digit(rate[rate.len() - 1]) || rate[rate.len() - 1] == '.');
        }
    }
    assert(without_suffixes(rate, "Mbps"@) == rate);
    assert(without_suffixes(s, "Mbps"@) == without_suffixes(rate, "Mbps"@));
}

/// The words behind the place do not name the paths.
pub open spec fn is_last_breakdown(ws: Seq<Seq<char>>, k: int) -> bool {
    forall|j: int| k < j < ws.len() ==> !has_prefix(#[trigger] ws[j], "#path5G="@)
}

proof fn lemma_breakdown_at(ws: Seq<Seq<char>>, k: int, rest: Seq<char>)
    requires
        0 <= k < ws.len(),
        ws[k] == "#path5G="@ + rest,
        is_last_breakdown(ws, k),
    ensures
        breakdown(ws) == path_rates(rest),
    decreases ws.len(),
{
    if k == ws.len() - 1 {
        let w = "#path5G="@ + rest;
        assert(w.subrange(0, "#path5G="@.len() as int) =~= "#path5G="@);
        assert(w.subrange("#path5G="@.len() as int, w.len() as int) =~= rest);
    } else {
        assert(!has_prefix(ws[ws.len() - 1], "#path5G="@));
        let front = ws.drop_last();
        assert forall|j: int| k < j < front.len() implies !has_prefix(
            #[trigger] front[j],
            "#path5G="@,
        ) by {
            assert(front[j] == ws[j]);
        }
        lemma_breakdown_at(front, k, rest);
    }
}

/// A row that names the rates of its two paths, as
/// `#path5G=<rate>Mbps,pathSat=<rate>Mbps`, gives each path its own rate.
pub proof fn path_rates_are_read(line: Seq<char>, k: int, fast: Seq<char>, far: Seq<char>)
    requires
        interval_row(line) is Some,
        0 <= k < words(trimmed(line)).len(),
        words(trimmed(line))[k] == "#path5G="@ + (fast + "Mbps"@ + ",pathSat="@ + (far + "Mbps"@)),
        is_last_breakdown(words(trimmed(line)), k),
        is_measure(fast),
        is_float_text(fast),
        is_measure(far),
        is_float_text(far),
    ensures
        interval_row(line).unwrap().path5g == Some(fast),
        interval_row(line).unwrap().pathsat == Some(far),
{
    reveal_strlit(",pathSat=");
    reveal_strlit("pathSat=");
    reveal_strlit("Mbps");
    let rest = fast + "Mbps"@ + ",pathSat="@ + (far + "Mbps"@);
    lemma_breakdown_at(words(trimmed(line)), k, rest);
    let n = fast.len() + 4;
    assert forall|j: int| 0 <= j < n implies rest[j] != ',' by {
        if j < fast.len() {
            assert(rest[j] == fast[j]);
            assert(is_digit(fast[j]) || fast[j] == '.');
        } else {
            assert(rest[j] == "Mbps"@[j - fast.len()]);
        }
    }
    assert(rest[n as int] == ',');
    lemma_first_index_unique(rest, ',', n as int);
    assert(before_first(rest, ',') =~= fast + "Mbps"@);
    let tail = behind_first(rest, ',').unwrap();
    assert(tail =~= "pathSat="@ + (far + "Mbps"@));
    assert(tail.subrange(0, 8) =~= "pathSat="@);
    assert(tail.subrange(8, tail.len() as int) =~= far + "Mbps"@);
    assert(after_prefix(tail, "pathSat="@) == Some(far + "Mbps"@));
    lemma_mbps(fast);
    lemma_mbps(far);
}

proof fn lemma_no_breakdown(ws: Seq<Seq<char>>)
    requires
        is_last_breakdown(ws, -1),
    ensures
        breakdown(ws) == (None::<Seq<char>>, None::<Seq<char>>),
    decreases ws.len(),
{
    if ws.len() > 0 {
        assert(!has_prefix(ws[ws.len() - 1], "#path5G="@));
        let front = ws.drop_last();
        assert forall|j: int| -1 < j < front.len() implies !has_prefix(
            #[trigger] front[j],
            "#path5G="@,
        ) by {
            assert(front[j] == ws[j]);
        }
        lemma_no_breakdown(front);
    }
}

/// A row that names no rates has none.
pub proof fn row_without_rates_has_none(line: Seq<char>)
    requires
        interval_row(line) is Some,
        is_last_breakdown(words(trimmed(line)), -1),
    ensures
        interval_row(line).unwrap().path5g is None,
        interval_row(line).unwrap().pathsat is None,
{
    lemma_no_breakdown(words(trimmed(line)));
}

} // verus!
