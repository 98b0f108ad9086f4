//! Kernel-level network drop counters, read from the texts that Linux keeps under
//! `/proc` and `/sys`.
//!
//! * UDP datagrams dropped because a socket's receive buffer was full
//!   (`RcvbufErrors` in `/proc/net/snmp`)
//! * frames dropped by the network card's driver on receipt (`rx_dropped`)
//! * frames dropped by traffic control on sending (`tx_dropped`)
//! * frames missed by the network card itself (`rx_missed_errors`)

use crate::counts::risen;
use crate::numerals::{parse_u64, u64_denoted};
use crate::text::{
    chars_of, has_prefix, is_text, lines, lines_of, split_whitespace, starts_with, string_of,
    tokens, trim, trimmed, words,
};
use vstd::prelude::*;
use vstd::string::StringExecFns;

verus! {

/// The drop counters at one point in time.
#[derive(Debug, Clone, Copy, PartialEq, Eq, Structural)]
pub struct KernelNetSnapshot {
    /// UDP datagrams dropped because a receive buffer was full.
    pub udp_rcvbuf_drops: u64,
    /// Frames dropped on receipt by the driver.
    pub nic_rx_dropped: u64,
    /// Frames dropped on sending by traffic control.
    pub qdisc_tx_dropped: u64,
    /// Frames missed by the network card.
    pub nic_rx_missed: u64,
}

/// No drops.
pub open spec fn no_drops() -> KernelNetSnapshot {
    KernelNetSnapshot {
        udp_rcvbuf_drops: 0,
        nic_rx_dropped: 0,
        qdisc_tx_dropped: 0,
        nic_rx_missed: 0,
    }
}

impl Default for KernelNetSnapshot {
    fn default() -> (r: Self)
        ensures
            r == no_drops(),
    {
        KernelNetSnapshot {
            udp_rcvbuf_drops: 0,
            nic_rx_dropped: 0,
            qdisc_tx_dropped: 0,
            nic_rx_missed: 0,
        }
    }
}

/// The drops between two snapshots. A counter that was reset counts as zero.
pub open spec fn drops_since(before: KernelNetSnapshot, now: KernelNetSnapshot)
    -> KernelNetSnapshot {
    KernelNetSnapshot {
        udp_rcvbuf_drops: risen(now.udp_rcvbuf_drops, before.udp_rcvbuf_drops),
        nic_rx_dropped: risen(now.nic_rx_dropped, before.nic_rx_dropped),
        qdisc_tx_dropped: risen(now.qdisc_tx_dropped, before.qdisc_tx_dropped),
        nic_rx_missed: risen(now.nic_rx_missed, before.nic_rx_missed),
    }
}

/// Every counter counts for itself: added to what it was, its drops make what it is,
/// and a counter that did not rise has none.
pub proof fn drops_add_up(before: KernelNetSnapshot, now: KernelNetSnapshot)
    ensures
        ({
            let d = drops_since(before, now);
            &&& now.udp_rcvbuf_drops >= before.udp_rcvbuf_drops ==> before.udp_rcvbuf_drops
                + d.udp_rcvbuf_drops == now.udp_rcvbuf_drops
            &&& now.udp_rcvbuf_drops <= before.udp_rcvbuf_drops ==> d.udp_rcvbuf_drops == 0
            &&& now.nic_rx_dropped >= before.nic_rx_dropped ==> before.nic_rx_dropped
                + d.nic_rx_dropped == now.nic_rx_dropped
            &&& now.nic_rx_dropped <= before.nic_rx_dropped ==> d.nic_rx_dropped == 0
            &&& now.qdisc_tx_dropped >= before.qdisc_tx_dropped ==> before.qdisc_tx_dropped
                + d.qdisc_tx_dropped == now.qdisc_tx_dropped
            &&& now.qdisc_tx_dropped <= before.qdisc_tx_dropped ==> d.qdisc_tx_dropped == 0
            &&& now.nic_rx_missed >= before.nic_rx_missed ==> before.nic_rx_missed
                + d.nic_rx_missed == now.nic_rx_missed
            &&& now.nic_rx_missed <= before.nic_rx_missed ==> d.nic_rx_missed == 0
        }),
{
}

impl KernelNetSnapshot {
    /// The drops since an older snapshot. A counter that was reset counts as zero.
    pub fn delta(&self, prev: &KernelNetSnapshot) -> (r: KernelNetSnapshot)
        ensures
            r == drops_since(*prev, *self),
            *self == *prev ==> r == no_drops(),
    {
        KernelNetSnapshot {
            udp_rcvbuf_drops: self.udp_rcvbuf_drops.saturating_sub(prev.udp_rcvbuf_drops),
            nic_rx_dropped: self.nic_rx_dropped.saturating_sub(prev.nic_rx_dropped),
            qdisc_tx_dropped: self.qdisc_tx_dropped.saturating_sub(prev.qdisc_tx_dropped),
            nic_rx_missed: self.nic_rx_missed.saturating_sub(prev.nic_rx_missed),
        }
    }

    /// Whether there are no drops.
    pub fn all_zero(&self) -> (r: bool)
        ensures
            r == (*self == no_drops()),
    {
        self.udp_rcvbuf_drops == 0 && self.nic_rx_dropped == 0 && self.qdisc_tx_dropped == 0
            && self.nic_rx_missed == 0
    }
}

/// The number in a one-line counter file.
pub open spec fn sysfs_number(raw: Seq<char>) -> Option<u64> {
    u64_denoted(trimmed(raw))
}

/// Reads the number in a one-line counter file.
pub fn read_sysfs_u64(raw: &str) -> (r: Option<u64>)
    ensures
        r == sysfs_number(raw@),
{
    parse_u64(&trim(&chars_of(raw)))
}

// ───────────────────────────── protocol counters ─────────────────────────────

/// Why a protocol counter was not found.
#[derive(Debug, Clone, Copy, PartialEq, Eq, Structural)]
pub enum SnmpError {
    /// No header row of the section names the field.
    NotFound,
    /// The value row ends before the field.
    MissingValue,
    /// The value is not a number.
    InvalidNumber,
}

/// The position of a text among others, or their number.
pub open spec fn position(ws: Seq<Seq<char>>, w: Seq<char>) -> int
    decreases ws.len(),
{
    if ws.len() == 0 || ws[0] == w {
        0
    } else {
        1 + position(ws.subrange(1, ws.len() as int), w)
    }
}

/// `position` finds the first occurrence.
pub proof fn lemma_position(ws: Seq<Seq<char>>, w: Seq<char>, k: int)
    requires
        0 <= k <= ws.len(),
        forall|j: int| 0 <= j < k ==> ws[j] != w,
        k < ws.len() ==> ws[k] == w,
    ensures
        position(ws, w) == k,
    decreases ws.len(),
{
    if k > 0 {
        let t = ws.subrange(1, ws.len() as int);
        assert forall|j: int| 0 <= j < k - 1 implies t[j] != w by {
            assert(t[j] == ws[j + 1]);
        }
        lemma_position(t, w, k - 1);
    }
}

/// The value of a field in a value row under a header row.
pub open spec fn row_value(header: Seq<Seq<char>>, row: Seq<Seq<char>>, field: Seq<char>) -> Option<
    Result<u64, SnmpError>,
> {
    let k = position(header, field);
    if k >= header.len() {
        None
    } else if k >= row.len() {
        Some(Err(SnmpError::MissingValue))
    } else {
        match u64_denoted(row[k]) {
            Some(x) => Some(Ok(x)),
            None => Some(Err(SnmpError::InvalidNumber)),
        }
    }
}

/// The field in the rows from `k` on, where `header` is the header row just before.
///
/// The rows of a section alternate: a header row with the names of the fields,
/// then a value row. The first value row whose header names the field decides.
pub open spec fn snmp_from(
    rows: Seq<Seq<char>>,
    k: int,
    header: Option<Seq<Seq<char>>>,
    section: Seq<char>,
    field: Seq<char>,
) -> Result<u64, SnmpError>
    decreases rows.len() - k,
{
    if k < 0 || k >= rows.len() {
        Err(SnmpError::NotFound)
    } else if !has_prefix(rows[k], section) {
        snmp_from(rows, k + 1, None, section, field)
    } else {
        match header {
            None => snmp_from(rows, k + 1, Some(words(rows[k])), section, field),
            Some(h) => match row_value(h, words(rows[k]), field) {
                Some(r) => r,
                None => snmp_from(rows, k + 1, None, section, field),
            },
        }
    }
}

/// The counter of a protocol section, in the text of `/proc/net/snmp`.
pub open spec fn snmp_value(content: Seq<char>, section: Seq<char>, field: Seq<char>) -> Result<
    u64,
    SnmpError,
> {
    snmp_from(lines_of(content), 0, None, section, field)
}

fn find_word(ws: &Vec<Vec<char>>, w: &str) -> (k: usize)
    ensures
        k == position(tokens(ws@), w@),
        k <= ws@.len(),
{
    let mut i: usize = 0;
    while i < ws.len() && !is_text(&ws[i], w)
        invariant
            i <= ws@.len(),
            forall|j: int| 0 <= j < i ==> tokens(ws@)[j] != w@,
        decreases ws@.len() - i,
    {
        i += 1;
    }
    proof {
        lemma_position(tokens(ws@), w@, i as int);
    }
    i
}

/// Finds the counter of a protocol section in the text of `/proc/net/snmp`.
/// `section` is the prefix of its rows, like `Udp:`, and `field` names the column.
pub fn parse_proc_net_snmp(content: &str, section: &str, field: &str) -> (r: Result<u64, SnmpError>)
    ensures
        r == snmp_value(content@, section@, field@),
{
    let rows = lines(&chars_of(content));
    let ghost all = lines_of(content@);
    let mut header: Option<Vec<Vec<char>>> = None;
    let mut k: usize = 0;
    while k < rows.len()
        invariant
            k <= rows@.len(),
            tokens(rows@) == all,
            all == lines_of(content@),
            snmp_value(content@, section@, field@) == snmp_from(
                all,
                k as int,
                match header {
                    Some(h) => Some(tokens(h@)),
                    None => None,
                },
                section@,
                field@,
            ),
        decreases rows@.len() - k,
    {
        assert(all[k as int] == rows@[k as int]@);
        if !starts_with(&rows[k], section) {
            header = None;
        } else {
            let cols = split_whitespace(&rows[k]);
            match header {
                None => {
                    header = Some(cols);
                },
                Some(h) => {
                    let i: usize = find_word(&h, field);
                    if i < h.len() {
                        if i >= cols.len() {
                            return Err(SnmpError::MissingValue);
                        }
                        assert(tokens(cols@)[i as int] == cols@[i as int]@);
                        return match parse_u64(&cols[i]) {
                            Some(x) => Ok(x),
                            None => Err(SnmpError::InvalidNumber),
                        };
                    }
                    header = None;
                },
            }
        }
        k += 1;
    }
    Err(SnmpError::NotFound)
}

/// A header row followed by a value row gives the value under the field's name,
/// whatever stands before them that is not of the section.
pub proof fn value_under_header_is_found(
    rows: Seq<Seq<char>>,
    k: int,
    section: Seq<char>,
    field: Seq<char>,
)
    requires
        0 <= k,
        k + 1 < rows.len(),
        forall|j: int| 0 <= j < k ==> !has_prefix(#[trigger] rows[j], section),
        has_prefix(rows[k], section),
        has_prefix(rows[k + 1], section),
        position(words(rows[k]), field) < words(rows[k]).len(),
    ensures
        Some(snmp_from(rows, 0, None, section, field)) == row_value(
            words(rows[k]),
            words(rows[k + 1]),
            field,
        ),
{
    lemma_skip_rows(rows, 0, k, section, field);
    reveal_with_fuel(snmp_from, 3);
}

proof fn lemma_skip_rows(
    rows: Seq<Seq<char>>,
    j: int,
    k: int,
    section: Seq<char>,
    field: Seq<char>,
)
    requires
        0 <= j <= k < rows.len(),
        forall|i: int| j <= i < k ==> !has_prefix(#[trigger] rows[i], section),
    ensures
        snmp_from(rows, j, None, section, field) == snmp_from(rows, k, None, section, field),
    decreases k - j,
{
    if j < k {
        assert(!has_prefix(rows[j], section));
        lemma_skip_rows(rows, j + 1, k, section, field);
    }
}

// ───────────────────────────── snapshots ─────────────────────────────

/// The texts of an interface's counter files, where they could be read.
pub struct InterfaceTexts {
    pub rx_dropped: Option<String>,
    pub tx_dropped: Option<String>,
    pub rx_missed_errors: Option<String>,
}

/// The number in a counter file; zero where there is none.
pub open spec fn count_or_zero(raw: Option<String>) -> u64 {
    match raw {
        Some(t) => match sysfs_number(t@) {
            Some(x) => x,
            None => 0,
        },
        None => 0,
    }
}

fn count_of(raw: &Option<String>) -> (r: u64)
    ensures
        r == count_or_zero(*raw),
{
    match raw {
        Some(t) => match read_sysfs_u64(t.as_str()) {
            Some(x) => x,
            None => 0,
        },
        None => 0,
    }
}

/// The snapshot of the protocol counters and the counters of an interface, each
/// zero where it cannot be found.
pub open spec fn snapshot_of(snmp: Option<Seq<char>>, iface: Option<InterfaceTexts>)
    -> KernelNetSnapshot {
    KernelNetSnapshot {
        udp_rcvbuf_drops: match snmp {
            Some(t) => match snmp_value(t, "Udp:"@, "RcvbufErrors"@) {
                Ok(x) => x,
                Err(_) => 0,
            },
            None => 0,
        },
        nic_rx_dropped: match iface {
            Some(t) => count_or_zero(t.rx_dropped),
            None => 0,
        },
        qdisc_tx_dropped: match iface {
            Some(t) => count_or_zero(t.tx_dropped),
            None => 0,
        },
        nic_rx_missed: match iface {
            Some(t) => count_or_zero(t.rx_missed_errors),
            None => 0,
        },
    }
}

/// Each counter of a snapshot is the number in its own file: what was dropped on
/// receipt in `rx_dropped`, on sending in `tx_dropped`, what was missed in
/// `rx_missed_errors`. A file that is missing or holds no number counts as zero.
pub proof fn snapshot_reads_each_counter(snmp: Option<Seq<char>>, t: InterfaceTexts, n: u64)
    ensures
        ({
            let r = snapshot_of(snmp, Some(t));
            &&& (t.rx_dropped matches Some(x) && u64_denoted(trimmed(x@)) == Some(n))
                ==> r.nic_rx_dropped == n
            &&& (t.tx_dropped matches Some(x) && u64_denoted(trimmed(x@)) == Some(n))
                ==> r.qdisc_tx_dropped == n
            &&& (t.rx_missed_errors matches Some(x) && u64_denoted(trimmed(x@)) == Some(n))
                ==> r.nic_rx_missed == n
            &&& (t.rx_dropped matches Some(x) ==> u64_denoted(trimmed(x@)) is None)
                ==> r.nic_rx_dropped == 0
            &&& (t.tx_dropped matches Some(x) ==> u64_denoted(trimmed(x@)) is None)
                ==> r.qdisc_tx_dropped == 0
            &&& (t.rx_missed_errors matches Some(x) ==> u64_denoted(trimmed(x@)) is None)
                ==> r.nic_rx_missed == 0
        }),
        ({
            let r = snapshot_of(snmp, None);
            r.nic_rx_dropped == 0 && r.qdisc_tx_dropped == 0 && r.nic_rx_missed == 0
        }),
{
}

/// The receive-buffer drops of a snapshot are those of the `RcvbufErrors` column in the
/// `Udp:` section: the number that stands under that name.
pub proof fn snapshot_reads_receive_buffer_errors(
    content: Seq<char>,
    iface: Option<InterfaceTexts>,
    k: int,
    i: int,
    n: u64,
)
    requires
        ({
            let rows = lines_of(content);
            &&& 0 <= k
            &&& k + 1 < rows.len()
            &&& forall|j: int| 0 <= j < k ==> !has_prefix(#[trigger] rows[j], "Udp:"@)
            &&& has_prefix(rows[k], "Udp:"@)
            &&& has_prefix(rows[k + 1], "Udp:"@)
            &&& 0 <= i < words(rows[k]).len()
            &&& i < words(rows[k + 1]).len()
            &&& words(rows[k])[i] == "RcvbufErrors"@
            &&& forall|j: int| 0 <= j < i ==> words(rows[k])[j] != "RcvbufErrors"@
            &&& u64_denoted(words(rows[k + 1])[i]) == Some(n)
        }),
    ensures
        snapshot_of(Some(content), iface).udp_rcvbuf_drops == n,
        snapshot_of(None, iface).udp_rcvbuf_drops == 0,
{
    let rows = lines_of(content);
    lemma_position(words(rows[k]), "RcvbufErrors"@, i);
    value_under_header_is_found(rows, k, "Udp:"@, "RcvbufErrors"@);
}

/// Takes a snapshot from the text of `/proc/net/snmp`, where it could be read,
/// and from those of an interface. What cannot be found counts as zero.
pub fn snapshot(snmp: Option<&str>, iface: Option<&InterfaceTexts>) -> (r: KernelNetSnapshot)
    ensures
        r == snapshot_of(
            match snmp {
                Some(t) => Some(t@),
                None => None,
            },
            match iface {
                Some(t) => Some(*t),
                None => None,
            },
        ),
{
    let udp_rcvbuf_drops: u64 = match snmp {
        Some(t) => match parse_proc_net_snmp(t, "Udp:", "RcvbufErrors") {
            Ok(x) => x,
            Err(_) => 0,
        },
        None => 0,
    };
    match iface {
        Some(t) => KernelNetSnapshot {
            udp_rcvbuf_drops,
            nic_rx_dropped: count_of(&t.rx_dropped),
            qdisc_tx_dropped: count_of(&t.tx_dropped),
            nic_rx_missed: count_of(&t.rx_missed_errors),
        },
        None => KernelNetSnapshot {
            udp_rcvbuf_drops,
            nic_rx_dropped: 0,
            qdisc_tx_dropped: 0,
            nic_rx_missed: 0,
        },
    }
}

/// The file of a counter of an interface.
pub fn counter_path(dev: &str, counter: &str) -> (r: String)
    ensures
        r@ == "/sys/class/net/"@ + dev@ + "/statistics/"@ + counter@,
{
    let mut s = String::from_str("/sys/class/net/");
    s.append(dev);
    s.append("/statistics/");
    s.append(counter);
    s
}

// ───────────────────────────── routes ─────────────────────────────

/// The row is a default route: its destination is zero, and it has a gateway.
pub open spec fn is_default_route(row: Seq<char>) -> bool {
    let cols = words(row);
    cols.len() >= 3 && cols[1] == "00000000"@
}

/// The interface of the first default route in the text of `/proc/net/route`,
/// behind its header row.
pub open spec fn is_default_iface(content: Seq<char>, iface: Option<Seq<char>>) -> bool {
    let rows = lines_of(content);
    match iface {
        Some(name) => exists|k: int|
            {
                &&& 1 <= k < rows.len()
                &&& is_default_route(#[trigger] rows[k])
                &&& name == words(rows[k])[0]
                &&& forall|j: int| 1 <= j < k ==> !is_default_route(#[trigger] rows[j])
            },
        None => forall|j: int| 1 <= j < rows.len() ==> !is_default_route(#[trigger] rows[j]),
    }
}

/// The interface of the default route is the first word of the first row, behind the
/// header, with at least three words of which the second is eight zeros.
pub proof fn default_route_names_its_interface(content: Seq<char>, iface: Option<Seq<char>>, k: int)
    requires
        is_default_iface(content, iface),
        1 <= k < lines_of(content).len(),
        words(lines_of(content)[k]).len() >= 3,
        words(lines_of(content)[k])[1] == "00000000"@,
        forall|j: int|
            1 <= j < k ==> words(#[trigger] lines_of(content)[j]).len() < 3 || words(
                lines_of(content)[j],
            )[1] != "00000000"@,
    ensures
        iface == Some(words(lines_of(content)[k])[0]),
{
    let rows = lines_of(content);
    assert(is_default_route(rows[k]));
    let i = choose|i: int|
        {
            &&& 1 <= i < rows.len()
            &&& is_default_route(#[trigger] rows[i])
            &&& iface.unwrap() == words(rows[i])[0]
            &&& forall|j: int| 1 <= j < i ==> !is_default_route(#[trigger] rows[j])
        };
    if i < k {
        assert(words(rows[i]).len() < 3 || words(rows[i])[1] != "00000000"@);
    } else if k < i {
        assert(!is_default_route(rows[k]));
    }
}

/// Finds the interface of the default route.
pub fn default_iface(content: &str) -> (r: Option<String>)
    ensures
        is_default_iface(
            content@,
            match r {
                Some(s) => Some(s@),
                None => None,
            },
        ),
{
    let rows = lines(&chars_of(content));
    let ghost all = lines_of(content@);
    let mut k: usize = 1;
    while k < rows.len()
        invariant
            1 <= k,
            k <= rows@.len() || rows@.len() == 0,
            tokens(rows@) == all,
            all == lines_of(content@),
            forall|j: int| 1 <= j < k && j < all.len() ==> !is_default_route(#[trigger] all[j]),
        decreases rows@.len() - k,
    {
        let cols = split_whitespace(&rows[k]);
        assert(all[k as int] == rows@[k as int]@);
        assert(tokens(cols@) == words(all[k as int]));
        if cols.len() >= 3 {
            assert(tokens(cols@)[1] == cols@[1]@);
            assert(tokens(cols@)[0] == cols@[0]@);
            if is_text(&cols[1], "00000000") {
                assert(is_default_route(all[k as int]));
                return Some(string_of(&cols[0]));
            }
        }
        assert(!is_default_route(all[k as int]));
        k += 1;
    }
    None
}

} // verus!
