//! The result of a session: the per-second samples of its receiver, merged with
//! what only the sender knows.
//!
//! The receiver is the client of a downlink session and the server of an uplink
//! session. Samples of both sides are matched by the end of their interval, in
//! seconds since the start of the test, which does not depend on clocks.

use crate::intervals::{interval_row, parse_interval_line, IntervalRow};
use crate::scores::{finite_double, is_finite, SIGN_BIT};
use crate::text::{join, joined, opt_text, same_text, texts};
use std::collections::HashMap;
use vstd::prelude::*;
use vstd::string::StringExecFns;

verus! {

broadcast use vstd::std_specs::hash::group_hash_axioms;

// ───────────────────────────── samples ─────────────────────────────

/// The value of a field of a sample.
#[derive(Debug, Clone)]
pub enum Field {
    /// A double, by its bits.
    Number { bits: u64 },
    /// Any other JSON value as it is written, with the double it stands for where
    /// it is a number.
    Raw { text: String, double: Option<u64> },
}

/// [`Field`] with its text as a sequence.
pub enum FieldModel {
    Number { bits: u64 },
    Raw { text: Seq<char>, double: Option<u64> },
}

impl View for Field {
    type V = FieldModel;

    open spec fn view(&self) -> FieldModel {
        match self {
            Field::Number { bits } => FieldModel::Number { bits: *bits },
            Field::Raw { text, double } => FieldModel::Raw { text: text@, double: *double },
        }
    }
}

/// The double that a field stands for.
pub open spec fn double_of(f: FieldModel) -> Option<u64> {
    match f {
        FieldModel::Number { bits } => Some(bits),
        FieldModel::Raw { double, .. } => double,
    }
}

/// A sample: an object, or some other JSON value as it is written.
#[derive(Debug, Clone)]
pub enum Sample {
    Object { fields: Vec<(String, Field)> },
    Other { text: String },
}

/// [`Sample`], as the contracts speak of it.
pub enum SampleModel {
    Object { fields: Map<Seq<char>, FieldModel> },
    Other { text: Seq<char> },
}

/// The keys and values of a list of fields.
pub open spec fn pairs(v: Seq<(String, Field)>) -> Seq<(Seq<char>, FieldModel)> {
    v.map_values(|f: (String, Field)| (f.0@, f.1@))
}

/// The object that a list of fields makes.
pub open spec fn object(ps: Seq<(Seq<char>, FieldModel)>) -> Map<Seq<char>, FieldModel>
    decreases ps.len(),
{
    if ps.len() == 0 {
        Map::empty()
    } else {
        object(ps.drop_last()).insert(ps.last().0, ps.last().1)
    }
}

/// No key occurs twice.
pub open spec fn keys_distinct(ps: Seq<(Seq<char>, FieldModel)>) -> bool {
    forall|i: int, j: int|
        0 <= i < ps.len() && 0 <= j < ps.len() && i != j ==> (#[trigger] ps[i]).0 != (
        #[trigger] ps[j]).0
}

impl View for Sample {
    type V = SampleModel;

    open spec fn view(&self) -> SampleModel {
        match self {
            Sample::Object { fields } => SampleModel::Object { fields: object(pairs(fields@)) },
            Sample::Other { text } => SampleModel::Other { text: text@ },
        }
    }
}

impl Sample {
    /// No key occurs twice.
    pub open spec fn wf(self) -> bool {
        match self {
            Sample::Object { fields } => keys_distinct(pairs(fields@)),
            Sample::Other { .. } => true,
        }
    }
}

/// The samples by their models.
pub open spec fn models(v: Seq<Sample>) -> Seq<SampleModel> {
    v.map_values(|s: Sample| s@)
}

/// Every sample is well-formed.
pub open spec fn all_wf(v: Seq<Sample>) -> bool {
    forall|i: int| 0 <= i < v.len() ==> (#[trigger] v[i]).wf()
}

/// An object has the keys of its fields, with their values.
proof fn lemma_object(ps: Seq<(Seq<char>, FieldModel)>)
    requires
        keys_distinct(ps),
    ensures
        forall|i: int|
            0 <= i < ps.len() ==> object(ps).contains_key((#[trigger] ps[i]).0) && object(
                ps,
            )[ps[i].0] == ps[i].1,
        forall|k: Seq<char>| #[trigger]
            object(ps).contains_key(k) ==> exists|i: int|
                0 <= i < ps.len() && (#[trigger] ps[i]).0 == k,
    decreases ps.len(),
{
    if ps.len() > 0 {
        let front = ps.drop_last();
        assert(keys_distinct(front)) by {
            assert forall|i: int, j: int|
                0 <= i < front.len() && 0 <= j < front.len() && i != j implies (
            #[trigger] front[i]).0 != (#[trigger] front[j]).0 by {
                assert(front[i] == ps[i] && front[j] == ps[j]);
            }
        }
        lemma_object(front);
        let last = ps.len() - 1;
        assert forall|i: int| 0 <= i < ps.len() implies object(ps).contains_key(
            (#[trigger] ps[i]).0,
        ) && object(ps)[ps[i].0] == ps[i].1 by {
            if i < last {
                assert(front[i] == ps[i]);
                assert(ps[i].0 != ps[last].0);
            }
        }
        assert forall|k: Seq<char>| #[trigger] object(ps).contains_key(k) implies exists|i: int|
            0 <= i < ps.len() && (#[trigger] ps[i]).0 == k by {
            if k == ps.last().0 {
                assert(ps[last].0 == k);
            } else {
                assert(object(front).contains_key(k));
                let i = choose|i: int| 0 <= i < front.len() && (#[trigger] front[i]).0 == k;
                assert(ps[i].0 == k);
            }
        }
    }
}

fn find_key(fields: &Vec<(String, Field)>, key: &str) -> (r: Option<usize>)
    requires
        keys_distinct(pairs(fields@)),
    ensures
        match r {
            Some(i) => i < fields@.len() && pairs(fields@)[i as int].0 == key@ && object(
                pairs(fields@),
            ).contains_key(key@),
            None => !object(pairs(fields@)).contains_key(key@) && forall|j: int|
                0 <= j < fields@.len() ==> (#[trigger] pairs(fields@)[j]).0 != key@,
        },
{
    proof {
        lemma_object(pairs(fields@));
    }
    let mut i: usize = 0;
    while i < fields.len()
        invariant
            i <= fields@.len(),
            keys_distinct(pairs(fields@)),
            forall|j: int| 0 <= j < i ==> (#[trigger] pairs(fields@)[j]).0 != key@,
        decreases fields@.len() - i,
    {
        assert(pairs(fields@)[i as int].0 == fields@[i as int].0@);
        if same_text(fields[i].0.as_str(), key) {
            proof {
                lemma_object(pairs(fields@));
            }
            return Some(i);
        }
        i += 1;
    }
    None
}

/// Puts a field into an object, in place of a former one with the same key.
fn insert_field(fields: &mut Vec<(String, Field)>, key: &str, f: Field)
    requires
        keys_distinct(pairs(old(fields)@)),
    ensures
        keys_distinct(pairs(final(fields)@)),
        object(pairs(final(fields)@)) == object(pairs(old(fields)@)).insert(key@, f@),
{
    let ghost before = pairs(fields@);
    let ghost value = f@;
    let at = find_key(fields, key);
    proof {
        lemma_object(before);
    }
    match at {
        Some(i) => {
            fields.set(i, (String::from_str(key), f));
            proof {
                let after = pairs(fields@);
                assert(after =~= before.update(i as int, (key@, value)));
                assert(keys_distinct(after));
                lemma_object(after);
                assert forall|k: Seq<char>| object(after).contains_key(k) <==> object(
                    before,
                ).insert(key@, value).contains_key(k) by {
                    if object(after).contains_key(k) {
                        let j = choose|j: int| 0 <= j < after.len() && (#[trigger] after[j]).0 == k;
                        if j != i {
                            assert(before[j].0 == k);
                        }
                    }
                    if object(before).contains_key(k) {
                        let j = choose|j: int|
                            0 <= j < before.len() && (#[trigger] before[j]).0 == k;
                        assert(after[j].0 == k);
                    }
                    assert(after[i as int].0 == key@);
                }
                assert forall|k: Seq<char>| object(after).contains_key(k) implies object(after)[k]
                    == object(before).insert(key@, value)[k] by {
                    let j = choose|j: int| 0 <= j < after.len() && (#[trigger] after[j]).0 == k;
                    assert(object(after)[after[j].0] == after[j].1);
                    if j != i {
                        assert(before[j] == after[j]);
                        assert(object(before)[before[j].0] == before[j].1);
                        assert(after[j].0 != after[i as int].0);
                    }
                }
                assert(object(after) =~= object(before).insert(key@, value));
            }
        },
        None => {
            fields.push((String::from_str(key), f));
            proof {
                let after = pairs(fields@);
                assert(after =~= before.push((key@, value)));
                assert(after.drop_last() =~= before);
                assert(keys_distinct(after));
            }
        },
    }
}

/// Takes a field out of an object.
fn remove_field(fields: &mut Vec<(String, Field)>, key: &str) -> (r: Option<Field>)
    requires
        keys_distinct(pairs(old(fields)@)),
    ensures
        keys_distinct(pairs(final(fields)@)),
        object(pairs(final(fields)@)) == object(pairs(old(fields)@)).remove(key@),
        match r {
            Some(f) => object(pairs(old(fields)@)).contains_key(key@) && f@ == object(
                pairs(old(fields)@),
            )[key@],
            None => !object(pairs(old(fields)@)).contains_key(key@),
        },
{
    let ghost before = pairs(fields@);
    let at = find_key(fields, key);
    proof {
        lemma_object(before);
    }
    match at {
        Some(i) => {
            let f = fields.remove(i);
            proof {
                let after = pairs(fields@);
                assert(after =~= before.remove(i as int));
                assert forall|a: int, b: int|
                    0 <= a < after.len() && 0 <= b < after.len() && a != b implies (
                #[trigger] after[a]).0 != (#[trigger] after[b]).0 by {
                    let x = if a < i {
                        a
                    } else {
                        a + 1
                    };
                    let y = if b < i {
                        b
                    } else {
                        b + 1
                    };
                    assert(after[a] == before[x] && after[b] == before[y]);
                }
                lemma_object(after);
                assert forall|k: Seq<char>| object(after).contains_key(k) <==> object(
                    before,
                ).remove(key@).contains_key(k) by {
                    if object(after).contains_key(k) {
                        let j = choose|j: int| 0 <= j < after.len() && (#[trigger] after[j]).0 == k;
                        let x = if j < i {
                            j
                        } else {
                            j + 1
                        };
                        assert(after[j] == before[x]);
                        assert(before[x].0 != before[i as int].0);
                    }
                    if object(before).contains_key(k) && k != key@ {
                        let j = choose|j: int|
                            0 <= j < before.len() && (#[trigger] before[j]).0 == k;
                        let x = if j < i {
                            j
                        } else {
                            j - 1
                        };
                        assert(after[x] == before[j]);
                    }
                }
                assert forall|k: Seq<char>| object(after).contains_key(k) implies object(after)[k]
                    == object(before).remove(key@)[k] by {
                    let j = choose|j: int| 0 <= j < after.len() && (#[trigger] after[j]).0 == k;
                    let x = if j < i {
                        j
                    } else {
                        j + 1
                    };
                    assert(after[j] == before[x]);
                    assert(object(after)[after[j].0] == after[j].1);
                    assert(object(before)[before[x].0] == before[x].1);
                }
                assert(object(after) =~= object(before).remove(key@));
            }
            Some(f.1)
        },
        None => {
            assert(object(before) =~= object(before).remove(key@));
            None
        },
    }
}

/// The double of a field of a sample.
pub open spec fn double_at(s: SampleModel, key: Seq<char>) -> Option<u64> {
    match s {
        SampleModel::Object { fields } => if fields.contains_key(key) {
            double_of(fields[key])
        } else {
            None
        },
        SampleModel::Other { .. } => None,
    }
}

fn read_double(s: &Sample, key: &str) -> (r: Option<u64>)
    requires
        s.wf(),
    ensures
        r == double_at(s@, key@),
{
    match s {
        Sample::Object { fields } => {
            let at = find_key(fields, key);
            match at {
                Some(i) => {
                    proof {
                        lemma_object(pairs(fields@));
                        assert(pairs(fields@)[i as int].1 == fields@[i as int].1@);
                    }
                    match &fields[i].1 {
                        Field::Number { bits } => Some(*bits),
                        Field::Raw { double, .. } => *double,
                    }
                },
                None => None,
            }
        },
        Sample::Other { .. } => None,
    }
}

/// The field that holds a double: JSON writes one that is not finite as `null`.
pub open spec fn double_field(bits: u64) -> FieldModel {
    if finite_double(bits) {
        FieldModel::Number { bits }
    } else {
        FieldModel::Raw { text: "null"@, double: None }
    }
}

/// The object with a double under the key, where there is one.
pub open spec fn with_double(
    fields: Map<Seq<char>, FieldModel>,
    key: Seq<char>,
    v: Option<u64>,
) -> Map<Seq<char>, FieldModel> {
    match v {
        Some(bits) => fields.insert(key, double_field(bits)),
        None => fields,
    }
}

fn insert_double(fields: &mut Vec<(String, Field)>, key: &str, v: Option<u64>)
    requires
        keys_distinct(pairs(old(fields)@)),
    ensures
        keys_distinct(pairs(final(fields)@)),
        object(pairs(final(fields)@)) == with_double(object(pairs(old(fields)@)), key@, v),
{
    if let Some(bits) = v {
        let f = if is_finite(bits) {
            Field::Number { bits }
        } else {
            Field::Raw { text: String::from_str("null"), double: None }
        };
        insert_field(fields, key, f);
    }
}

/// The sample with these doubles.
pub open spec fn interval_object(
    timestamp: u64,
    interval_end: u64,
    throughput: u64,
    jitter: u64,
    packet_loss: u64,
    path5g: Option<u64>,
    pathsat: Option<u64>,
) -> SampleModel {
    let a = with_double(Map::empty(), "timestamp"@, Some(timestamp));
    let b = with_double(a, "interval_end"@, Some(interval_end));
    let c = with_double(b, "throughput"@, Some(throughput));
    let d = with_double(c, "jitter"@, Some(jitter));
    let e = with_double(d, "packetLoss"@, Some(packet_loss));
    let f = with_double(e, "5G_throughput"@, path5g);
    SampleModel::Object { fields: with_double(f, "sat_throughput"@, pathsat) }
}

/// Makes the sample of an interval row, given the doubles that its texts denote.
pub fn interval_sample(
    timestamp: u64,
    interval_end: u64,
    throughput: u64,
    jitter: u64,
    packet_loss: u64,
    path5g: Option<u64>,
    pathsat: Option<u64>,
) -> (r: Sample)
    ensures
        r.wf(),
        r@ == interval_object(
            timestamp,
            interval_end,
            throughput,
            jitter,
            packet_loss,
            path5g,
            pathsat,
        ),
{
    let mut fields: Vec<(String, Field)> = Vec::new();
    assert(pairs(fields@) =~= Seq::<(Seq<char>, FieldModel)>::empty());
    insert_double(&mut fields, "timestamp", Some(timestamp));
    insert_double(&mut fields, "interval_end", Some(interval_end));
    insert_double(&mut fields, "throughput", Some(throughput));
    insert_double(&mut fields, "jitter", Some(jitter));
    insert_double(&mut fields, "packetLoss", Some(packet_loss));
    insert_double(&mut fields, "5G_throughput", path5g);
    insert_double(&mut fields, "sat_throughput", pathsat);
    Sample::Object { fields }
}

/// The doubles that the columns of an interval row denote, by their bits, and the
/// time at which it was read. Those of columns that the row lacks do not count.
#[derive(Debug, Clone, Copy)]
pub struct RowDoubles {
    pub timestamp: u64,
    pub interval_end: u64,
    pub throughput: u64,
    pub jitter: u64,
    pub packet_loss: u64,
    pub path5g: u64,
    pub pathsat: u64,
}

/// The double of a column, where the row has it.
pub open spec fn column(text: Option<Seq<char>>, bits: u64) -> Option<u64> {
    match text {
        Some(_) => Some(bits),
        None => None,
    }
}

/// The double of a column, or zero.
pub open spec fn column_or_zero(text: Option<Seq<char>>, bits: u64) -> u64 {
    match text {
        Some(_) => bits,
        None => 0,
    }
}

/// The sample of a row.
pub open spec fn row_sample(row: IntervalRow, d: RowDoubles) -> SampleModel {
    interval_object(
        d.timestamp,
        column_or_zero(row.interval_end, d.interval_end),
        d.throughput,
        column_or_zero(row.jitter, d.jitter),
        column_or_zero(row.packet_loss, d.packet_loss),
        column(row.path5g, d.path5g),
        column(row.pathsat, d.pathsat),
    )
}

/// The sample that a line holds.
pub open spec fn line_object(line: Seq<char>, d: RowDoubles) -> Option<SampleModel> {
    match interval_row(line) {
        Some(row) => Some(row_sample(row, d)),
        None => None,
    }
}

fn opt_column(text: &Option<String>, bits: u64) -> (r: Option<u64>)
    ensures
        r == column(opt_text(*text), bits),
{
    if text.is_some() {
        Some(bits)
    } else {
        None
    }
}

fn zero_column(text: &Option<String>, bits: u64) -> (r: u64)
    ensures
        r == column_or_zero(opt_text(*text), bits),
{
    if text.is_some() {
        bits
    } else {
        0
    }
}

/// Takes the sample out of a line of output; `None` where it is no interval row.
pub fn line_sample(line: &str, d: &RowDoubles) -> (r: Option<Sample>)
    ensures
        match r {
            Some(s) => s.wf() && line_object(line@, *d) == Some(s@),
            None => line_object(line@, *d) is None,
        },
{
    match parse_interval_line(line) {
        Some(row) => Some(
            interval_sample(
                d.timestamp,
                zero_column(&row.interval_end, d.interval_end),
                d.throughput,
                zero_column(&row.jitter, d.jitter),
                zero_column(&row.packet_loss, d.packet_loss),
                opt_column(&row.path5g, d.path5g),
                opt_column(&row.pathsat, d.pathsat),
            ),
        ),
        None => None,
    }
}

// ───────────────────────────── merging ─────────────────────────────

/// What the sender of an uplink session knows of an interval: the rates of its
/// two paths, and the loss.
#[derive(Debug, Clone, Copy, PartialEq, Eq, Structural)]
pub struct SenderRates {
    pub path5g: Option<u64>,
    pub pathsat: Option<u64>,
    pub packet_loss: Option<u64>,
}

/// What each interval's last sample of the client says.
pub open spec fn rates_by_interval(clients: Seq<SampleModel>) -> Map<u64, SenderRates>
    decreases clients.len(),
{
    if clients.len() == 0 {
        Map::empty()
    } else {
        let before = rates_by_interval(clients.drop_last());
        let s = clients.last();
        match double_at(s, "interval_end"@) {
            Some(bits) => before.insert(
                bits,
                SenderRates {
                    path5g: double_at(s, "5G_throughput"@),
                    pathsat: double_at(s, "sat_throughput"@),
                    packet_loss: double_at(s, "packetLoss"@),
                },
            ),
            None => before,
        }
    }
}

/// The loss that each interval's last sample of the server with a loss says.
pub open spec fn loss_by_interval(servers: Seq<SampleModel>) -> Map<u64, u64>
    decreases servers.len(),
{
    if servers.len() == 0 {
        Map::empty()
    } else {
        let before = loss_by_interval(servers.drop_last());
        let s = servers.last();
        match (double_at(s, "interval_end"@), double_at(s, "packetLoss"@)) {
            (Some(bits), Some(loss)) => before.insert(bits, loss),
            _ => before,
        }
    }
}

/// A sample of the server in an uplink session, with what the client knows of
/// its interval.
pub open spec fn uplink_merged(s: SampleModel, rates: Map<u64, SenderRates>) -> SampleModel {
    match (s, double_at(s, "interval_end"@)) {
        (SampleModel::Object { fields }, Some(bits)) => if rates.contains_key(bits) {
            let r = rates[bits];
            SampleModel::Object {
                fields: with_double(
                    with_double(
                        with_double(fields, "5g_throughput"@, r.path5g),
                        "satellite_throughput"@,
                        r.pathsat,
                    ),
                    "packetLoss"@,
                    r.packet_loss,
                ),
            }
        } else {
            s
        },
        _ => s,
    }
}

/// A sample of the client in a downlink session, with the loss that the server
/// saw in its interval.
pub open spec fn downlink_merged(s: SampleModel, losses: Map<u64, u64>) -> SampleModel {
    match (s, double_at(s, "interval_end"@)) {
        (SampleModel::Object { fields }, Some(bits)) => if losses.contains_key(bits) {
            SampleModel::Object {
                fields: with_double(fields, "sender_packetLoss"@, Some(losses[bits])),
            }
        } else {
            s
        },
        _ => s,
    }
}

/// A sample as it is reported: without the key that matched it.
pub open spec fn reported(s: SampleModel) -> SampleModel {
    match s {
        SampleModel::Object { fields } => SampleModel::Object {
            fields: fields.remove("interval_end"@),
        },
        SampleModel::Other { .. } => s,
    }
}

/// The reported samples of a session.
pub open spec fn session_result(
    uplink: bool,
    client: Seq<SampleModel>,
    server: Seq<SampleModel>,
) -> Seq<SampleModel> {
    if uplink {
        Seq::new(
            server.len(),
            |i: int| reported(uplink_merged(server[i], rates_by_interval(client))),
        )
    } else {
        Seq::new(
            client.len(),
            |i: int| reported(downlink_merged(client[i], loss_by_interval(server))),
        )
    }
}

/// Reported samples do not show the internal key, and show every other one.
pub proof fn internal_keys_are_hidden(fields: Map<Seq<char>, FieldModel>, key: Seq<char>)
    ensures
        reported(SampleModel::Object { fields }) matches SampleModel::Object { fields: shown } && {
            &&& shown.contains_key(key) <==> fields.contains_key(key) && key != "interval_end"@
            &&& shown.contains_key(key) ==> shown[key] == fields[key]
        },
{
}

/// A sample whose interval the other side does not know is reported with its own
/// fields alone.
pub proof fn unmatched_sample_is_unchanged(
    s: SampleModel,
    rates: Map<u64, SenderRates>,
    losses: Map<u64, u64>,
)
    requires
        double_at(s, "interval_end"@) matches Some(bits) ==> !rates.contains_key(bits)
            && !losses.contains_key(bits),
    ensures
        uplink_merged(s, rates) == s,
        downlink_merged(s, losses) == s,
{
}

fn collect_rates(clients: &Vec<Sample>) -> (m: HashMap<u64, SenderRates>)
    requires
        all_wf(clients@),
    ensures
        m@ == rates_by_interval(models(clients@)),
{
    let mut m: HashMap<u64, SenderRates> = HashMap::new();
    let ghost all = models(clients@);
    let mut i: usize = 0;
    assert(all.subrange(0, 0) =~= Seq::<SampleModel>::empty());
    while i < clients.len()
        invariant
            i <= clients@.len() == all.len(),
            all == models(clients@),
            all_wf(clients@),
            m@ == rates_by_interval(all.subrange(0, i as int)),
        decreases clients@.len() - i,
    {
        let s = &clients[i];
        proof {
            assert(all.subrange(0, i + 1).drop_last() =~= all.subrange(0, i as int));
            assert(all.subrange(0, i + 1).last() == s@);
        }
        if let Some(bits) = read_double(s, "interval_end") {
            let r = SenderRates {
                path5g: read_double(s, "5G_throughput"),
                pathsat: read_double(s, "sat_throughput"),
                packet_loss: read_double(s, "packetLoss"),
            };
            m.insert(bits, r);
        }
        i += 1;
    }
    assert(all.subrange(0, i as int) =~= all);
    m
}

fn collect_losses(servers: &Vec<Sample>) -> (m: HashMap<u64, u64>)
    requires
        all_wf(servers@),
    ensures
        m@ == loss_by_interval(models(servers@)),
{
    let mut m: HashMap<u64, u64> = HashMap::new();
    let ghost all = models(servers@);
    let mut i: usize = 0;
    assert(all.subrange(0, 0) =~= Seq::<SampleModel>::empty());
    while i < servers.len()
        invariant
            i <= servers@.len() == all.len(),
            all == models(servers@),
            all_wf(servers@),
            m@ == loss_by_interval(all.subrange(0, i as int)),
        decreases servers@.len() - i,
    {
        let s = &servers[i];
        proof {
            assert(all.subrange(0, i + 1).drop_last() =~= all.subrange(0, i as int));
            assert(all.subrange(0, i + 1).last() == s@);
        }
        let bits = read_double(s, "interval_end");
        let loss = read_double(s, "packetLoss");
        if let Some(b) = bits {
            if let Some(l) = loss {
                m.insert(b, l);
            }
        }
        i += 1;
    }
    assert(all.subrange(0, i as int) =~= all);
    m
}

fn merge_uplink(s: &mut Sample, rates: &HashMap<u64, SenderRates>)
    requires
        old(s).wf(),
    ensures
        final(s).wf(),
        final(s)@ == uplink_merged(old(s)@, rates@),
{
    if let Some(bits) = read_double(s, "interval_end") {
        if let Some(r) = rates.get(&bits) {
            if let Sample::Object { fields } = s {
                insert_double(fields, "5g_throughput", r.path5g);
                insert_double(fields, "satellite_throughput", r.pathsat);
                insert_double(fields, "packetLoss", r.packet_loss);
            }
        }
    }
}

fn merge_downlink(s: &mut Sample, losses: &HashMap<u64, u64>)
    requires
        old(s).wf(),
    ensures
        final(s).wf(),
        final(s)@ == downlink_merged(old(s)@, losses@),
{
    if let Some(bits) = read_double(s, "interval_end") {
        if let Some(l) = losses.get(&bits) {
            if let Sample::Object { fields } = s {
                insert_double(fields, "sender_packetLoss", Some(*l));
            }
        }
    }
}

fn finish_sample(s: &mut Sample)
    requires
        old(s).wf(),
    ensures
        final(s).wf(),
        final(s)@ == reported(old(s)@),
{
    if let Sample::Object { fields } = s {
        remove_field(fields, "interval_end");
    }
}

/// Makes the reported samples of a session from those of both sides.
pub fn last_json_result(uplink: bool, client: Vec<Sample>, server: Vec<Sample>) -> (r: Vec<Sample>)
    requires
        all_wf(client@),
        all_wf(server@),
    ensures
        all_wf(r@),
        models(r@) == session_result(uplink, models(client@), models(server@)),
{
    let ghost before = if uplink {
        server@
    } else {
        client@
    };
    let rates = collect_rates(&client);
    let losses = collect_losses(&server);
    let mut samples = if uplink {
        server
    } else {
        client
    };
    let ghost want = session_result(uplink, models(client@), models(server@));
    let mut i: usize = 0;
    while i < samples.len()
        invariant
            i <= samples@.len() == before.len() == want.len(),
            all_wf(samples@),
            forall|j: int| 0 <= j < i ==> (#[trigger] samples@[j])@ == want[j],
            forall|j: int| i <= j < before.len() ==> #[trigger] samples@[j] == before[j],
            forall|j: int|
                0 <= j < want.len() ==> #[trigger] want[j] == if uplink {
                    reported(uplink_merged(before[j]@, rates@))
                } else {
                    reported(downlink_merged(before[j]@, losses@))
                },
        decreases samples@.len() - i,
    {
        assert(samples@[i as int] == before[i as int]);
        assert(want[i as int] == want[i as int]);
        let s = &mut samples[i];
        if uplink {
            merge_uplink(s, &rates);
        } else {
            merge_downlink(s, &losses);
        }
        finish_sample(s);
        i += 1;
    }
    assert(models(samples@) =~= want);
    samples
}

/// Where the samples of the server come from.
pub enum SampleSource {
    /// The samples that were parsed here.
    Local,
    /// The server's control interface, at this address.
    Remote { url: String },
    /// Nowhere.
    Nothing,
}

/// Decides where the samples of the server come from: from here where there are
/// any, else from the server's control interface where its address is known.
pub fn server_sample_source(local_count: usize, base_url: &Option<String>) -> (r: SampleSource)
    ensures
        match (r, *base_url) {
            (SampleSource::Local, _) => local_count > 0,
            (SampleSource::Remote { url }, Some(base)) => local_count == 0 && url@ == base@
                + "/server/intervals"@,
            (SampleSource::Remote { .. }, None) => false,
            (SampleSource::Nothing, b) => local_count == 0 && b is None,
        },
{
    if local_count > 0 {
        return SampleSource::Local;
    }
    match base_url {
        Some(base) => {
            let mut url = base.clone();
            url.append("/server/intervals");
            SampleSource::Remote { url }
        },
        None => SampleSource::Nothing,
    }
}

// ───────────────────────────── plain text ─────────────────────────────

/// A double and how it is rendered.
pub struct DoubleText {
    pub bits: u64,
    /// The shortest text that denotes the double.
    pub text: String,
}

/// A bare `0` for zero, and the shortest text otherwise.
pub open spec fn double_text(d: DoubleText) -> Seq<char> {
    if d.bits == 0 || d.bits == SIGN_BIT {
        "0"@
    } else {
        d.text@
    }
}

/// Renders a double: a bare `0` for zero, and the shortest text otherwise.
pub fn fmt_float(d: &DoubleText) -> (r: String)
    ensures
        r@ == double_text(*d),
{
    if d.bits == 0 || d.bits == SIGN_BIT {
        String::from_str("0")
    } else {
        d.text.clone()
    }
}

/// The rendered values of a sample.
pub struct SampleCells {
    pub timestamp: String,
    pub throughput: DoubleText,
    pub jitter: DoubleText,
    pub packet_loss: DoubleText,
}

/// A sample in plain text.
pub open spec fn sample_text(c: SampleCells) -> Seq<char> {
    "{'timestamp': "@ + c.timestamp@ + ", 'throughput': "@ + double_text(c.throughput)
        + ", 'jitter': "@ + double_text(c.jitter) + ", 'packetLoss': "@ + double_text(
        c.packet_loss,
    ) + "}"@
}

/// The samples in plain text.
pub open spec fn result_text(cells: Seq<SampleCells>) -> Seq<char> {
    "Last Json Result: ["@ + joined(
        cells.map_values(|c: SampleCells| sample_text(c)),
        ", "@,
    ) + "]"@
}

/// Renders the samples of a session in plain text.
pub fn server_last_json_result(cells: &Vec<SampleCells>) -> (r: String)
    ensures
        r@ == result_text(cells@),
{
    let mut items: Vec<String> = Vec::new();
    let ghost all = cells@.map_values(|c: SampleCells| sample_text(c));
    let mut i: usize = 0;
    while i < cells.len()
        invariant
            i <= cells@.len(),
            all == cells@.map_values(|c: SampleCells| sample_text(c)),
            texts(items@) =~= all.subrange(0, i as int),
        decreases cells@.len() - i,
    {
        let c = &cells[i];
        let mut s = String::from_str("{'timestamp': ");
        s.append(c.timestamp.as_str());
        s.append(", 'throughput': ");
        s.append(fmt_float(&c.throughput).as_str());
        s.append(", 'jitter': ");
        s.append(fmt_float(&c.jitter).as_str());
        s.append(", 'packetLoss': ");
        s.append(fmt_float(&c.packet_loss).as_str());
        s.append("}");
        let ghost before = texts(items@);
        assert(s@ == all[i as int]);
        items.push(s);
        assert(texts(items@) =~= before.push(s@));
        i += 1;
    }
    assert(all.subrange(0, i as int) =~= all);
    let mut r = String::from_str("Last Json Result: [");
    r.append(join(&items, ", ").as_str());
    r.append("]");
    r
}

} // verus!
