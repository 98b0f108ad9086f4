//! What the result of a session promises: which fields merging may touch, and where
//! what it adds comes from.

use crate::intervals::IntervalRow;
use crate::results::{
    double_at, interval_object, loss_by_interval, rates_by_interval, row_sample, session_result,
    FieldModel, RowDoubles, SampleModel, SenderRates,
};
use crate::scores::finite_double;
use vstd::prelude::*;

verus! {

/// The field shows the double: as a number where it is finite, else as `null`.
pub open spec fn is_double(f: FieldModel, bits: u64) -> bool {
    match f {
        FieldModel::Number { bits: b } => finite_double(bits) && b == bits,
        FieldModel::Raw { text, double } => !finite_double(bits) && text == "null"@ && double
            is None,
    }
}

/// The object shows the key as the other one does, or both lack it.
pub open spec fn same_at(
    a: Map<Seq<char>, FieldModel>,
    b: Map<Seq<char>, FieldModel>,
    key: Seq<char>,
) -> bool {
    &&& a.contains_key(key) <==> b.contains_key(key)
    &&& a.contains_key(key) ==> a[key] == b[key]
}

proof fn lemma_keys()
    ensures
        "interval_end"@ != "sender_packetLoss"@,
        "interval_end"@ != "5g_throughput"@,
        "interval_end"@ != "satellite_throughput"@,
        "interval_end"@ != "packetLoss"@,
        "5g_throughput"@ != "satellite_throughput"@,
        "5g_throughput"@ != "packetLoss"@,
        "satellite_throughput"@ != "packetLoss"@,
{
    reveal_strlit("interval_end");
    reveal_strlit("sender_packetLoss");
    reveal_strlit("5g_throughput");
    reveal_strlit("satellite_throughput");
    reveal_strlit("packetLoss");
    assert("interval_end"@[0] == 'i');
    assert("sender_packetLoss"@[0] == 's');
    assert("5g_throughput"@[0] == '5');
    assert("satellite_throughput"@[0] == 's');
    assert("packetLoss"@[0] == 'p');
}

/// A field stands for a double where it is a number, however it is written; a missing
/// field, a field that is no number and a sample that is no object stand for none.
pub proof fn numbers_are_read_from_fields(
    fields: Map<Seq<char>, FieldModel>,
    key: Seq<char>,
    text: Seq<char>,
    bits: u64,
    double: Option<u64>,
)
    ensures
        double_at(
            (SampleModel::Object { fields: fields.insert(key, FieldModel::Number { bits }) }),
            key,
        ) == Some(bits),
        double_at(
            (SampleModel::Object { fields: fields.insert(key, FieldModel::Raw { text, double }) }),
            key,
        ) == double,
        !fields.contains_key(key) ==> double_at((SampleModel::Object { fields }), key) is None,
        double_at((SampleModel::Other { text }), key) is None,
{
}

/// A session reports the samples of its receiver, one for one: of the server in an
/// uplink session, of the client in a downlink session. A sample that is no object is
/// reported as it is.
pub proof fn receiver_samples_are_reported(
    uplink: bool,
    client: Seq<SampleModel>,
    server: Seq<SampleModel>,
    i: int,
)
    ensures
        ({
            let r = session_result(uplink, client, server);
            let own = if uplink {
                server
            } else {
                client
            };
            &&& r.len() == own.len()
            &&& 0 <= i < own.len() ==> (r[i] is Object <==> own[i] is Object)
            &&& 0 <= i < own.len() && own[i] is Other ==> r[i] == own[i]
        }),
{
}

/// In a downlink session every field of a client's sample is reported with the
/// client's own value, also where the server knows the interval: merging may add or
/// change the sender's loss alone, and only the key that matched is hidden.
pub proof fn downlink_keeps_the_clients_fields(
    client: Seq<SampleModel>,
    server: Seq<SampleModel>,
    i: int,
    fields: Map<Seq<char>, FieldModel>,
    key: Seq<char>,
)
    requires
        0 <= i < client.len(),
        client[i] == (SampleModel::Object { fields }),
    ensures
        session_result(false, client, server)[i] matches SampleModel::Object { fields: shown } && {
            &&& !shown.contains_key("interval_end"@)
            &&& key != "interval_end"@ && key != "sender_packetLoss"@ ==> same_at(
                shown,
                fields,
                key,
            )
        },
{
}

/// The sample is of the interval and has a loss.
pub open spec fn tells_loss(s: SampleModel, interval: u64) -> bool {
    double_at(s, "interval_end"@) == Some(interval) && double_at(s, "packetLoss"@) is Some
}

proof fn lemma_losses(servers: Seq<SampleModel>, interval: u64, j: int)
    requires
        -1 <= j < servers.len(),
        j >= 0 ==> tells_loss(servers[j], interval),
        forall|k: int| j < k < servers.len() ==> !tells_loss(#[trigger] servers[k], interval),
    ensures
        loss_by_interval(servers).contains_key(interval) <==> j >= 0,
        j >= 0 ==> Some(loss_by_interval(servers)[interval]) == double_at(
            servers[j],
            "packetLoss"@,
        ),
    decreases servers.len(),
{
    let last = servers.len() - 1;
    if j < last {
        let front = servers.drop_last();
        assert forall|k: int| j < k < front.len() implies !tells_loss(
            #[trigger] front[k],
            interval,
        ) by {
            assert(front[k] == servers[k]);
        }
        lemma_losses(front, interval, j);
        assert(!tells_loss(servers[last], interval));
    }
}

/// The sender's loss in a downlink session is the loss of the server's last sample
/// with one in the same interval; where the server has none, the client's field stays.
pub proof fn downlink_adds_the_servers_loss(
    client: Seq<SampleModel>,
    server: Seq<SampleModel>,
    i: int,
    fields: Map<Seq<char>, FieldModel>,
    interval: u64,
    j: int,
)
    requires
        0 <= i < client.len(),
        client[i] == (SampleModel::Object { fields }),
        double_at(client[i], "interval_end"@) == Some(interval),
        -1 <= j < server.len(),
        j >= 0 ==> tells_loss(server[j], interval),
        forall|k: int| j < k < server.len() ==> !tells_loss(#[trigger] server[k], interval),
    ensures
        session_result(false, client, server)[i] matches SampleModel::Object { fields: shown } && {
            &&& j >= 0 ==> shown.contains_key("sender_packetLoss"@) && is_double(
                shown["sender_packetLoss"@],
                double_at(server[j], "packetLoss"@).unwrap(),
            )
            &&& j < 0 ==> same_at(shown, fields, "sender_packetLoss"@)
        },
{
    lemma_keys();
    lemma_losses(server, interval, j);
}

/// In an uplink session every field of a server's sample is reported with the server's
/// own value, but for the rates of the two paths and the loss, which the client knows;
/// only the key that matched is hidden.
pub proof fn uplink_keeps_the_servers_fields(
    client: Seq<SampleModel>,
    server: Seq<SampleModel>,
    i: int,
    fields: Map<Seq<char>, FieldModel>,
    key: Seq<char>,
)
    requires
        0 <= i < server.len(),
        server[i] == (SampleModel::Object { fields }),
    ensures
        session_result(true, client, server)[i] matches SampleModel::Object { fields: shown } && {
            &&& !shown.contains_key("interval_end"@)
            &&& key != "interval_end"@ && key != "5g_throughput"@ && key
                != "satellite_throughput"@ && key != "packetLoss"@ ==> same_at(shown, fields, key)
        },
{
}

/// The sample is of the interval.
pub open spec fn of_interval(s: SampleModel, interval: u64) -> bool {
    double_at(s, "interval_end"@) == Some(interval)
}

proof fn lemma_rates(clients: Seq<SampleModel>, interval: u64, j: int)
    requires
        -1 <= j < clients.len(),
        j >= 0 ==> of_interval(clients[j], interval),
        forall|k: int| j < k < clients.len() ==> !of_interval(#[trigger] clients[k], interval),
    ensures
        rates_by_interval(clients).contains_key(interval) <==> j >= 0,
        j >= 0 ==> rates_by_interval(clients)[interval] == (SenderRates {
            path5g: double_at(clients[j], "5G_throughput"@),
            pathsat: double_at(clients[j], "sat_throughput"@),
            packet_loss: double_at(clients[j], "packetLoss"@),
        }),
    decreases clients.len(),
{
    let last = clients.len() - 1;
    if j < last {
        let front = clients.drop_last();
        assert forall|k: int| j < k < front.len() implies !of_interval(
            #[trigger] front[k],
            interval,
        ) by {
            assert(front[k] == clients[k]);
        }
        lemma_rates(front, interval, j);
        assert(!of_interval(clients[last], interval));
    }
}

/// The object shows the client's value under the key where the client has one, and
/// what the server has there otherwise.
pub open spec fn taken_over(
    shown: Map<Seq<char>, FieldModel>,
    fields: Map<Seq<char>, FieldModel>,
    key: Seq<char>,
    v: Option<u64>,
) -> bool {
    match v {
        Some(bits) => shown.contains_key(key) && is_double(shown[key], bits),
        None => same_at(shown, fields, key),
    }
}

/// What an uplink session adds comes from the client's last sample of the same
/// interval: the rate of each path from that path's own field, the loss from the
/// loss. Where the client has no such sample, the server's fields stay.
pub proof fn uplink_adds_the_clients_rates(
    client: Seq<SampleModel>,
    server: Seq<SampleModel>,
    i: int,
    fields: Map<Seq<char>, FieldModel>,
    interval: u64,
    j: int,
)
    requires
        0 <= i < server.len(),
        server[i] == (SampleModel::Object { fields }),
        double_at(server[i], "interval_end"@) == Some(interval),
        -1 <= j < client.len(),
        j >= 0 ==> of_interval(client[j], interval),
        forall|k: int| j < k < client.len() ==> !of_interval(#[trigger] client[k], interval),
    ensures
        session_result(true, client, server)[i] matches SampleModel::Object { fields: shown } && {
            &&& taken_over(
                shown,
                fields,
                "5g_throughput"@,
                if j >= 0 {
                    double_at(client[j], "5G_throughput"@)
                } else {
                    None
                },
            )
            &&& taken_over(
                shown,
                fields,
                "satellite_throughput"@,
                if j >= 0 {
                    double_at(client[j], "sat_throughput"@)
                } else {
                    None
                },
            )
            &&& taken_over(
                shown,
                fields,
                "packetLoss"@,
                if j >= 0 {
                    double_at(client[j], "packetLoss"@)
                } else {
                    None
                },
            )
        },
{
    lemma_keys();
    lemma_rates(client, interval, j);
}

/// A sample without the end of its interval is reported with its own fields alone.
pub proof fn sample_without_interval_is_unmatched(
    uplink: bool,
    client: Seq<SampleModel>,
    server: Seq<SampleModel>,
    i: int,
    fields: Map<Seq<char>, FieldModel>,
    key: Seq<char>,
)
    requires
        ({
            let own = if uplink {
                server
            } else {
                client
            };
            &&& 0 <= i < own.len()
            &&& own[i] == (SampleModel::Object { fields })
            &&& double_at(own[i], "interval_end"@) is None
        }),
        key != "interval_end"@,
    ensures
        session_result(uplink, client, server)[i] matches SampleModel::Object { fields: shown }
            && same_at(shown, fields, key),
{
}

// ───────────────────────────── samples of rows ─────────────────────────────

proof fn lemma_row_keys()
    ensures
        "timestamp"@ != "interval_end"@,
        "timestamp"@ != "throughput"@,
        "timestamp"@ != "jitter"@,
        "timestamp"@ != "packetLoss"@,
        "timestamp"@ != "5G_throughput"@,
        "timestamp"@ != "sat_throughput"@,
        "interval_end"@ != "throughput"@,
        "interval_end"@ != "jitter"@,
        "interval_end"@ != "packetLoss"@,
        "interval_end"@ != "5G_throughput"@,
        "interval_end"@ != "sat_throughput"@,
        "throughput"@ != "jitter"@,
        "throughput"@ != "packetLoss"@,
        "throughput"@ != "5G_throughput"@,
        "throughput"@ != "sat_throughput"@,
        "jitter"@ != "packetLoss"@,
        "jitter"@ != "5G_throughput"@,
        "jitter"@ != "sat_throughput"@,
        "packetLoss"@ != "5G_throughput"@,
        "packetLoss"@ != "sat_throughput"@,
        "5G_throughput"@ != "sat_throughput"@,
{
    reveal_strlit("timestamp");
    reveal_strlit("interval_end");
    reveal_strlit("throughput");
    reveal_strlit("jitter");
    reveal_strlit("packetLoss");
    reveal_strlit("5G_throughput");
    reveal_strlit("sat_throughput");
    assert("timestamp"@.len() == 9 && "throughput"@.len() == 10);
    assert("timestamp"@[0] == 't');
    assert("interval_end"@[0] == 'i');
    assert("throughput"@[0] == 't');
    assert("jitter"@[0] == 'j');
    assert("packetLoss"@[0] == 'p');
    assert("5G_throughput"@[0] == '5');
    assert("sat_throughput"@[0] == 's');
}

/// A value is there exactly where it was given, and then it is the given one.
pub open spec fn given_at(
    fields: Map<Seq<char>, FieldModel>,
    key: Seq<char>,
    v: Option<u64>,
) -> bool {
    &&& fields.contains_key(key) <==> v is Some
    &&& v matches Some(bits) ==> is_double(fields[key], bits)
}

/// The sample of an interval has each measurement under its own key, the rate of a
/// path only where the row has it, and no other key.
pub proof fn sample_shows_each_measurement(
    timestamp: u64,
    interval_end: u64,
    throughput: u64,
    jitter: u64,
    packet_loss: u64,
    path5g: Option<u64>,
    pathsat: Option<u64>,
    key: Seq<char>,
)
    ensures
        interval_object(
            timestamp,
            interval_end,
            throughput,
            jitter,
            packet_loss,
            path5g,
            pathsat,
        ) matches SampleModel::Object { fields } && {
            &&& given_at(fields, "timestamp"@, Some(timestamp))
            &&& given_at(fields, "interval_end"@, Some(interval_end))
            &&& given_at(fields, "throughput"@, Some(throughput))
            &&& given_at(fields, "jitter"@, Some(jitter))
            &&& given_at(fields, "packetLoss"@, Some(packet_loss))
            &&& given_at(fields, "5G_throughput"@, path5g)
            &&& given_at(fields, "sat_throughput"@, pathsat)
            &&& fields.contains_key(key) ==> {
                ||| key == "timestamp"@
                ||| key == "interval_end"@
                ||| key == "throughput"@
                ||| key == "jitter"@
                ||| key == "packetLoss"@
                ||| key == "5G_throughput"@
                ||| key == "sat_throughput"@
            }
        },
{
    lemma_row_keys();
}

/// A column that the row lacks counts as zero, and the rate of a path that it lacks is
/// left out.
pub proof fn missing_columns_are_zero_or_left_out(row: IntervalRow, d: RowDoubles)
    ensures
        row_sample(row, d) matches SampleModel::Object { fields } && {
            &&& given_at(fields, "timestamp"@, Some(d.timestamp))
            &&& given_at(fields, "throughput"@, Some(d.throughput))
            &&& given_at(
                fields,
                "interval_end"@,
                Some(
                    if row.interval_end is Some {
                        d.interval_end
                    } else {
                        0
                    },
                ),
            )
            &&& given_at(
                fields,
                "jitter"@,
                Some(
                    if row.jitter is Some {
                        d.jitter
                    } else {
                        0
                    },
                ),
            )
            &&& given_at(
                fields,
                "packetLoss"@,
                Some(
                    if row.packet_loss is Some {
                        d.packet_loss
                    } else {
                        0
                    },
                ),
            )
            &&& given_at(
                fields,
                "5G_throughput"@,
                if row.path5g is Some {
                    Some(d.path5g)
                } else {
                    None
                },
            )
            &&& given_at(
                fields,
                "sat_throughput"@,
                if row.pathsat is Some {
                    Some(d.pathsat)
                } else {
                    None
                },
            )
        },
{
    lemma_row_keys();
}

} // verus!
