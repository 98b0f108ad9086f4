//! Byte formats on the wire: the client's trigger message, the server's
//! statistics replies, and the keys that the transport takes as byte arrays.

use vstd::prelude::*;
use vstd::string::StringSliceAdditionalSpecFns;

verus! {

// ───────────────────────────── little-endian numbers ─────────────────────────────

/// The `n` low bytes of `x`, least significant first.
pub open spec fn le_bytes(x: nat, n: nat) -> Seq<u8>
    decreases n,
{
    if n == 0 {
        Seq::empty()
    } else {
        seq![(x % 256) as u8] + le_bytes(x / 256, (n - 1) as nat)
    }
}

/// The number that the bytes denote, least significant first.
pub open spec fn le_value(s: Seq<u8>) -> nat
    decreases s.len(),
{
    if s.len() == 0 {
        0
    } else {
        s[0] as nat + 256 * le_value(s.subrange(1, s.len() as int))
    }
}

/// How many numbers `n` bytes can denote.
pub open spec fn le_limit(n: nat) -> nat
    decreases n,
{
    if n == 0 {
        1
    } else {
        256 * le_limit((n - 1) as nat)
    }
}

/// The eight bytes of a 64-bit number.
pub open spec fn u64_bytes(x: u64) -> Seq<u8> {
    le_bytes(x as nat, 8)
}

/// Bytes that hold a number read back as that number.
pub proof fn le_bytes_read_back(x: nat, n: nat)
    requires
        x < le_limit(n),
    ensures
        le_bytes(x, n).len() == n,
        le_value(le_bytes(x, n)) == x,
    decreases n,
{
    if n > 0 {
        let rest = le_bytes(x / 256, (n - 1) as nat);
        le_bytes_read_back(x / 256, (n - 1) as nat);
        assert(le_bytes(x, n).subrange(1, n as int) == rest);
    }
}

/// A number read from bytes is in range and is written as those bytes.
pub proof fn le_value_writes_back(s: Seq<u8>)
    ensures
        le_value(s) < le_limit(s.len()),
        le_bytes(le_value(s), s.len()) == s,
    decreases s.len(),
{
    if s.len() > 0 {
        let rest = s.subrange(1, s.len() as int);
        le_value_writes_back(rest);
        assert(le_value(s) % 256 == s[0] as nat);
        assert(le_value(s) / 256 == le_value(rest));
        assert(le_bytes(le_value(s), s.len()) =~= s);
    }
}

/// Eight bytes denote exactly the 64-bit numbers.
pub proof fn lemma_u64_limit()
    ensures
        le_limit(8) == u64::MAX + 1,
{
    reveal_with_fuel(le_limit, 9);
}

/// The eight bytes of a 64-bit number read back as that number.
pub proof fn u64_bytes_read_back(x: u64)
    ensures
        u64_bytes(x).len() == 8,
        le_value(u64_bytes(x)) == x,
{
    lemma_u64_limit();
    le_bytes_read_back(x as nat, 8);
}

/// Appends the eight bytes of a 64-bit number, least significant first.
pub fn push_u64_le(v: &mut Vec<u8>, x: u64)
    ensures
        final(v)@ == old(v)@ + u64_bytes(x),
{
    let ghost before = v@;
    let mut rest: u64 = x;
    let mut i: usize = 0;
    while i < 8
        invariant
            i <= 8,
            v@ + le_bytes(rest as nat, (8 - i) as nat) == before + u64_bytes(x),
        decreases 8 - i,
    {
        let ghost held = v@;
        let ghost tail = le_bytes((rest / 256) as nat, (7 - i) as nat);
        v.push((rest % 256) as u8);
        assert(v@ + tail =~= held + le_bytes(rest as nat, (8 - i) as nat));
        rest = rest / 256;
        i += 1;
    }
    assert(v@ + le_bytes(rest as nat, 0) =~= v@);
}

/// Reads the eight bytes at `at` as a 64-bit number, least significant first.
pub fn read_u64_le(buf: &[u8], at: usize) -> (x: u64)
    requires
        at + 8 <= buf@.len(),
    ensures
        x == le_value(buf@.subrange(at as int, at + 8)),
{
    let ghost field = buf@.subrange(at as int, at + 8);
    let end: usize = buf.len();
    let mut x: u64 = 0;
    let mut i: usize = 8;
    assert(field.subrange(8, 8) == Seq::<u8>::empty());
    while i > 0
        invariant
            i <= 8,
            at + 8 <= end == buf@.len(),
            field == buf@.subrange(at as int, at + 8),
            x == le_value(field.subrange(i as int, 8)),
        decreases i,
    {
        let ghost shorter = field.subrange(i - 1, 8);
        assert(shorter.subrange(1, shorter.len() as int) == field.subrange(i as int, 8));
        proof {
            lemma_u64_limit();
            le_value_writes_back(shorter);
            lemma_limit_grows(shorter.len(), 8);
        }
        i -= 1;
        assert(shorter[0] == buf@[at + i]);
        x = x * 256 + buf[at + i] as u64;
    }
    assert(field.subrange(0, 8) == field);
    x
}

proof fn lemma_limit_grows(a: nat, b: nat)
    requires
        a <= b,
    ensures
        le_limit(a) <= le_limit(b),
    decreases b,
{
    if a < b {
        lemma_limit_grows(a, (b - 1) as nat);
    }
}

// ───────────────────────────── trigger message ─────────────────────────────

/// The direction of a transfer.
#[derive(Debug, Clone, Copy, PartialEq, Eq, Structural)]
pub enum TransferMode {
    /// Server to client.
    Downlink,
    /// Client to server.
    Uplink,
}

impl Default for TransferMode {
    fn default() -> (r: Self)
        ensures
            r == TransferMode::Downlink,
    {
        TransferMode::Downlink
    }
}

/// What a complete trigger message asks for.
#[derive(Debug, Clone, Copy, PartialEq, Eq, Structural)]
pub enum TriggerDecision {
    /// The client asks for the server's statistics after a downlink run.
    StatsRequest,
    /// A transfer in the given direction, at most `bandwidth` bytes per second
    /// (0 means unlimited).
    Transfer { mode: TransferMode, bandwidth: u64 },
}

/// The length of a trigger header: the mode byte and the bandwidth.
pub const TRIGGER_LEN: usize = 9;

/// The first byte of a statistics request.
pub const STATS_REQUEST: u8 = 0xFF;

/// The decision that the trigger bytes lead to, `None` while more are needed.
///
/// A message that ends and starts with the statistics byte is a statistics
/// request. Otherwise nine bytes decide: the mode (1 for uplink), then the
/// bandwidth. A message that ends before that is an unlimited downlink.
pub open spec fn trigger_decision(buf: Seq<u8>, fin: bool) -> Option<TriggerDecision> {
    if fin && buf.len() > 0 && buf[0] == STATS_REQUEST {
        Some(TriggerDecision::StatsRequest)
    } else if buf.len() >= TRIGGER_LEN {
        Some(
            TriggerDecision::Transfer {
                mode: if buf[0] == 1 {
                    TransferMode::Uplink
                } else {
                    TransferMode::Downlink
                },
                bandwidth: le_value(buf.subrange(1, 9)) as u64,
            },
        )
    } else if fin {
        Some(TriggerDecision::Transfer { mode: TransferMode::Downlink, bandwidth: 0 })
    } else {
        None
    }
}

/// Decodes the accumulated trigger bytes, given whether the stream has ended.
/// Returns `None` while more bytes are needed.
pub fn decode_trigger_buf(buf: &[u8], fin: bool) -> (r: Option<TriggerDecision>)
    ensures
        r == trigger_decision(buf@, fin),
{
    if fin && buf.len() > 0 && buf[0] == STATS_REQUEST {
        return Some(TriggerDecision::StatsRequest);
    }
    if buf.len() >= TRIGGER_LEN {
        let mode = if buf[0] == 1 {
            TransferMode::Uplink
        } else {
            TransferMode::Downlink
        };
        Some(TriggerDecision::Transfer { mode, bandwidth: read_u64_le(buf, 1) })
    } else if fin {
        Some(TriggerDecision::Transfer { mode: TransferMode::Downlink, bandwidth: 0 })
    } else {
        None
    }
}

/// The mode byte of a direction.
pub open spec fn mode_byte(mode: TransferMode) -> u8 {
    match mode {
        TransferMode::Uplink => 1,
        TransferMode::Downlink => 0,
    }
}

/// A header made of the mode byte and the bandwidth decodes to exactly that
/// transfer, whether or not the stream has ended behind it.
pub proof fn trigger_reads_back(mode: TransferMode, bandwidth: u64, fin: bool)
    ensures
        trigger_decision(seq![mode_byte(mode)] + u64_bytes(bandwidth), fin) == Some(
            TriggerDecision::Transfer { mode, bandwidth },
        ),
{
    u64_bytes_read_back(bandwidth);
    let buf = seq![mode_byte(mode)] + u64_bytes(bandwidth);
    assert(buf.subrange(1, 9) == u64_bytes(bandwidth));
}

/// Bytes behind the nine of the header change nothing.
pub proof fn trigger_ignores_extra_bytes(header: Seq<u8>, more: Seq<u8>, fin: bool)
    requires
        header.len() >= TRIGGER_LEN,
    ensures
        trigger_decision(header + more, fin) == trigger_decision(header, fin),
{
    assert((header + more).subrange(1, 9) == header.subrange(1, 9));
}

/// Without the end of the stream, a decision comes exactly with the ninth byte,
/// and more bytes do not change it.
pub proof fn trigger_decides_once(buf: Seq<u8>, more: Seq<u8>)
    ensures
        trigger_decision(buf, false) is Some <==> buf.len() >= TRIGGER_LEN,
        trigger_decision(buf, false) is Some ==> trigger_decision(buf + more, false)
            == trigger_decision(buf, false),
{
    if buf.len() >= TRIGGER_LEN {
        trigger_ignores_extra_bytes(buf, more, false);
    }
}

/// What trigger bytes mean. A stream that ends behind a message that starts with the
/// byte 255 asks for statistics. Nine bytes ask for a transfer: an uplink where the
/// first is 1, a downlink otherwise, at the rate that the other eight say. A stream
/// that ends before its ninth byte asks for an unlimited downlink, and one that does
/// not end is waited for.
pub proof fn trigger_bytes_have_their_meaning(buf: Seq<u8>, fin: bool)
    ensures
        ({
            let asks = fin && buf.len() > 0 && buf[0] == 255;
            let d = trigger_decision(buf, fin);
            &&& d == Some(TriggerDecision::StatsRequest) <==> asks
            &&& buf.len() >= 9 && !asks ==> (d matches Some(
                TriggerDecision::Transfer { mode, bandwidth },
            ) && (mode is Uplink <==> buf[0] == 1) && bandwidth == le_value(buf.subrange(1, 9)))
            &&& buf.len() < 9 && fin && !asks ==> d == Some(
                TriggerDecision::Transfer { mode: TransferMode::Downlink, bandwidth: 0 },
            )
            &&& buf.len() < 9 && !fin ==> d is None
        }),
{
    if buf.len() >= 9 {
        lemma_u64_limit();
        le_value_writes_back(buf.subrange(1, 9));
    }
}

/// The bytes of a number run from its least to its most significant one.
pub proof fn bytes_run_from_the_least_significant(x: u64)
    ensures
        u64_bytes(x).len() == 8,
        u64_bytes(x)[0] == x % 256,
        u64_bytes(x)[1] == x / 0x100 % 256,
        u64_bytes(x)[2] == x / 0x1_0000 % 256,
        u64_bytes(x)[3] == x / 0x100_0000 % 256,
        u64_bytes(x)[4] == x / 0x1_0000_0000 % 256,
        u64_bytes(x)[5] == x / 0x100_0000_0000 % 256,
        u64_bytes(x)[6] == x / 0x1_0000_0000_0000 % 256,
        u64_bytes(x)[7] == x / 0x100_0000_0000_0000 % 256,
{
    reveal_with_fuel(le_bytes, 9);
}

// ───────────────────────────── statistics replies ─────────────────────────────

/// The sixteen bytes of two 64-bit numbers.
pub open spec fn stats_reply(first: u64, second: u64) -> Seq<u8> {
    u64_bytes(first) + u64_bytes(second)
}

/// Both numbers of a statistics reply read back, the first from bytes 0 to 7
/// and the second from bytes 8 to 15.
pub proof fn stats_reply_reads_back(first: u64, second: u64)
    ensures
        stats_reply(first, second).len() == 16,
        le_value(stats_reply(first, second).subrange(0, 8)) == first,
        le_value(stats_reply(first, second).subrange(8, 16)) == second,
{
    u64_bytes_read_back(first);
    u64_bytes_read_back(second);
    assert(stats_reply(first, second).subrange(0, 8) == u64_bytes(first));
    assert(stats_reply(first, second).subrange(8, 16) == u64_bytes(second));
}

fn to_array16(v: &Vec<u8>) -> (r: [u8; 16])
    requires
        v.len() == 16,
    ensures
        r@ == v@,
{
    let r: [u8; 16] = [
        v[0],
        v[1],
        v[2],
        v[3],
        v[4],
        v[5],
        v[6],
        v[7],
        v[8],
        v[9],
        v[10],
        v[11],
        v[12],
        v[13],
        v[14],
        v[15],
    ];
    assert(r@ =~= v@);
    r
}

fn encode_pair(first: u64, second: u64) -> (r: [u8; 16])
    ensures
        r@ == stats_reply(first, second),
{
    let mut v: Vec<u8> = Vec::new();
    push_u64_le(&mut v, first);
    push_u64_le(&mut v, second);
    assert(v@ =~= stats_reply(first, second));
    proof {
        stats_reply_reads_back(first, second);
    }
    to_array16(&v)
}

/// The reply at the end of an uplink stream.
pub open spec fn uplink_reply(jitter_bits: u64, recv_count: u64) -> Seq<u8> {
    stats_reply(jitter_bits, recv_count)
}

/// The reply to a statistics request.
pub open spec fn downlink_reply(lost_count: u64, sent_count: u64) -> Seq<u8> {
    stats_reply(lost_count, sent_count)
}

/// A client reads out of the reply at the end of an uplink stream first the jitter,
/// then the datagrams that the server received.
pub proof fn uplink_reply_reads_back(jitter_bits: u64, recv_count: u64)
    ensures
        uplink_reply(jitter_bits, recv_count).len() == 16,
        le_value(uplink_reply(jitter_bits, recv_count).subrange(0, 8)) == jitter_bits,
        le_value(uplink_reply(jitter_bits, recv_count).subrange(8, 16)) == recv_count,
{
    stats_reply_reads_back(jitter_bits, recv_count);
}

/// A client reads out of the reply to a statistics request first the lost packets,
/// then the sent ones.
pub proof fn downlink_reply_reads_back(lost_count: u64, sent_count: u64)
    ensures
        downlink_reply(lost_count, sent_count).len() == 16,
        le_value(downlink_reply(lost_count, sent_count).subrange(0, 8)) == lost_count,
        le_value(downlink_reply(lost_count, sent_count).subrange(8, 16)) == sent_count,
{
    stats_reply_reads_back(lost_count, sent_count);
}

/// The reply at the end of an uplink stream: the bits of the jitter in
/// milliseconds, then the number of datagrams that the server received.
pub fn encode_uplink_stats_reply(jitter_bits: u64, recv_count: u64) -> (r: [u8; 16])
    ensures
        r@ == uplink_reply(jitter_bits, recv_count),
{
    encode_pair(jitter_bits, recv_count)
}

/// The reply to a statistics request: the lost and the sent packets.
pub fn encode_downlink_stats_reply(lost_count: u64, sent_count: u64) -> (r: [u8; 16])
    ensures
        r@ == downlink_reply(lost_count, sent_count),
{
    encode_pair(lost_count, sent_count)
}

// ───────────────────────────── keys ─────────────────────────────

/// The bytes cut off, or filled with zeros, at the length.
pub open spec fn fitted(s: Seq<u8>, len: nat) -> Seq<u8> {
    Seq::new(
        len,
        |i: int|
            if i < s.len() {
                s[i]
            } else {
                0u8
            },
    )
}

fn fit(bytes: &[u8], len: usize) -> (v: Vec<u8>)
    ensures
        v@ == fitted(bytes@, len as nat),
{
    let mut v: Vec<u8> = Vec::new();
    let mut i: usize = 0;
    while i < len
        invariant
            i <= len,
            v@ == fitted(bytes@, len as nat).subrange(0, i as int),
        decreases len - i,
    {
        if i < bytes.len() {
            v.push(bytes[i]);
        } else {
            v.push(0);
        }
        i += 1;
        assert(v@ =~= fitted(bytes@, len as nat).subrange(0, i as int));
    }
    assert(v@ =~= fitted(bytes@, len as nat));
    v
}

/// The address-token key of the bytes.
pub open spec fn token_key(s: Seq<u8>) -> Seq<u8> {
    fitted(s, 16)
}

/// The session-ticket key of the bytes.
pub open spec fn ticket_key(s: Seq<u8>) -> Seq<u8> {
    fitted(s, 48)
}

/// An address-token key has sixteen bytes and a session-ticket key forty-eight: those
/// of the text as far as they reach, each at its place, and then zeros.
pub proof fn keys_are_cut_or_filled(s: Seq<u8>, i: int)
    requires
        0 <= i,
    ensures
        token_key(s).len() == 16,
        ticket_key(s).len() == 48,
        i < 16 && i < s.len() ==> token_key(s)[i] == s[i],
        i < 16 && i >= s.len() ==> token_key(s)[i] == 0,
        i < 48 && i < s.len() ==> ticket_key(s)[i] == s[i],
        i < 48 && i >= s.len() ==> ticket_key(s)[i] == 0,
{
}

/// The address-token key: the UTF-8 bytes of the text, cut off or filled with
/// zeros at sixteen.
pub fn convert_address_token_key(key: &str) -> (r: [u8; 16])
    ensures
        r@ == token_key(key.spec_bytes()),
{
    let v = fit(key.as_bytes(), 16);
    to_array16(&v)
}

/// The session-ticket key: the UTF-8 bytes of the text, cut off or filled with
/// zeros at forty-eight.
pub fn convert_ticket_key(key: &str) -> (r: Vec<u8>)
    ensures
        r@ == ticket_key(key.spec_bytes()),
{
    fit(key.as_bytes(), 48)
}

} // verus!
