//! What the command lines promise of each setting: where its words stand, that
//! they are its own, and that no other setting moves them.

use crate::commands::{client_command, server_command, with_each, with_flag, with_number, with_text};
use crate::models::{ClientStartRequest, ServerStartRequest};
use crate::numerals::decimal;
use crate::text::texts;
use vstd::prelude::*;

verus! {

// ───────────────────────────── words of a setting ─────────────────────────────

/// A flag directly followed by its number; nothing where there is no number.
pub open spec fn number_words(flag: Seq<char>, v: Option<u64>) -> Seq<Seq<char>> {
    match v {
        Some(n) => seq![flag, decimal(n as nat)],
        None => Seq::empty(),
    }
}

/// A flag directly followed by its text; nothing where there is no text.
pub open spec fn text_words(flag: Seq<char>, v: Option<String>) -> Seq<Seq<char>> {
    match v {
        Some(t) => seq![flag, t@],
        None => Seq::empty(),
    }
}

/// A flag alone, where it is set.
pub open spec fn flag_words(flag: Seq<char>, on: bool) -> Seq<Seq<char>> {
    if on {
        seq![flag]
    } else {
        Seq::empty()
    }
}

/// The flag in front of each text, in the order of the texts.
pub open spec fn each_words(flag: Seq<char>, vs: Seq<Seq<char>>) -> Seq<Seq<char>> {
    Seq::new(
        2 * vs.len(),
        |i: int|
            if i % 2 == 0 {
                flag
            } else {
                vs[i / 2]
            },
    )
}

/// The words with others before and behind them.
pub open spec fn around(
    before: Seq<Seq<char>>,
    words: Seq<Seq<char>>,
    behind: Seq<Seq<char>>,
) -> Seq<Seq<char>> {
    before + words + behind
}

/// Two command lines that are the same but for one place, where one holds `x` and
/// the other holds `y`.
pub open spec fn differ_in(
    one: Seq<Seq<char>>,
    other: Seq<Seq<char>>,
    x: Seq<Seq<char>>,
    y: Seq<Seq<char>>,
) -> bool {
    exists|before: Seq<Seq<char>>, behind: Seq<Seq<char>>|
        one == #[trigger] around(before, x, behind) && other == around(before, y, behind)
}

// ───────────────────────────── parts ─────────────────────────────

/// The parts from `lo` on and below `hi`, one after the other.
spec fn parts(f: spec_fn(int) -> Seq<Seq<char>>, lo: int, hi: int) -> Seq<Seq<char>>
    decreases hi - lo,
{
    if hi <= lo {
        Seq::empty()
    } else {
        parts(f, lo, hi - 1) + f(hi - 1)
    }
}

proof fn lemma_split(f: spec_fn(int) -> Seq<Seq<char>>, lo: int, k: int, hi: int)
    requires
        lo <= k < hi,
    ensures
        parts(f, lo, hi) == parts(f, lo, k) + f(k) + parts(f, k + 1, hi),
    decreases hi - k,
{
    if hi == k + 1 {
        assert(parts(f, k + 1, hi) =~= Seq::<Seq<char>>::empty());
        assert(parts(f, lo, k) + f(k) + Seq::<Seq<char>>::empty() =~= parts(f, lo, k) + f(k));
    } else {
        lemma_split(f, lo, k, hi - 1);
        assert(parts(f, k + 1, hi) == parts(f, k + 1, hi - 1) + f(hi - 1));
        assert(parts(f, lo, k) + f(k) + parts(f, k + 1, hi - 1) + f(hi - 1) =~= parts(f, lo, k) + f(
            k,
        ) + (parts(f, k + 1, hi - 1) + f(hi - 1)));
    }
}

proof fn lemma_same(
    f: spec_fn(int) -> Seq<Seq<char>>,
    g: spec_fn(int) -> Seq<Seq<char>>,
    lo: int,
    hi: int,
)
    requires
        forall|i: int| lo <= i < hi ==> #[trigger] f(i) == g(i),
    ensures
        parts(f, lo, hi) == parts(g, lo, hi),
    decreases hi - lo,
{
    if lo < hi {
        lemma_same(f, g, lo, hi - 1);
        assert(f(hi - 1) == g(hi - 1));
    }
}

proof fn lemma_place(
    f: spec_fn(int) -> Seq<Seq<char>>,
    g: spec_fn(int) -> Seq<Seq<char>>,
    k: int,
    hi: int,
)
    requires
        0 <= k < hi,
        forall|i: int| 0 <= i < hi && i != k ==> #[trigger] f(i) == g(i),
    ensures
        differ_in(parts(f, 0, hi), parts(g, 0, hi), f(k), g(k)),
{
    lemma_split(f, 0, k, hi);
    lemma_split(g, 0, k, hi);
    lemma_same(f, g, 0, k);
    lemma_same(f, g, k + 1, hi);
    assert(parts(f, 0, hi) == around(parts(f, 0, k), f(k), parts(f, k + 1, hi)));
    assert(parts(g, 0, hi) == around(parts(f, 0, k), g(k), parts(f, k + 1, hi)));
}

proof fn lemma_number(a: Seq<Seq<char>>, flag: Seq<char>, v: Option<u64>)
    ensures
        with_number(a, flag, v) == a + number_words(flag, v),
{
    reveal(with_number);
    assert(with_number(a, flag, v) =~= a + number_words(flag, v));
}

proof fn lemma_text(a: Seq<Seq<char>>, flag: Seq<char>, v: Option<String>)
    ensures
        with_text(a, flag, v) == a + text_words(flag, v),
{
    reveal(with_text);
    assert(with_text(a, flag, v) =~= a + text_words(flag, v));
}

proof fn lemma_flag(a: Seq<Seq<char>>, flag: Seq<char>, on: bool)
    ensures
        with_flag(a, flag, on) == a + flag_words(flag, on),
{
    reveal(with_flag);
    assert(with_flag(a, flag, on) =~= a + flag_words(flag, on));
}

proof fn lemma_each(a: Seq<Seq<char>>, flag: Seq<char>, vs: Seq<Seq<char>>)
    ensures
        with_each(a, flag, vs) == a + each_words(flag, vs),
    decreases vs.len(),
{
    reveal_with_fuel(with_each, 2);
    if vs.len() == 0 {
        assert(a + each_words(flag, vs) =~= a);
    } else {
        lemma_each(a, flag, vs.drop_last());
        assert((a + each_words(flag, vs.drop_last())).push(flag).push(vs.last()) =~= a + each_words(
            flag,
            vs,
        ));
    }
}

// ───────────────────────────── server ─────────────────────────────

/// The words of one setting of the server, by its place.
spec fn server_part(r: ServerStartRequest, i: int) -> Seq<Seq<char>> {
    if i == 0 {
        seq!["-c"@, r.cert@]
    } else if i == 1 {
        seq!["-k"@, r.key@]
    } else if i == 2 {
        seq!["--listen"@, r.listen@]
    } else if i == 3 {
        seq!["--congestion-control-algor"@, r.congestion_control@]
    } else if i == 4 {
        seq!["--log-level"@, r.log_level@]
    } else if i == 5 {
        number_words("--initial-congestion-window"@, r.initial_congestion_window)
    } else if i == 6 {
        number_words("--min-congestion-window"@, r.min_congestion_window)
    } else if i == 7 {
        number_words("--send-udp-payload-size"@, r.send_udp_payload_size)
    } else if i == 8 {
        number_words("--recv-udp-payload-size"@, r.recv_udp_payload_size)
    } else if i == 9 {
        number_words("--handshake-timeout"@, r.handshake_timeout)
    } else if i == 10 {
        number_words("--idle-timeout"@, r.idle_timeout)
    } else if i == 11 {
        number_words("--initial-rtt"@, r.initial_rtt)
    } else if i == 12 {
        number_words("--pto-linear-factor"@, r.pto_linear_factor)
    } else if i == 13 {
        number_words("--max-pto"@, r.max_pto)
    } else if i == 14 {
        number_words("--anti-amplification-factor"@, r.anti_amplification_factor)
    } else if i == 15 {
        number_words("--send-batch-size"@, r.send_batch_size)
    } else if i == 16 {
        number_words("--zerortt-buffer-size"@, r.zerortt_buffer_size)
    } else if i == 17 {
        flag_words("--enable-multipath"@, r.enable_multipath)
    } else if i == 18 {
        text_words("--multipath-algor"@, if r.enable_multipath {
        r.multipath_algor
    } else {
        None
    })
    } else if i == 19 {
        flag_words("--enable-retry"@, r.enable_retry)
    } else if i == 20 {
        flag_words("--disable-encryption"@, r.disable_encryption)
    } else if i == 21 {
        text_words("--keylog-file"@, r.keylog_file)
    } else if i == 22 {
        text_words("--log-file"@, r.log_file)
    } else if i == 23 {
        text_words("--qlog-dir"@, r.qlog_dir)
    } else if i == 24 {
        texts(r.extra_args@)
    } else {
        Seq::empty()
    }
}

spec fn server_parts(r: ServerStartRequest) -> spec_fn(int) -> Seq<Seq<char>> {
    |i: int| server_part(r, i)
}

#[verifier::rlimit(60)]
proof fn lemma_server_parts(r: ServerStartRequest)
    ensures
        server_command(r) == parts(server_parts(r), 0, 25),
{
    let f = server_parts(r);
    let a = seq![
        "-c"@,
        r.cert@,
        "-k"@,
        r.key@,
        "--listen"@,
        r.listen@,
        "--congestion-control-algor"@,
        r.congestion_control@,
        "--log-level"@,
        r.log_level@,
    ];
    assert(parts(f, 0, 0) =~= Seq::<Seq<char>>::empty());
    assert(parts(f, 0, 1) == parts(f, 0, 0) + f(0));
    assert(parts(f, 0, 2) == parts(f, 0, 1) + f(1));
    assert(parts(f, 0, 3) == parts(f, 0, 2) + f(2));
    assert(parts(f, 0, 4) == parts(f, 0, 3) + f(3));
    assert(parts(f, 0, 5) == parts(f, 0, 4) + f(4));
    assert(parts(f, 0, 5) =~= a);
    lemma_number(a, "--initial-congestion-window"@, r.initial_congestion_window);
    let a = with_number(a, "--initial-congestion-window"@, r.initial_congestion_window);
    assert(parts(f, 0, 6) == parts(f, 0, 5) + f(5));
    assert(parts(f, 0, 6) == a);
    lemma_number(a, "--min-congestion-window"@, r.min_congestion_window);
    let a = with_number(a, "--min-congestion-window"@, r.min_congestion_window);
    assert(parts(f, 0, 7) == parts(f, 0, 6) + f(6));
    assert(parts(f, 0, 7) == a);
    lemma_number(a, "--send-udp-payload-size"@, r.send_udp_payload_size);
    let a = with_number(a, "--send-udp-payload-size"@, r.send_udp_payload_size);
    assert(parts(f, 0, 8) == parts(f, 0, 7) + f(7));
    assert(parts(f, 0, 8) == a);
    lemma_number(a, "--recv-udp-payload-size"@, r.recv_udp_payload_size);
    let a = with_number(a, "--recv-udp-payload-size"@, r.recv_udp_payload_size);
    assert(parts(f, 0, 9) == parts(f, 0, 8) + f(8));
    assert(parts(f, 0, 9) == a);
    lemma_number(a, "--handshake-timeout"@, r.handshake_timeout);
    let a = with_number(a, "--handshake-timeout"@, r.handshake_timeout);
    assert(parts(f, 0, 10) == parts(f, 0, 9) + f(9));
    assert(parts(f, 0, 10) == a);
    lemma_number(a, "--idle-timeout"@, r.idle_timeout);
    let a = with_number(a, "--idle-timeout"@, r.idle_timeout);
    assert(parts(f, 0, 11) == parts(f, 0, 10) + f(10));
    assert(parts(f, 0, 11) == a);
    lemma_number(a, "--initial-rtt"@, r.initial_rtt);
    let a = with_number(a, "--initial-rtt"@, r.initial_rtt);
    assert(parts(f, 0, 12) == parts(f, 0, 11) + f(11));
    assert(parts(f, 0, 12) == a);
    lemma_number(a, "--pto-linear-factor"@, r.pto_linear_factor);
    let a = with_number(a, "--pto-linear-factor"@, r.pto_linear_factor);
    assert(parts(f, 0, 13) == parts(f, 0, 12) + f(12));
    assert(parts(f, 0, 13) == a);
    lemma_number(a, "--max-pto"@, r.max_pto);
    let a = with_number(a, "--max-pto"@, r.max_pto);
    assert(parts(f, 0, 14) == parts(f, 0, 13) + f(13));
    assert(parts(f, 0, 14) == a);
    lemma_number(a, "--anti-amplification-factor"@, r.anti_amplification_factor);
    let a = with_number(a, "--anti-amplification-factor"@, r.anti_amplification_factor);
    assert(parts(f, 0, 15) == parts(f, 0, 14) + f(14));
    assert(parts(f, 0, 15) == a);
    lemma_number(a, "--send-batch-size"@, r.send_batch_size);
    let a = with_number(a, "--send-batch-size"@, r.send_batch_size);
    assert(parts(f, 0, 16) == parts(f, 0, 15) + f(15));
    assert(parts(f, 0, 16) == a);
    lemma_number(a, "--zerortt-buffer-size"@, r.zerortt_buffer_size);
    let a = with_number(a, "--zerortt-buffer-size"@, r.zerortt_buffer_size);
    assert(parts(f, 0, 17) == parts(f, 0, 16) + f(16));
    assert(parts(f, 0, 17) == a);
    let b = a + flag_words("--enable-multipath"@, r.enable_multipath);
    assert(b =~= if r.enable_multipath {
        a.push("--enable-multipath"@)
    } else {
        a
    });
    let a = b;
    assert(parts(f, 0, 18) == parts(f, 0, 17) + f(17));
    assert(parts(f, 0, 18) == a);
    lemma_text(a, "--multipath-algor"@, r.multipath_algor);
    let b = a + text_words("--multipath-algor"@, if r.enable_multipath {
        r.multipath_algor
    } else {
        None
    });
    assert(b =~= if r.enable_multipath {
        with_text(a, "--multipath-algor"@, r.multipath_algor)
    } else {
        a
    });
    let a = b;
    assert(parts(f, 0, 19) == parts(f, 0, 18) + f(18));
    assert(parts(f, 0, 19) == a);
    lemma_flag(a, "--enable-retry"@, r.enable_retry);
    let a = with_flag(a, "--enable-retry"@, r.enable_retry);
    assert(parts(f, 0, 20) == parts(f, 0, 19) + f(19));
    assert(parts(f, 0, 20) == a);
    lemma_flag(a, "--disable-encryption"@, r.disable_encryption);
    let a = with_flag(a, "--disable-encryption"@, r.disable_encryption);
    assert(parts(f, 0, 21) == parts(f, 0, 20) + f(20));
    assert(parts(f, 0, 21) == a);
    lemma_text(a, "--keylog-file"@, r.keylog_file);
    let a = with_text(a, "--keylog-file"@, r.keylog_file);
    assert(parts(f, 0, 22) == parts(f, 0, 21) + f(21));
    assert(parts(f, 0, 22) == a);
    lemma_text(a, "--log-file"@, r.log_file);
    let a = with_text(a, "--log-file"@, r.log_file);
    assert(parts(f, 0, 23) == parts(f, 0, 22) + f(22));
    assert(parts(f, 0, 23) == a);
    lemma_text(a, "--qlog-dir"@, r.qlog_dir);
    let a = with_text(a, "--qlog-dir"@, r.qlog_dir);
    assert(parts(f, 0, 24) == parts(f, 0, 23) + f(23));
    assert(parts(f, 0, 24) == a);
    let a = a + texts(r.extra_args@);
    assert(parts(f, 0, 25) == parts(f, 0, 24) + f(24));
    assert(parts(f, 0, 25) == a);
}

proof fn lemma_server_place(r: ServerStartRequest, s: ServerStartRequest, k: int)
    requires
        0 <= k < 25,
        forall|i: int| 0 <= i < 25 && i != k ==> #[trigger] server_part(r, i) == server_part(s, i),
    ensures
        differ_in(server_command(r), server_command(s), server_part(r, k), server_part(s, k)),
{
    lemma_server_parts(r);
    lemma_server_parts(s);
    let f = server_parts(r);
    let g = server_parts(s);
    assert forall|i: int| 0 <= i < 25 && i != k implies #[trigger] f(i) == g(i) by {
        assert(server_part(r, i) == server_part(s, i));
    }
    lemma_place(f, g, k, 25);
}

/// Each required text of the server stands directly behind its own flag, and
/// nowhere else: changing one changes exactly that word.
pub proof fn server_requirements_have_their_own_words(r: ServerStartRequest, s: String)
    ensures
        differ_in(
            server_command(r),
            server_command((ServerStartRequest { cert: s, ..r })),
            seq!["-c"@, r.cert@],
            seq!["-c"@, s@],
        ),
        differ_in(
            server_command(r),
            server_command((ServerStartRequest { key: s, ..r })),
            seq!["-k"@, r.key@],
            seq!["-k"@, s@],
        ),
        differ_in(
            server_command(r),
            server_command((ServerStartRequest { listen: s, ..r })),
            seq!["--listen"@, r.listen@],
            seq!["--listen"@, s@],
        ),
        differ_in(
            server_command(r),
            server_command((ServerStartRequest { congestion_control: s, ..r })),
            seq!["--congestion-control-algor"@, r.congestion_control@],
            seq!["--congestion-control-algor"@, s@],
        ),
        differ_in(
            server_command(r),
            server_command((ServerStartRequest { log_level: s, ..r })),
            seq!["--log-level"@, r.log_level@],
            seq!["--log-level"@, s@],
        ),
{
    lemma_server_place(r, ServerStartRequest { cert: s, ..r }, 0);
    lemma_server_place(r, ServerStartRequest { key: s, ..r }, 1);
    lemma_server_place(r, ServerStartRequest { listen: s, ..r }, 2);
    lemma_server_place(r, ServerStartRequest { congestion_control: s, ..r }, 3);
    lemma_server_place(r, ServerStartRequest { log_level: s, ..r }, 4);
}

/// Each number that the server can be given has its flag exactly where the number is
/// given, directly followed by that number: changing one changes exactly its own words.
pub proof fn server_numbers_have_their_own_words(r: ServerStartRequest, v: Option<u64>)
    ensures
        differ_in(
            server_command(r),
            server_command((ServerStartRequest { initial_congestion_window: v, ..r })),
            number_words("--initial-congestion-window"@, r.initial_congestion_window),
            number_words("--initial-congestion-window"@, v),
        ),
        differ_in(
            server_command(r),
            server_command((ServerStartRequest { min_congestion_window: v, ..r })),
            number_words("--min-congestion-window"@, r.min_congestion_window),
            number_words("--min-congestion-window"@, v),
        ),
        differ_in(
            server_command(r),
            server_command((ServerStartRequest { send_udp_payload_size: v, ..r })),
            number_words("--send-udp-payload-size"@, r.send_udp_payload_size),
            number_words("--send-udp-payload-size"@, v),
        ),
        differ_in(
            server_command(r),
            server_command((ServerStartRequest { recv_udp_payload_size: v, ..r })),
            number_words("--recv-udp-payload-size"@, r.recv_udp_payload_size),
            number_words("--recv-udp-payload-size"@, v),
        ),
        differ_in(
            server_command(r),
            server_command((ServerStartRequest { handshake_timeout: v, ..r })),
            number_words("--handshake-timeout"@, r.handshake_timeout),
            number_words("--handshake-timeout"@, v),
        ),
        differ_in(
            server_command(r),
            server_command((ServerStartRequest { idle_timeout: v, ..r })),
            number_words("--idle-timeout"@, r.idle_timeout),
            number_words("--idle-timeout"@, v),
        ),
        differ_in(
            server_command(r),
            server_command((ServerStartRequest { initial_rtt: v, ..r })),
            number_words("--initial-rtt"@, r.initial_rtt),
            number_words("--initial-rtt"@, v),
        ),
        differ_in(
            server_command(r),
            server_command((ServerStartRequest { pto_linear_factor: v, ..r })),
            number_words("--pto-linear-factor"@, r.pto_linear_factor),
            number_words("--pto-linear-factor"@, v),
        ),
        differ_in(
            server_command(r),
            server_command((ServerStartRequest { max_pto: v, ..r })),
            number_words("--max-pto"@, r.max_pto),
            number_words("--max-pto"@, v),
        ),
        differ_in(
            server_command(r),
            server_command((ServerStartRequest { anti_amplification_factor: v, ..r })),
            number_words("--anti-amplification-factor"@, r.anti_amplification_factor),
            number_words("--anti-amplification-factor"@, v),
        ),
        differ_in(
            server_command(r),
            server_command((ServerStartRequest { send_batch_size: v, ..r })),
            number_words("--send-batch-size"@, r.send_batch_size),
            number_words("--send-batch-size"@, v),
        ),
        differ_in(
            server_command(r),
            server_command((ServerStartRequest { zerortt_buffer_size: v, ..r })),
            number_words("--zerortt-buffer-size"@, r.zerortt_buffer_size),
            number_words("--zerortt-buffer-size"@, v),
        ),
{
    lemma_server_place(r, ServerStartRequest { initial_congestion_window: v, ..r }, 5);
    lemma_server_place(r, ServerStartRequest { min_congestion_window: v, ..r }, 6);
    lemma_server_place(r, ServerStartRequest { send_udp_payload_size: v, ..r }, 7);
    lemma_server_place(r, ServerStartRequest { recv_udp_payload_size: v, ..r }, 8);
    lemma_server_place(r, ServerStartRequest { handshake_timeout: v, ..r }, 9);
    lemma_server_place(r, ServerStartRequest { idle_timeout: v, ..r }, 10);
    lemma_server_place(r, ServerStartRequest { initial_rtt: v, ..r }, 11);
    lemma_server_place(r, ServerStartRequest { pto_linear_factor: v, ..r }, 12);
    lemma_server_place(r, ServerStartRequest { max_pto: v, ..r }, 13);
    lemma_server_place(r, ServerStartRequest { anti_amplification_factor: v, ..r }, 14);
    lemma_server_place(r, ServerStartRequest { send_batch_size: v, ..r }, 15);
    lemma_server_place(r, ServerStartRequest { zerortt_buffer_size: v, ..r }, 16);
}

/// Each text that the server can be given has its flag exactly where the text is
/// given, directly followed by that text: changing one changes exactly its own words.
pub proof fn server_texts_have_their_own_words(r: ServerStartRequest, t: Option<String>)
    ensures
        differ_in(
            server_command(r),
            server_command((ServerStartRequest { keylog_file: t, ..r })),
            text_words("--keylog-file"@, r.keylog_file),
            text_words("--keylog-file"@, t),
        ),
        differ_in(
            server_command(r),
            server_command((ServerStartRequest { log_file: t, ..r })),
            text_words("--log-file"@, r.log_file),
            text_words("--log-file"@, t),
        ),
        differ_in(
            server_command(r),
            server_command((ServerStartRequest { qlog_dir: t, ..r })),
            text_words("--qlog-dir"@, r.qlog_dir),
            text_words("--qlog-dir"@, t),
        ),
{
    lemma_server_place(r, ServerStartRequest { keylog_file: t, ..r }, 21);
    lemma_server_place(r, ServerStartRequest { log_file: t, ..r }, 22);
    lemma_server_place(r, ServerStartRequest { qlog_dir: t, ..r }, 23);
}

/// Each switch of the server has its flag exactly where it is on.
pub proof fn server_switches_have_their_own_words(r: ServerStartRequest, on: bool)
    ensures
        differ_in(
            server_command(r),
            server_command((ServerStartRequest { enable_retry: on, ..r })),
            flag_words("--enable-retry"@, r.enable_retry),
            flag_words("--enable-retry"@, on),
        ),
        differ_in(
            server_command(r),
            server_command((ServerStartRequest { disable_encryption: on, ..r })),
            flag_words("--disable-encryption"@, r.disable_encryption),
            flag_words("--disable-encryption"@, on),
        ),
{
    lemma_server_place(r, ServerStartRequest { enable_retry: on, ..r }, 19);
    lemma_server_place(r, ServerStartRequest { disable_encryption: on, ..r }, 20);
}

/// With multipath on, each of its settings has its flag exactly where it is given,
/// directly followed by its own text.
pub proof fn server_multipath_settings_have_their_own_words(
    r: ServerStartRequest,
    t: Option<String>,
)
    requires
        r.enable_multipath,
    ensures
        differ_in(
            server_command(r),
            server_command((ServerStartRequest { multipath_algor: t, ..r })),
            text_words("--multipath-algor"@, r.multipath_algor),
            text_words("--multipath-algor"@, t),
        ),
{
    lemma_server_place(r, ServerStartRequest { multipath_algor: t, ..r }, 18);
}

/// A list of the server gives one entry after the other, in order, as it is.
pub proof fn server_lists_have_their_own_words(r: ServerStartRequest, vs: Vec<String>)
    ensures
        differ_in(
            server_command(r),
            server_command((ServerStartRequest { extra_args: vs, ..r })),
            texts(r.extra_args@),
            texts(vs@),
        ),
{
    lemma_server_place(r, ServerStartRequest { extra_args: vs, ..r }, 24);
}

/// Multipath adds its flag, and what it is set to only then: with multipath off, the
/// flag is gone and its settings change nothing.
pub proof fn server_multipath_switches_its_settings(r: ServerStartRequest, t: Option<String>)
    ensures
        differ_in(
            server_command((ServerStartRequest { enable_multipath: false, ..r })),
            server_command((ServerStartRequest {
                enable_multipath: true,
                multipath_algor: None,
                ..r
            })),
            Seq::empty(),
            seq!["--enable-multipath"@],
        ),
        !r.enable_multipath ==> server_command((ServerStartRequest { multipath_algor: t, ..r }))
            == server_command(r),
{
    lemma_server_place(
        ServerStartRequest { enable_multipath: false, ..r },
        ServerStartRequest { enable_multipath: true, multipath_algor: None, ..r },
        17,
    );
    if !r.enable_multipath {
        lemma_server_unchanged(r, ServerStartRequest { multipath_algor: t, ..r });
    }
}

proof fn lemma_server_unchanged(r: ServerStartRequest, s: ServerStartRequest)
    requires
        forall|i: int| 0 <= i < 25 ==> #[trigger] server_part(r, i) == server_part(s, i),
    ensures
        server_command(r) == server_command(s),
{
    lemma_server_parts(r);
    lemma_server_parts(s);
    let f = server_parts(r);
    let g = server_parts(s);
    assert forall|i: int| 0 <= i < 25 implies #[trigger] f(i) == g(i) by {
        assert(server_part(r, i) == server_part(s, i));
    }
    lemma_same(f, g, 0, 25);
}

/// The working directory is no word of the command line.
pub proof fn server_work_dir_is_not_passed(r: ServerStartRequest, w: Option<String>)
    ensures
        server_command((ServerStartRequest { work_dir: w, ..r })) == server_command(r),
{
    lemma_server_unchanged(r, ServerStartRequest { work_dir: w, ..r });
}

/// Where nothing but what is required is given, the command line of the server holds
/// nothing else.
#[verifier::rlimit(40)]
pub proof fn server_command_holds_no_more(r: ServerStartRequest)
    requires
        r.initial_congestion_window is None,
        r.min_congestion_window is None,
        r.send_udp_payload_size is None,
        r.recv_udp_payload_size is None,
        r.handshake_timeout is None,
        r.idle_timeout is None,
        r.initial_rtt is None,
        r.pto_linear_factor is None,
        r.max_pto is None,
        r.anti_amplification_factor is None,
        r.send_batch_size is None,
        r.zerortt_buffer_size is None,
        !r.enable_multipath,
        !r.enable_retry,
        !r.disable_encryption,
        r.keylog_file is None,
        r.log_file is None,
        r.qlog_dir is None,
        r.extra_args@.len() == 0,
    ensures
        server_command(r) == seq![
            "-c"@,
            r.cert@,
            "-k"@,
            r.key@,
            "--listen"@,
            r.listen@,
            "--congestion-control-algor"@,
            r.congestion_control@,
            "--log-level"@,
            r.log_level@,
        ],
{
    lemma_server_parts(r);
    let f = server_parts(r);
    assert(parts(f, 0, 0) =~= Seq::<Seq<char>>::empty());
    let a = seq![
        "-c"@,
        r.cert@,
        "-k"@,
        r.key@,
        "--listen"@,
        r.listen@,
        "--congestion-control-algor"@,
        r.congestion_control@,
        "--log-level"@,
        r.log_level@,
    ];
    assert(parts(f, 0, 1) == parts(f, 0, 0) + f(0));
    assert(parts(f, 0, 2) == parts(f, 0, 1) + f(1));
    assert(parts(f, 0, 3) == parts(f, 0, 2) + f(2));
    assert(parts(f, 0, 4) == parts(f, 0, 3) + f(3));
    assert(parts(f, 0, 5) == parts(f, 0, 4) + f(4));
    assert(parts(f, 0, 5) =~= a);
    assert(parts(f, 0, 6) == parts(f, 0, 5) + f(5));
    assert(parts(f, 0, 6) =~= a);
    assert(parts(f, 0, 7) == parts(f, 0, 6) + f(6));
    assert(parts(f, 0, 7) =~= a);
    assert(parts(f, 0, 8) == parts(f, 0, 7) + f(7));
    assert(parts(f, 0, 8) =~= a);
    assert(parts(f, 0, 9) == parts(f, 0, 8) + f(8));
    assert(parts(f, 0, 9) =~= a);
    assert(parts(f, 0, 10) == parts(f, 0, 9) + f(9));
    assert(parts(f, 0, 10) =~= a);
    assert(parts(f, 0, 11) == parts(f, 0, 10) + f(10));
    assert(parts(f, 0, 11) =~= a);
    assert(parts(f, 0, 12) == parts(f, 0, 11) + f(11));
    assert(parts(f, 0, 12) =~= a);
    assert(parts(f, 0, 13) == parts(f, 0, 12) + f(12));
    assert(parts(f, 0, 13) =~= a);
    assert(parts(f, 0, 14) == parts(f, 0, 13) + f(13));
    assert(parts(f, 0, 14) =~= a);
    assert(parts(f, 0, 15) == parts(f, 0, 14) + f(14));
    assert(parts(f, 0, 15) =~= a);
    assert(parts(f, 0, 16) == parts(f, 0, 15) + f(15));
    assert(parts(f, 0, 16) =~= a);
    assert(parts(f, 0, 17) == parts(f, 0, 16) + f(16));
    assert(parts(f, 0, 17) =~= a);
    assert(parts(f, 0, 18) == parts(f, 0, 17) + f(17));
    assert(parts(f, 0, 18) =~= a);
    assert(parts(f, 0, 19) == parts(f, 0, 18) + f(18));
    assert(parts(f, 0, 19) =~= a);
    assert(parts(f, 0, 20) == parts(f, 0, 19) + f(19));
    assert(parts(f, 0, 20) =~= a);
    assert(parts(f, 0, 21) == parts(f, 0, 20) + f(20));
    assert(parts(f, 0, 21) =~= a);
    assert(parts(f, 0, 22) == parts(f, 0, 21) + f(21));
    assert(parts(f, 0, 22) =~= a);
    assert(parts(f, 0, 23) == parts(f, 0, 22) + f(22));
    assert(parts(f, 0, 23) =~= a);
    assert(parts(f, 0, 24) == parts(f, 0, 23) + f(23));
    assert(parts(f, 0, 24) =~= a);
    assert(parts(f, 0, 25) == parts(f, 0, 24) + f(24));
    assert(parts(f, 0, 25) =~= a);
}

// ───────────────────────────── client ─────────────────────────────

/// The handshake timeout behind its flag, 10000 milliseconds where none is given.
pub open spec fn timeout_words(v: Option<u64>) -> Seq<Seq<char>> {
    match v {
        Some(t) => seq!["--handshake-timeout"@, decimal(t as nat)],
        None => seq!["--handshake-timeout"@, decimal(10000)],
    }
}

/// The words of one setting of the client, by its place.
spec fn client_part(r: ClientStartRequest, i: int) -> Seq<Seq<char>> {
    if i == 0 {
        seq!["--connect-to"@, r.connect_to@]
    } else if i == 1 {
        seq!["--congestion-control-algor"@, r.congestion_control@]
    } else if i == 2 {
        seq!["--log-level"@, r.log_level@]
    } else if i == 3 {
        seq!["--mode"@, r.mode@]
    } else if i == 4 {
        each_words("--local-addresses"@, texts(r.local_addresses@))
    } else if i == 5 {
        number_words("--duration"@, r.duration)
    } else if i == 6 {
        number_words("--streams-per-conn"@, r.streams_per_conn)
    } else if i == 7 {
        text_words("--bandwidth"@, r.bandwidth)
    } else if i == 8 {
        number_words("--threads"@, r.threads)
    } else if i == 9 {
        number_words("--max-concurrent-conns"@, r.max_concurrent_conns)
    } else if i == 10 {
        number_words("--max-concurrent-requests"@, r.max_concurrent_requests)
    } else if i == 11 {
        number_words("--initial-congestion-window"@, r.initial_congestion_window)
    } else if i == 12 {
        number_words("--min-congestion-window"@, r.min_congestion_window)
    } else if i == 13 {
        number_words("--send-udp-payload-size"@, r.send_udp_payload_size)
    } else if i == 14 {
        number_words("--recv-udp-payload-size"@, r.recv_udp_payload_size)
    } else if i == 15 {
        timeout_words(r.handshake_timeout)
    } else if i == 16 {
        number_words("--idle-timeout"@, r.idle_timeout)
    } else if i == 17 {
        number_words("--initial-rtt"@, r.initial_rtt)
    } else if i == 18 {
        number_words("--pto-linear-factor"@, r.pto_linear_factor)
    } else if i == 19 {
        number_words("--max-pto"@, r.max_pto)
    } else if i == 20 {
        number_words("--send-batch-size"@, r.send_batch_size)
    } else if i == 21 {
        flag_words("--enable-multipath"@, r.enable_multipath)
    } else if i == 22 {
        text_words("--multipath-algor"@, if r.enable_multipath {
        r.multipath_algor
    } else {
        None
    })
    } else if i == 23 {
        text_words("--linucb-alpha"@, if r.enable_multipath {
        r.linucb_alpha
    } else {
        None
    })
    } else if i == 24 {
        flag_words("--disable-encryption"@, r.disable_encryption)
    } else if i == 25 {
        text_words("--keylog-file"@, r.keylog_file)
    } else if i == 26 {
        text_words("--log-file"@, r.log_file)
    } else if i == 27 {
        text_words("--qlog-dir"@, r.qlog_dir)
    } else if i == 28 {
        texts(r.extra_args@)
    } else {
        Seq::empty()
    }
}

spec fn client_parts(r: ClientStartRequest) -> spec_fn(int) -> Seq<Seq<char>> {
    |i: int| client_part(r, i)
}

#[verifier::rlimit(60)]
proof fn lemma_client_parts(r: ClientStartRequest)
    ensures
        client_command(r) == parts(client_parts(r), 0, 29),
{
    let f = client_parts(r);
    let a = seq![
        "--connect-to"@,
        r.connect_to@,
        "--congestion-control-algor"@,
        r.congestion_control@,
        "--log-level"@,
        r.log_level@,
        "--mode"@,
        r.mode@,
    ];
    assert(parts(f, 0, 0) =~= Seq::<Seq<char>>::empty());
    assert(parts(f, 0, 1) == parts(f, 0, 0) + f(0));
    assert(parts(f, 0, 2) == parts(f, 0, 1) + f(1));
    assert(parts(f, 0, 3) == parts(f, 0, 2) + f(2));
    assert(parts(f, 0, 4) == parts(f, 0, 3) + f(3));
    assert(parts(f, 0, 4) =~= a);
    lemma_each(a, "--local-addresses"@, texts(r.local_addresses@));
    let a = with_each(a, "--local-addresses"@, texts(r.local_addresses@));
    assert(parts(f, 0, 5) == parts(f, 0, 4) + f(4));
    assert(parts(f, 0, 5) == a);
    lemma_number(a, "--duration"@, r.duration);
    let a = with_number(a, "--duration"@, r.duration);
    assert(parts(f, 0, 6) == parts(f, 0, 5) + f(5));
    assert(parts(f, 0, 6) == a);
    lemma_number(a, "--streams-per-conn"@, r.streams_per_conn);
    let a = with_number(a, "--streams-per-conn"@, r.streams_per_conn);
    assert(parts(f, 0, 7) == parts(f, 0, 6) + f(6));
    assert(parts(f, 0, 7) == a);
    lemma_text(a, "--bandwidth"@, r.bandwidth);
    let a = with_text(a, "--bandwidth"@, r.bandwidth);
    assert(parts(f, 0, 8) == parts(f, 0, 7) + f(7));
    assert(parts(f, 0, 8) == a);
    lemma_number(a, "--threads"@, r.threads);
    let a = with_number(a, "--threads"@, r.threads);
    assert(parts(f, 0, 9) == parts(f, 0, 8) + f(8));
    assert(parts(f, 0, 9) == a);
    lemma_number(a, "--max-concurrent-conns"@, r.max_concurrent_conns);
    let a = with_number(a, "--max-concurrent-conns"@, r.max_concurrent_conns);
    assert(parts(f, 0, 10) == parts(f, 0, 9) + f(9));
    assert(parts(f, 0, 10) == a);
    lemma_number(a, "--max-concurrent-requests"@, r.max_concurrent_requests);
    let a = with_number(a, "--max-concurrent-requests"@, r.max_concurrent_requests);
    assert(parts(f, 0, 11) == parts(f, 0, 10) + f(10));
    assert(parts(f, 0, 11) == a);
    lemma_number(a, "--initial-congestion-window"@, r.initial_congestion_window);
    let a = with_number(a, "--initial-congestion-window"@, r.initial_congestion_window);
    assert(parts(f, 0, 12) == parts(f, 0, 11) + f(11));
    assert(parts(f, 0, 12) == a);
    lemma_number(a, "--min-congestion-window"@, r.min_congestion_window);
    let a = with_number(a, "--min-congestion-window"@, r.min_congestion_window);
    assert(parts(f, 0, 13) == parts(f, 0, 12) + f(12));
    assert(parts(f, 0, 13) == a);
    lemma_number(a, "--send-udp-payload-size"@, r.send_udp_payload_size);
    let a = with_number(a, "--send-udp-payload-size"@, r.send_udp_payload_size);
    assert(parts(f, 0, 14) == parts(f, 0, 13) + f(13));
    assert(parts(f, 0, 14) == a);
    lemma_number(a, "--recv-udp-payload-size"@, r.recv_udp_payload_size);
    let a = with_number(a, "--recv-udp-payload-size"@, r.recv_udp_payload_size);
    assert(parts(f, 0, 15) == parts(f, 0, 14) + f(14));
    assert(parts(f, 0, 15) == a);
    let t = Some(match r.handshake_timeout {
        Some(t) => t,
        None => 10000u64,
    });
    lemma_number(a, "--handshake-timeout"@, t);
    let a = with_number(a, "--handshake-timeout"@, t);
    assert(parts(f, 0, 16) == parts(f, 0, 15) + f(15));
    assert(parts(f, 0, 16) == a);
    lemma_number(a, "--idle-timeout"@, r.idle_timeout);
    let a = with_number(a, "--idle-timeout"@, r.idle_timeout);
    assert(parts(f, 0, 17) == parts(f, 0, 16) + f(16));
    assert(parts(f, 0, 17) == a);
    lemma_number(a, "--initial-rtt"@, r.initial_rtt);
    let a = with_number(a, "--initial-rtt"@, r.initial_rtt);
    assert(parts(f, 0, 18) == parts(f, 0, 17) + f(17));
    assert(parts(f, 0, 18) == a);
    lemma_number(a, "--pto-linear-factor"@, r.pto_linear_factor);
    let a = with_number(a, "--pto-linear-factor"@, r.pto_linear_factor);
    assert(parts(f, 0, 19) == parts(f, 0, 18) + f(18));
    assert(parts(f, 0, 19) == a);
    lemma_number(a, "--max-pto"@, r.max_pto);
    let a = with_number(a, "--max-pto"@, r.max_pto);
    assert(parts(f, 0, 20) == parts(f, 0, 19) + f(19));
    assert(parts(f, 0, 20) == a);
    lemma_number(a, "--send-batch-size"@, r.send_batch_size);
    let a = with_number(a, "--send-batch-size"@, r.send_batch_size);
    assert(parts(f, 0, 21) == parts(f, 0, 20) + f(20));
    assert(parts(f, 0, 21) == a);
    let b = a + flag_words("--enable-multipath"@, r.enable_multipath);
    assert(b =~= if r.enable_multipath {
        a.push("--enable-multipath"@)
    } else {
        a
    });
    let a = b;
    assert(parts(f, 0, 22) == parts(f, 0, 21) + f(21));
    assert(parts(f, 0, 22) == a);
    lemma_text(a, "--multipath-algor"@, r.multipath_algor);
    let b = a + text_words("--multipath-algor"@, if r.enable_multipath {
        r.multipath_algor
    } else {
        None
    });
    assert(b =~= if r.enable_multipath {
        with_text(a, "--multipath-algor"@, r.multipath_algor)
    } else {
        a
    });
    let a = b;
    assert(parts(f, 0, 23) == parts(f, 0, 22) + f(22));
    assert(parts(f, 0, 23) == a);
    lemma_text(a, "--linucb-alpha"@, r.linucb_alpha);
    let b = a + text_words("--linucb-alpha"@, if r.enable_multipath {
        r.linucb_alpha
    } else {
        None
    });
    assert(b =~= if r.enable_multipath {
        with_text(a, "--linucb-alpha"@, r.linucb_alpha)
    } else {
        a
    });
    let a = b;
    assert(parts(f, 0, 24) == parts(f, 0, 23) + f(23));
    assert(parts(f, 0, 24) == a);
    lemma_flag(a, "--disable-encryption"@, r.disable_encryption);
    let a = with_flag(a, "--disable-encryption"@, r.disable_encryption);
    assert(parts(f, 0, 25) == parts(f, 0, 24) + f(24));
    assert(parts(f, 0, 25) == a);
    lemma_text(a, "--keylog-file"@, r.keylog_file);
    let a = with_text(a, "--keylog-file"@, r.keylog_file);
    assert(parts(f, 0, 26) == parts(f, 0, 25) + f(25));
    assert(parts(f, 0, 26) == a);
    lemma_text(a, "--log-file"@, r.log_file);
    let a = with_text(a, "--log-file"@, r.log_file);
    assert(parts(f, 0, 27) == parts(f, 0, 26) + f(26));
    assert(parts(f, 0, 27) == a);
    lemma_text(a, "--qlog-dir"@, r.qlog_dir);
    let a = with_text(a, "--qlog-dir"@, r.qlog_dir);
    assert(parts(f, 0, 28) == parts(f, 0, 27) + f(27));
    assert(parts(f, 0, 28) == a);
    let a = a + texts(r.extra_args@);
    assert(parts(f, 0, 29) == parts(f, 0, 28) + f(28));
    assert(parts(f, 0, 29) == a);
}

proof fn lemma_client_place(r: ClientStartRequest, s: ClientStartRequest, k: int)
    requires
        0 <= k < 29,
        forall|i: int| 0 <= i < 29 && i != k ==> #[trigger] client_part(r, i) == client_part(s, i),
    ensures
        differ_in(client_command(r), client_command(s), client_part(r, k), client_part(s, k)),
{
    lemma_client_parts(r);
    lemma_client_parts(s);
    let f = client_parts(r);
    let g = client_parts(s);
    assert forall|i: int| 0 <= i < 29 && i != k implies #[trigger] f(i) == g(i) by {
        assert(client_part(r, i) == client_part(s, i));
    }
    lemma_place(f, g, k, 29);
}

/// Each required text of the client stands directly behind its own flag, and
/// nowhere else: changing one changes exactly that word.
pub proof fn client_requirements_have_their_own_words(r: ClientStartRequest, s: String)
    ensures
        differ_in(
            client_command(r),
            client_command((ClientStartRequest { connect_to: s, ..r })),
            seq!["--connect-to"@, r.connect_to@],
            seq!["--connect-to"@, s@],
        ),
        differ_in(
            client_command(r),
            client_command((ClientStartRequest { congestion_control: s, ..r })),
            seq!["--congestion-control-algor"@, r.congestion_control@],
            seq!["--congestion-control-algor"@, s@],
        ),
        differ_in(
            client_command(r),
            client_command((ClientStartRequest { log_level: s, ..r })),
            seq!["--log-level"@, r.log_level@],
            seq!["--log-level"@, s@],
        ),
        differ_in(
            client_command(r),
            client_command((ClientStartRequest { mode: s, ..r })),
            seq!["--mode"@, r.mode@],
            seq!["--mode"@, s@],
        ),
{
    lemma_client_place(r, ClientStartRequest { connect_to: s, ..r }, 0);
    lemma_client_place(r, ClientStartRequest { congestion_control: s, ..r }, 1);
    lemma_client_place(r, ClientStartRequest { log_level: s, ..r }, 2);
    lemma_client_place(r, ClientStartRequest { mode: s, ..r }, 3);
}

/// Each number that the client can be given has its flag exactly where the number is
/// given, directly followed by that number: changing one changes exactly its own words.
pub proof fn client_numbers_have_their_own_words(r: ClientStartRequest, v: Option<u64>)
    ensures
        differ_in(
            client_command(r),
            client_command((ClientStartRequest { duration: v, ..r })),
            number_words("--duration"@, r.duration),
            number_words("--duration"@, v),
        ),
        differ_in(
            client_command(r),
            client_command((ClientStartRequest { streams_per_conn: v, ..r })),
            number_words("--streams-per-conn"@, r.streams_per_conn),
            number_words("--streams-per-conn"@, v),
        ),
        differ_in(
            client_command(r),
            client_command((ClientStartRequest { threads: v, ..r })),
            number_words("--threads"@, r.threads),
            number_words("--threads"@, v),
        ),
        differ_in(
            client_command(r),
            client_command((ClientStartRequest { max_concurrent_conns: v, ..r })),
            number_words("--max-concurrent-conns"@, r.max_concurrent_conns),
            number_words("--max-concurrent-conns"@, v),
        ),
        differ_in(
            client_command(r),
            client_command((ClientStartRequest { max_concurrent_requests: v, ..r })),
            number_words("--max-concurrent-requests"@, r.max_concurrent_requests),
            number_words("--max-concurrent-requests"@, v),
        ),
        differ_in(
            client_command(r),
            client_command((ClientStartRequest { initial_congestion_window: v, ..r })),
            number_words("--initial-congestion-window"@, r.initial_congestion_window),
            number_words("--initial-congestion-window"@, v),
        ),
        differ_in(
            client_command(r),
            client_command((ClientStartRequest { min_congestion_window: v, ..r })),
            number_words("--min-congestion-window"@, r.min_congestion_window),
            number_words("--min-congestion-window"@, v),
        ),
        differ_in(
            client_command(r),
            client_command((ClientStartRequest { send_udp_payload_size: v, ..r })),
            number_words("--send-udp-payload-size"@, r.send_udp_payload_size),
            number_words("--send-udp-payload-size"@, v),
        ),
        differ_in(
            client_command(r),
            client_command((ClientStartRequest { recv_udp_payload_size: v, ..r })),
            number_words("--recv-udp-payload-size"@, r.recv_udp_payload_size),
            number_words("--recv-udp-payload-size"@, v),
        ),
        differ_in(
            client_command(r),
            client_command((ClientStartRequest { idle_timeout: v, ..r })),
            number_words("--idle-timeout"@, r.idle_timeout),
            number_words("--idle-timeout"@, v),
        ),
        differ_in(
            client_command(r),
            client_command((ClientStartRequest { initial_rtt: v, ..r })),
            number_words("--initial-rtt"@, r.initial_rtt),
            number_words("--initial-rtt"@, v),
        ),
        differ_in(
            client_command(r),
            client_command((ClientStartRequest { pto_linear_factor: v, ..r })),
            number_words("--pto-linear-factor"@, r.pto_linear_factor),
            number_words("--pto-linear-factor"@, v),
        ),
        differ_in(
            client_command(r),
            client_command((ClientStartRequest { max_pto: v, ..r })),
            number_words("--max-pto"@, r.max_pto),
            number_words("--max-pto"@, v),
        ),
        differ_in(
            client_command(r),
            client_command((ClientStartRequest { send_batch_size: v, ..r })),
            number_words("--send-batch-size"@, r.send_batch_size),
            number_words("--send-batch-size"@, v),
        ),
{
    lemma_client_place(r, ClientStartRequest { duration: v, ..r }, 5);
    lemma_client_place(r, ClientStartRequest { streams_per_conn: v, ..r }, 6);
    lemma_client_place(r, ClientStartRequest { threads: v, ..r }, 8);
    lemma_client_place(r, ClientStartRequest { max_concurrent_conns: v, ..r }, 9);
    lemma_client_place(r, ClientStartRequest { max_concurrent_requests: v, ..r }, 10);
    lemma_client_place(r, ClientStartRequest { initial_congestion_window: v, ..r }, 11);
    lemma_client_place(r, ClientStartRequest { min_congestion_window: v, ..r }, 12);
    lemma_client_place(r, ClientStartRequest { send_udp_payload_size: v, ..r }, 13);
    lemma_client_place(r, ClientStartRequest { recv_udp_payload_size: v, ..r }, 14);
    lemma_client_place(r, ClientStartRequest { idle_timeout: v, ..r }, 16);
    lemma_client_place(r, ClientStartRequest { initial_rtt: v, ..r }, 17);
    lemma_client_place(r, ClientStartRequest { pto_linear_factor: v, ..r }, 18);
    lemma_client_place(r, ClientStartRequest { max_pto: v, ..r }, 19);
    lemma_client_place(r, ClientStartRequest { send_batch_size: v, ..r }, 20);
}

/// The handshake timeout of the client is always there: the one that is given, or
/// 10000 milliseconds.
pub proof fn client_handshake_timeout_has_its_own_words(r: ClientStartRequest, v: Option<u64>)
    ensures
        differ_in(
            client_command(r),
            client_command((ClientStartRequest { handshake_timeout: v, ..r })),
            timeout_words(r.handshake_timeout),
            timeout_words(v),
        ),
{
    lemma_client_place(r, ClientStartRequest { handshake_timeout: v, ..r }, 15);
}

/// Each text that the client can be given has its flag exactly where the text is
/// given, directly followed by that text: changing one changes exactly its own words.
pub proof fn client_texts_have_their_own_words(r: ClientStartRequest, t: Option<String>)
    ensures
        differ_in(
            client_command(r),
            client_command((ClientStartRequest { bandwidth: t, ..r })),
            text_words("--bandwidth"@, r.bandwidth),
            text_words("--bandwidth"@, t),
        ),
        differ_in(
            client_command(r),
            client_command((ClientStartRequest { keylog_file: t, ..r })),
            text_words("--keylog-file"@, r.keylog_file),
            text_words("--keylog-file"@, t),
        ),
        differ_in(
            client_command(r),
            client_command((ClientStartRequest { log_file: t, ..r })),
            text_words("--log-file"@, r.log_file),
            text_words("--log-file"@, t),
        ),
        differ_in(
            client_command(r),
            client_command((ClientStartRequest { qlog_dir: t, ..r })),
            text_words("--qlog-dir"@, r.qlog_dir),
            text_words("--qlog-dir"@, t),
        ),
{
    lemma_client_place(r, ClientStartRequest { bandwidth: t, ..r }, 7);
    lemma_client_place(r, ClientStartRequest { keylog_file: t, ..r }, 25);
    lemma_client_place(r, ClientStartRequest { log_file: t, ..r }, 26);
    lemma_client_place(r, ClientStartRequest { qlog_dir: t, ..r }, 27);
}

/// Each switch of the client has its flag exactly where it is on.
pub proof fn client_switches_have_their_own_words(r: ClientStartRequest, on: bool)
    ensures
        differ_in(
            client_command(r),
            client_command((ClientStartRequest { disable_encryption: on, ..r })),
            flag_words("--disable-encryption"@, r.disable_encryption),
            flag_words("--disable-encryption"@, on),
        ),
{
    lemma_client_place(r, ClientStartRequest { disable_encryption: on, ..r }, 24);
}

/// With multipath on, each of its settings has its flag exactly where it is given,
/// directly followed by its own text.
pub proof fn client_multipath_settings_have_their_own_words(
    r: ClientStartRequest,
    t: Option<String>,
)
    requires
        r.enable_multipath,
    ensures
        differ_in(
            client_command(r),
            client_command((ClientStartRequest { multipath_algor: t, ..r })),
            text_words("--multipath-algor"@, r.multipath_algor),
            text_words("--multipath-algor"@, t),
        ),
        differ_in(
            client_command(r),
            client_command((ClientStartRequest { linucb_alpha: t, ..r })),
            text_words("--linucb-alpha"@, r.linucb_alpha),
            text_words("--linucb-alpha"@, t),
        ),
{
    lemma_client_place(r, ClientStartRequest { multipath_algor: t, ..r }, 22);
    lemma_client_place(r, ClientStartRequest { linucb_alpha: t, ..r }, 23);
}

/// A list of the client gives one entry after the other, in order: each local address
/// behind a flag of its own, and the further arguments as they are.
pub proof fn client_lists_have_their_own_words(r: ClientStartRequest, vs: Vec<String>)
    ensures
        differ_in(
            client_command(r),
            client_command((ClientStartRequest { local_addresses: vs, ..r })),
            each_words("--local-addresses"@, texts(r.local_addresses@)),
            each_words("--local-addresses"@, texts(vs@)),
        ),
        differ_in(
            client_command(r),
            client_command((ClientStartRequest { extra_args: vs, ..r })),
            texts(r.extra_args@),
            texts(vs@),
        ),
{
    lemma_client_place(r, ClientStartRequest { local_addresses: vs, ..r }, 4);
    lemma_client_place(r, ClientStartRequest { extra_args: vs, ..r }, 28);
}

/// Multipath adds its flag, and what it is set to only then: with multipath off, the
/// flag is gone and its settings change nothing.
pub proof fn client_multipath_switches_its_settings(r: ClientStartRequest, t: Option<String>)
    ensures
        differ_in(
            client_command((ClientStartRequest { enable_multipath: false, ..r })),
            client_command((ClientStartRequest {
                enable_multipath: true,
                multipath_algor: None,
                linucb_alpha: None,
                ..r
            })),
            Seq::empty(),
            seq!["--enable-multipath"@],
        ),
        !r.enable_multipath ==> client_command((ClientStartRequest { multipath_algor: t, ..r }))
            == client_command(r),
        !r.enable_multipath ==> client_command((ClientStartRequest { linucb_alpha: t, ..r }))
            == client_command(r),
{
    lemma_client_place(
        ClientStartRequest { enable_multipath: false, ..r },
        ClientStartRequest {
            enable_multipath: true,
            multipath_algor: None,
            linucb_alpha: None,
            ..r
        },
        21,
    );
    if !r.enable_multipath {
        lemma_client_unchanged(r, ClientStartRequest { multipath_algor: t, ..r });
        lemma_client_unchanged(r, ClientStartRequest { linucb_alpha: t, ..r });
    }
}

proof fn lemma_client_unchanged(r: ClientStartRequest, s: ClientStartRequest)
    requires
        forall|i: int| 0 <= i < 29 ==> #[trigger] client_part(r, i) == client_part(s, i),
    ensures
        client_command(r) == client_command(s),
{
    lemma_client_parts(r);
    lemma_client_parts(s);
    let f = client_parts(r);
    let g = client_parts(s);
    assert forall|i: int| 0 <= i < 29 implies #[trigger] f(i) == g(i) by {
        assert(client_part(r, i) == client_part(s, i));
    }
    lemma_same(f, g, 0, 29);
}

/// The working directory is no word of the command line.
pub proof fn client_work_dir_is_not_passed(r: ClientStartRequest, w: Option<String>)
    ensures
        client_command((ClientStartRequest { work_dir: w, ..r })) == client_command(r),
{
    lemma_client_unchanged(r, ClientStartRequest { work_dir: w, ..r });
}

/// Where nothing but what is required is given, the command line of the client holds
/// nothing else.
#[verifier::rlimit(40)]
pub proof fn client_command_holds_no_more(r: ClientStartRequest)
    requires
        r.local_addresses@.len() == 0,
        r.duration is None,
        r.streams_per_conn is None,
        r.bandwidth is None,
        r.threads is None,
        r.max_concurrent_conns is None,
        r.max_concurrent_requests is None,
        r.initial_congestion_window is None,
        r.min_congestion_window is None,
        r.send_udp_payload_size is None,
        r.recv_udp_payload_size is None,
        r.handshake_timeout is None,
        r.idle_timeout is None,
        r.initial_rtt is None,
        r.pto_linear_factor is None,
        r.max_pto is None,
        r.send_batch_size is None,
        !r.enable_multipath,
        !r.disable_encryption,
        r.keylog_file is None,
        r.log_file is None,
        r.qlog_dir is None,
        r.extra_args@.len() == 0,
    ensures
        client_command(r) == seq![
            "--connect-to"@,
            r.connect_to@,
            "--congestion-control-algor"@,
            r.congestion_control@,
            "--log-level"@,
            r.log_level@,
            "--mode"@,
            r.mode@,
            "--handshake-timeout"@,
            decimal(10000),
        ],
{
    lemma_client_parts(r);
    let f = client_parts(r);
    assert(parts(f, 0, 0) =~= Seq::<Seq<char>>::empty());
    let a = seq![
        "--connect-to"@,
        r.connect_to@,
        "--congestion-control-algor"@,
        r.congestion_control@,
        "--log-level"@,
        r.log_level@,
        "--mode"@,
        r.mode@,
    ];
    assert(parts(f, 0, 1) == parts(f, 0, 0) + f(0));
    assert(parts(f, 0, 2) == parts(f, 0, 1) + f(1));
    assert(parts(f, 0, 3) == parts(f, 0, 2) + f(2));
    assert(parts(f, 0, 4) == parts(f, 0, 3) + f(3));
    assert(parts(f, 0, 4) =~= a);
    assert(parts(f, 0, 5) == parts(f, 0, 4) + f(4));
    assert(parts(f, 0, 5) =~= a);
    assert(parts(f, 0, 6) == parts(f, 0, 5) + f(5));
    assert(parts(f, 0, 6) =~= a);
    assert(parts(f, 0, 7) == parts(f, 0, 6) + f(6));
    assert(parts(f, 0, 7) =~= a);
    assert(parts(f, 0, 8) == parts(f, 0, 7) + f(7));
    assert(parts(f, 0, 8) =~= a);
    assert(parts(f, 0, 9) == parts(f, 0, 8) + f(8));
    assert(parts(f, 0, 9) =~= a);
    assert(parts(f, 0, 10) == parts(f, 0, 9) + f(9));
    assert(parts(f, 0, 10) =~= a);
    assert(parts(f, 0, 11) == parts(f, 0, 10) + f(10));
    assert(parts(f, 0, 11) =~= a);
    assert(parts(f, 0, 12) == parts(f, 0, 11) + f(11));
    assert(parts(f, 0, 12) =~= a);
    assert(parts(f, 0, 13) == parts(f, 0, 12) + f(12));
    assert(parts(f, 0, 13) =~= a);
    assert(parts(f, 0, 14) == parts(f, 0, 13) + f(13));
    assert(parts(f, 0, 14) =~= a);
    assert(parts(f, 0, 15) == parts(f, 0, 14) + f(14));
    assert(parts(f, 0, 15) =~= a);
    let a = a + seq!["--handshake-timeout"@, decimal(10000)];
    assert(parts(f, 0, 16) == parts(f, 0, 15) + f(15));
    assert(parts(f, 0, 16) =~= a);
    assert(parts(f, 0, 17) == parts(f, 0, 16) + f(16));
    assert(parts(f, 0, 17) =~= a);
    assert(parts(f, 0, 18) == parts(f, 0, 17) + f(17));
    assert(parts(f, 0, 18) =~= a);
    assert(parts(f, 0, 19) == parts(f, 0, 18) + f(18));
    assert(parts(f, 0, 19) =~= a);
    assert(parts(f, 0, 20) == parts(f, 0, 19) + f(19));
    assert(parts(f, 0, 20) =~= a);
    assert(parts(f, 0, 21) == parts(f, 0, 20) + f(20));
    assert(parts(f, 0, 21) =~= a);
    assert(parts(f, 0, 22) == parts(f, 0, 21) + f(21));
    assert(parts(f, 0, 22) =~= a);
    assert(parts(f, 0, 23) == parts(f, 0, 22) + f(22));
    assert(parts(f, 0, 23) =~= a);
    assert(parts(f, 0, 24) == parts(f, 0, 23) + f(23));
    assert(parts(f, 0, 24) =~= a);
    assert(parts(f, 0, 25) == parts(f, 0, 24) + f(24));
    assert(parts(f, 0, 25) =~= a);
    assert(parts(f, 0, 26) == parts(f, 0, 25) + f(25));
    assert(parts(f, 0, 26) =~= a);
    assert(parts(f, 0, 27) == parts(f, 0, 26) + f(26));
    assert(parts(f, 0, 27) =~= a);
    assert(parts(f, 0, 28) == parts(f, 0, 27) + f(27));
    assert(parts(f, 0, 28) =~= a);
    assert(parts(f, 0, 29) == parts(f, 0, 28) + f(28));
    assert(parts(f, 0, 29) =~= a);
}

} // verus!
