//! Trigger messages, statistics replies and key conversion.

use tquic_bench::wire::{
    convert_address_token_key, convert_ticket_key, decode_trigger_buf, encode_downlink_stats_reply,
    encode_uplink_stats_reply, push_u64_le, read_u64_le, TransferMode, TriggerDecision,
};

#[test]
fn trigger_stats_request_exact() {
    assert_eq!(decode_trigger_buf(&[0xFF], true), Some(TriggerDecision::StatsRequest));
}

#[test]
fn trigger_stats_request_needs_fin() {
    assert_eq!(decode_trigger_buf(&[0xFF], false), None);
}

#[test]
fn trigger_downlink_unlimited() {
    let mut buf = [0u8; 9];
    buf[0] = 0;
    buf[1..9].copy_from_slice(&0u64.to_le_bytes());
    assert_eq!(
        decode_trigger_buf(&buf, false),
        Some(TriggerDecision::Transfer { mode: TransferMode::Downlink, bandwidth: 0 })
    );
}

#[test]
fn trigger_downlink_with_bandwidth() {
    let bw: u64 = 62_500_000; // 500 Mbit/s in bytes/s
    let mut buf = [0u8; 9];
    buf[0] = 0;
    buf[1..9].copy_from_slice(&bw.to_le_bytes());
    assert_eq!(
        decode_trigger_buf(&buf, false),
        Some(TriggerDecision::Transfer { mode: TransferMode::Downlink, bandwidth: bw })
    );
}

#[test]
fn trigger_uplink_with_bandwidth() {
    let bw: u64 = 125_000_000; // 1 Gbit/s in bytes/s
    let mut buf = [0u8; 9];
    buf[0] = 1; // Uplink
    buf[1..9].copy_from_slice(&bw.to_le_bytes());
    assert_eq!(
        decode_trigger_buf(&buf, false),
        Some(TriggerDecision::Transfer { mode: TransferMode::Uplink, bandwidth: bw })
    );
}

#[test]
fn trigger_fin_no_data_defaults_to_downlink() {
    assert_eq!(
        decode_trigger_buf(&[], true),
        Some(TriggerDecision::Transfer { mode: TransferMode::Downlink, bandwidth: 0 })
    );
}

#[test]
fn trigger_partial_no_decision() {
    let buf = [0x00, 0x01, 0x02, 0x03];
    assert_eq!(decode_trigger_buf(&buf, false), None);
}

#[test]
fn trigger_extra_bytes_ignored() {
    let bw: u64 = 1_000;
    let mut buf = [0xAAu8; 12];
    buf[0] = 0; // Downlink
    buf[1..9].copy_from_slice(&bw.to_le_bytes());
    assert_eq!(
        decode_trigger_buf(&buf, false),
        Some(TriggerDecision::Transfer { mode: TransferMode::Downlink, bandwidth: bw })
    );
}

#[test]
fn uplink_reply_roundtrip() {
    let jitter_bits = (1.234_f64).to_bits();
    let lost_count: u64 = 42;
    let reply = encode_uplink_stats_reply(jitter_bits, lost_count);

    let decoded_jitter = u64::from_le_bytes(reply[0..8].try_into().unwrap());
    let decoded_lost = u64::from_le_bytes(reply[8..16].try_into().unwrap());

    assert_eq!(decoded_jitter, jitter_bits);
    assert_eq!(decoded_lost, lost_count);
    assert_eq!(f64::from_bits(decoded_jitter), 1.234_f64);
}

#[test]
fn uplink_reply_zero_values() {
    let reply = encode_uplink_stats_reply(0, 0);
    assert_eq!(reply, [0u8; 16]);
}

#[test]
fn uplink_reply_field_order() {
    let reply = encode_uplink_stats_reply(1, 2);
    assert_eq!(u64::from_le_bytes(reply[0..8].try_into().unwrap()), 1);
    assert_eq!(u64::from_le_bytes(reply[8..16].try_into().unwrap()), 2);
}

#[test]
fn downlink_reply_roundtrip() {
    let lost_count: u64 = 7;
    let sent_count: u64 = 100_000;
    let reply = encode_downlink_stats_reply(lost_count, sent_count);

    let decoded_lost = u64::from_le_bytes(reply[0..8].try_into().unwrap());
    let decoded_sent = u64::from_le_bytes(reply[8..16].try_into().unwrap());

    assert_eq!(decoded_lost, lost_count);
    assert_eq!(decoded_sent, sent_count);
}

#[test]
fn downlink_reply_zero_values() {
    let reply = encode_downlink_stats_reply(0, 0);
    assert_eq!(reply, [0u8; 16]);
}

#[test]
fn downlink_reply_field_order() {
    let reply = encode_downlink_stats_reply(1, 2);
    assert_eq!(u64::from_le_bytes(reply[0..8].try_into().unwrap()), 1);
    assert_eq!(u64::from_le_bytes(reply[8..16].try_into().unwrap()), 2);
}

#[test]
fn stats_request_wins_over_a_long_header() {
    assert_eq!(decode_trigger_buf(&[0xFF; 9], true), Some(TriggerDecision::StatsRequest));
    assert_eq!(
        decode_trigger_buf(&[0xFF; 9], false),
        Some(TriggerDecision::Transfer { mode: TransferMode::Downlink, bandwidth: u64::MAX })
    );
}

#[test]
fn numbers_are_written_little_endian() {
    let mut v = vec![9u8];
    push_u64_le(&mut v, 0x0102_0304_0506_0708);
    assert_eq!(v, vec![9, 8, 7, 6, 5, 4, 3, 2, 1]);
    assert_eq!(read_u64_le(&v, 1), 0x0102_0304_0506_0708);
}

#[test]
fn keys_are_padded_and_cut() {
    assert_eq!(convert_address_token_key("ab"), *b"ab\0\0\0\0\0\0\0\0\0\0\0\0\0\0");
    assert_eq!(convert_address_token_key("0123456789abcdefXYZ"), *b"0123456789abcdef");
    let ticket = convert_ticket_key("tquic key");
    assert_eq!(ticket.len(), 48);
    assert_eq!(&ticket[..9], b"tquic key");
    assert!(ticket[9..].iter().all(|b| *b == 0));
}
