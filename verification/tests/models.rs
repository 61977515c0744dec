//! Records, their text forms and time.

use capture_service::channels::csv::{csv_row, CSV_HEADER};
use capture_service::models::ip_text::{push_ipv4, push_ipv6};
use capture_service::models::{parse_rtp_record, RtpRecord, Timestamp};
use capture_service::text::{
    push_dec, push_dec_left, push_dec_right, push_hex, push_hex_fixed, push_upper_hex_fixed,
};

fn v6(segments: [u16; 8]) -> String {
    let mut bytes = Vec::new();
    for s in segments {
        bytes.extend_from_slice(&s.to_be_bytes());
    }
    let mut out = String::new();
    push_ipv6(&mut out, &bytes);
    out
}

fn ipv4_frame() -> Vec<u8> {
    let mut f = vec![0u8; 14];
    f[12] = 0x08;
    f.extend_from_slice(&[0x45, 0, 0x01, 0x02, 0, 0, 0, 0, 64, 17, 0, 0]);
    f.extend_from_slice(&[52, 112, 3, 4, 192, 168, 0, 7]);
    f.extend_from_slice(&[0x0d, 0x97, 0xc3, 0x50, 0x00, 0xee, 0, 0]);
    f.extend_from_slice(&[0x80, 0xE0, 0x12, 0x34]);
    f.extend_from_slice(&[0x00, 0x01, 0x51, 0x80]);
    f.extend_from_slice(&[0xDE, 0xAD, 0xBE, 0xEF]);
    f
}

#[test]
fn ipv4_record_has_every_field() {
    let ts = Timestamp { secs: 1_700_000_000, subsec_nanos: 5 };
    let r = parse_rtp_record(&ipv4_frame(), false, 14, 42, ts).unwrap();
    assert_eq!(r.arrival_epoch_ns, 1_700_000_000_000_000_005);
    assert_eq!(r.src_ip, "52.112.3.4");
    assert_eq!(r.dst_ip, "192.168.0.7");
    assert_eq!(r.src_port, 3479);
    assert_eq!(r.dst_port, 50000);
    assert_eq!(r.ip_proto, 17);
    assert_eq!(r.ip_len, 258);
    assert_eq!(r.udp_len, 238);
    assert_eq!(r.ssrc, 0xDEADBEEF);
    assert_eq!(r.rtp_timestamp, 86400);
    assert_eq!(r.seq_num, 0x1234);
    assert_eq!(r.payload_type, 96);
    assert!(r.marker);
}

#[test]
fn record_needs_a_whole_rtp_header() {
    let ts = Timestamp { secs: 0, subsec_nanos: 0 };
    let f = ipv4_frame();
    assert!(parse_rtp_record(&f[..53], false, 14, 42, ts).is_none());
    assert!(parse_rtp_record(&f, false, 14, 43, ts).is_none());
    assert!(parse_rtp_record(&f, false, 14, usize::MAX, ts).is_none());
    assert!(parse_rtp_record(&[], false, 14, 42, ts).is_none());
}

#[test]
fn ipv6_record_adds_the_fixed_header() {
    let mut f = vec![0u8; 14];
    f.extend_from_slice(&[0x60, 0, 0, 0, 0x00, 0x14, 17, 64]);
    f.extend_from_slice(&[0x26, 0x03, 0x10, 0x27, 0, 0, 0, 0, 0, 0, 0, 0, 0, 0, 0, 1]);
    f.extend_from_slice(&[0x20, 0x01, 0x0d, 0xb8, 0, 0, 0, 0, 0, 0, 0, 0, 0, 0, 0, 2]);
    f.extend_from_slice(&[0, 1, 0, 2, 0, 20, 0, 0]);
    f.extend_from_slice(&[0x80, 0x60, 0, 1, 0, 0, 0, 2, 0, 0, 0, 3]);
    let ts = Timestamp { secs: 1, subsec_nanos: 0 };
    let r = parse_rtp_record(&f, true, 14, 62, ts).unwrap();
    assert_eq!(r.ip_len, 60);
    assert_eq!(r.src_ip, "2603:1027::1");
    assert_eq!(r.dst_ip, "2001:db8::2");
    assert!(!r.marker);
    assert_eq!(r.payload_type, 96);
    // the length field wraps around
    f[18] = 0xff;
    f[19] = 0xff;
    assert_eq!(parse_rtp_record(&f, true, 14, 62, ts).unwrap().ip_len, 39);
}

#[test]
fn ipv4_text_is_dotted_decimal() {
    let mut out = String::from("<");
    push_ipv4(&mut out, &[0, 10, 200, 255]);
    assert_eq!(out, "<0.10.200.255");
}

#[test]
fn ipv6_text_is_canonical() {
    assert_eq!(v6([0; 8]), "::");
    assert_eq!(v6([0, 0, 0, 0, 0, 0, 0, 1]), "::1");
    assert_eq!(v6([0x2001, 0xdb8, 0, 0, 0, 0, 0, 0]), "2001:db8::");
    assert_eq!(v6([1, 0, 0, 1, 0, 0, 0, 1]), "1:0:0:1::1");
    assert_eq!(v6([1, 0, 0, 2, 0, 0, 3, 4]), "1::2:0:0:3:4");
    assert_eq!(v6([1, 2, 3, 0, 5, 6, 7, 8]), "1:2:3:0:5:6:7:8");
    assert_eq!(v6([0xabcd, 2, 3, 4, 5, 6, 7, 0xffff]), "abcd:2:3:4:5:6:7:ffff");
    assert_eq!(v6([0, 0, 0, 0, 0, 0xffff, 0x3470, 0x0102]), "::ffff:52.112.1.2");
}

#[test]
fn ipv6_text_of_servers_and_edge_cases() {
    assert_eq!(v6([0x2603, 0x1063, 0, 0, 1, 0, 0, 0]), "2603:1063:0:0:1::");
    assert_eq!(v6([0, 0, 0, 0, 0, 0, 0x3470, 0x0102]), "::3470:102");
    assert_eq!(v6([0xfe80, 0, 0, 0, 0x1, 0, 0xa, 0xb]), "fe80::1:0:a:b");
    assert_eq!(v6([0, 1, 0, 1, 0, 1, 0, 1]), "0:1:0:1:0:1:0:1");
    assert_eq!(v6([0, 0, 1, 0, 0, 0, 1, 0]), "0:0:1::1:0");
    assert_eq!(v6([0x2620, 0x1ec, 0x40, 0, 0, 0, 0, 7]), "2620:1ec:40::7");
}

#[test]
fn time_is_cut_to_64_bits() {
    assert_eq!(Timestamp { secs: 2, subsec_nanos: 7 }.epoch_ns(), 2_000_000_007);
    let late = Timestamp { secs: 18_446_744_074, subsec_nanos: 0 };
    assert_eq!(late.epoch_ns(), 290_448_384);
}

#[test]
fn csv_row_follows_the_header() {
    let r = RtpRecord {
        arrival_epoch_ns: 42,
        src_ip: String::from("52.112.3.4"),
        dst_ip: String::from("2001:db8::2"),
        ip_proto: 17,
        ip_len: 258,
        src_port: 3479,
        dst_port: 50000,
        udp_len: 238,
        ssrc: 0xBEEF,
        rtp_timestamp: 86400,
        seq_num: 4660,
        payload_type: 96,
        marker: true,
    };
    assert_eq!(
        csv_row(&r),
        "42,52.112.3.4,2001:db8::2,17,258,3479,50000,238,0x0000BEEF,86400,4660,96,1"
    );
    assert_eq!(CSV_HEADER.split(',').count(), csv_row(&r).split(',').count());
    let unmarked = RtpRecord { marker: false, ..r };
    assert!(csv_row(&unmarked).ends_with(",96,0"));
}

#[test]
fn numbers_are_written_in_full() {
    let mut s = String::from("x");
    push_dec(&mut s, 0);
    push_dec(&mut s, u64::MAX);
    assert_eq!(s, "x018446744073709551615");
    let mut s = String::new();
    push_hex(&mut s, 0x1ec);
    push_hex_fixed(&mut s, 0xab, 4);
    push_upper_hex_fixed(&mut s, 0xab, 4);
    assert_eq!(s, "1ec00ab00AB");
    let mut s = String::new();
    push_dec_right(&mut s, 42, 5);
    s.push('|');
    push_dec_left(&mut s, 42, 5);
    s.push('|');
    push_dec_right(&mut s, 123456, 5);
    assert_eq!(s, "   42|42   |123456");
}
