//! Frames, protocols and the single-vendor filter.

use capture_service::capture::frame::{find_udp_header, unwrap_ethernet};
use capture_service::capture::parse_frame;
use capture_service::capture::protocol::{
    classify_protocol, is_dtls, is_quic, is_rtcp, is_rtp_payload, is_stun, Protocol,
};
use capture_service::ip_ranges::{is_microsoft_ipv4, is_microsoft_ipv6, quick_precheck};

fn ethernet(ethertype: u16) -> Vec<u8> {
    let mut f = vec![0x02, 0, 0, 0, 0, 1, 0x02, 0, 0, 0, 0, 2];
    f.extend_from_slice(&ethertype.to_be_bytes());
    f
}

fn ipv4_udp(src: [u8; 4], dst: [u8; 4], payload: &[u8]) -> Vec<u8> {
    let total = (28 + payload.len()) as u16;
    let mut f = vec![0x45, 0];
    f.extend_from_slice(&total.to_be_bytes());
    f.extend_from_slice(&[0, 0, 0, 0, 64, 17, 0, 0]);
    f.extend_from_slice(&src);
    f.extend_from_slice(&dst);
    f.extend_from_slice(&udp(payload));
    f
}

fn udp(payload: &[u8]) -> Vec<u8> {
    let len = (8 + payload.len()) as u16;
    let mut u = vec![0x0d, 0x97, 0xc3, 0x50];
    u.extend_from_slice(&len.to_be_bytes());
    u.extend_from_slice(&[0, 0]);
    u.extend_from_slice(payload);
    u
}

fn ipv6(src: [u8; 16], dst: [u8; 16], next: u8, rest: &[u8]) -> Vec<u8> {
    let mut f = vec![0x60, 0, 0, 0];
    f.extend_from_slice(&(rest.len() as u16).to_be_bytes());
    f.push(next);
    f.push(64);
    f.extend_from_slice(&src);
    f.extend_from_slice(&dst);
    f.extend_from_slice(rest);
    f
}

fn frame(ethertype: u16, packet: Vec<u8>) -> Vec<u8> {
    let mut f = ethernet(ethertype);
    f.extend(packet);
    f
}

const TEAMS_V6: [u8; 16] = [0x26, 0x20, 0x01, 0xec, 0, 0x06, 0, 0, 0, 0, 0, 0, 0, 0, 0, 9];
const CLIENT_V6: [u8; 16] = [0x20, 0x01, 0x0d, 0xb8, 0, 0, 0, 0, 0, 0, 0, 0, 0, 0, 0, 1];

#[test]
fn plain_ipv4_frame_is_parsed() {
    let f = frame(0x0800, ipv4_udp([10, 0, 0, 1], [52, 112, 0, 9], &[1, 2, 3]));
    let p = parse_frame(&f).unwrap();
    assert!(!p.is_ipv6);
    assert_eq!(p.ip_start, 14);
    assert_eq!(p.udp_payload_offset, 42);
    assert_eq!(p.src_ip, &[10, 0, 0, 1]);
    assert_eq!(p.dst_ip, &[52, 112, 0, 9]);
    assert_eq!(p.udp_payload, &[1, 2, 3]);
    assert_eq!(p.raw, &f[..]);
}

#[test]
fn ipv4_options_move_the_payload() {
    let mut packet = ipv4_udp([10, 0, 0, 1], [10, 0, 0, 2], &[7]);
    packet[0] = 0x46;
    for _ in 0..4 {
        packet.insert(20, 0);
    }
    let f = frame(0x0800, packet);
    let p = parse_frame(&f).unwrap();
    assert_eq!(p.udp_payload_offset, 46);
    assert_eq!(p.udp_payload, &[7]);
}

#[test]
fn vlan_and_double_tags_are_unwrapped() {
    let packet = ipv4_udp([10, 0, 0, 1], [10, 0, 0, 2], &[7]);
    let mut tagged = ethernet(0x8100);
    tagged.extend_from_slice(&[0, 5, 0x08, 0x00]);
    tagged.extend_from_slice(&packet);
    assert_eq!(unwrap_ethernet(&tagged), Some((0x0800, 18)));
    assert_eq!(parse_frame(&tagged).unwrap().ip_start, 18);

    let mut double = ethernet(0x88a8);
    double.extend_from_slice(&[0, 5, 0x81, 0x00, 0, 6, 0x08, 0x00]);
    double.extend_from_slice(&packet);
    assert_eq!(unwrap_ethernet(&double), Some((0x0800, 22)));
    assert_eq!(parse_frame(&double).unwrap().ip_start, 22);
    assert_eq!(parse_frame(&double).unwrap().udp_payload, &[7]);
}

#[test]
fn tags_only_shift_a_packet() {
    let v4 = frame(0x0800, ipv4_udp([10, 0, 0, 1], [52, 112, 0, 9], &[1, 2, 3]));
    let v6 = frame(0x86DD, ipv6(CLIENT_V6, TEAMS_V6, 17, &udp(&[9, 9])));
    let arp = frame(0x0806, vec![0; 60]);
    let short = frame(0x0800, vec![0x45; 3]);
    let tags: [&[u8]; 3] = [
        &[0x81, 0, 7, 8],
        &[0x88, 0xa8, 7, 8],
        &[0x88, 0xa8, 7, 8, 0x81, 0, 9, 10],
    ];
    for data in [v4, v6, arp, short] {
        for tag in tags {
            let mut t = data[..12].to_vec();
            t.extend_from_slice(tag);
            t.extend_from_slice(&data[12..]);
            match (parse_frame(&data), parse_frame(&t)) {
                (Some(p), Some(q)) => {
                    assert_eq!(q.is_ipv6, p.is_ipv6);
                    assert_eq!((q.src_ip, q.dst_ip), (p.src_ip, p.dst_ip));
                    assert_eq!(q.udp_payload, p.udp_payload);
                    assert_eq!(q.ip_start, p.ip_start + tag.len());
                    assert_eq!(q.udp_payload_offset, p.udp_payload_offset + tag.len());
                }
                (p, q) => assert!(p.is_none() && q.is_none()),
            }
        }
    }
}

#[test]
fn short_and_foreign_frames_are_rejected() {
    assert!(parse_frame(&[]).is_none());
    assert!(parse_frame(&[0; 13]).is_none());
    assert!(parse_frame(&frame(0x0806, vec![0; 60])).is_none());
    // a tag without room for the inner ethertype
    let mut cut = ethernet(0x8100);
    cut.extend_from_slice(&[0, 5, 0x08]);
    assert!(parse_frame(&cut).is_none());
    // TCP
    let mut tcp = ipv4_udp([10, 0, 0, 1], [10, 0, 0, 2], &[7]);
    tcp[9] = 6;
    assert!(parse_frame(&frame(0x0800, tcp)).is_none());
    // a header length below the minimum
    let mut ihl = ipv4_udp([10, 0, 0, 1], [10, 0, 0, 2], &[7]);
    ihl[0] = 0x44;
    assert!(parse_frame(&frame(0x0800, ihl)).is_none());
    // too short for an IPv4 header
    assert!(parse_frame(&frame(0x0800, vec![0x45; 19])).is_none());
    // too short for an IPv6 header
    assert!(parse_frame(&frame(0x86DD, vec![0x60; 39])).is_none());
}

#[test]
fn truncated_payload_is_empty() {
    let mut f = frame(0x0800, ipv4_udp([10, 0, 0, 1], [10, 0, 0, 2], &[7]));
    f.truncate(36);
    let p = parse_frame(&f).unwrap();
    assert_eq!(p.udp_payload_offset, 42);
    assert!(p.udp_payload.is_empty());
}

#[test]
fn ipv6_extension_headers_are_walked() {
    let mut rest = vec![44, 0, 0, 0, 0, 0, 0, 0]; // hop-by-hop, then fragment
    rest.extend_from_slice(&[51, 0, 0, 0, 0, 0, 0, 0]); // fragment, then authentication
    rest.extend_from_slice(&[17, 1, 0, 0, 0, 0, 0, 0, 0, 0, 0, 0]); // 12 bytes, then UDP
    rest.extend_from_slice(&udp(&[9, 9]));
    let f = frame(0x86DD, ipv6(CLIENT_V6, TEAMS_V6, 0, &rest));
    let p = parse_frame(&f).unwrap();
    assert!(p.is_ipv6);
    assert_eq!(p.ip_start, 14);
    assert_eq!(p.udp_payload_offset, 14 + 40 + 28 + 8);
    assert_eq!(p.udp_payload, &[9, 9]);
    assert_eq!(p.src_ip, &CLIENT_V6);
    assert_eq!(p.dst_ip, &TEAMS_V6);
}

#[test]
fn ipv6_without_udp_is_rejected() {
    // an unknown next header
    assert!(parse_frame(&frame(0x86DD, ipv6(CLIENT_V6, TEAMS_V6, 6, &[0; 20]))).is_none());
    // an extension header that runs past the end
    assert!(parse_frame(&frame(0x86DD, ipv6(CLIENT_V6, TEAMS_V6, 0, &[17, 9, 0, 0]))).is_none());
    assert_eq!(find_udp_header(&[0; 4], 17, 2), Some(2));
    assert_eq!(find_udp_header(&[0; 4], 44, 0), None);
}

#[test]
fn native_stun_needs_the_cookie() {
    let mut p = vec![0u8; 20];
    p[4..8].copy_from_slice(&[0x21, 0x12, 0xA4, 0x42]);
    assert!(is_stun(&p));
    assert_eq!(classify_protocol(&p), Protocol::Stun);
    p[7] = 0x43;
    assert!(!is_stun(&p));
    assert!(!is_stun(&[0; 3]));
}

#[test]
fn turn_channel_data_tolerates_three_bytes() {
    for (declared, expected) in [(3u8, false), (4, true), (7, true), (10, true), (11, false)] {
        let mut p = vec![0x40, 0x00, 0x00, declared];
        p.extend_from_slice(&[1; 7]);
        assert_eq!(is_stun(&p), expected);
        // what is not TURN Channel Data looks like a QUIC short header
        let kind = if expected { Protocol::Stun } else { Protocol::Quic };
        assert_eq!(classify_protocol(&p), kind);
    }
    assert!(!is_stun(&[0x3f, 0xff, 0, 0]));
    assert!(is_stun(&[0x7f, 0xff, 0, 0]));
    assert!(!is_stun(&[0x80, 0x00, 0, 0]));
}

#[test]
fn dtls_is_recognised_by_type_and_version() {
    assert!(is_dtls(&[22, 0xFE, 0xFD]));
    assert!(is_dtls(&[20, 0xFE, 0xFF]));
    assert!(is_dtls(&[23, 0xFE, 0xFC]));
    assert!(!is_dtls(&[24, 0xFE, 0xFD]));
    assert!(!is_dtls(&[22, 0xFE, 0xFE]));
    assert!(!is_dtls(&[22, 0xFE]));
    assert_eq!(classify_protocol(&[22, 0xFE, 0xFD, 0, 0]), Protocol::Dtls);
}

#[test]
fn quic_long_short_and_negotiation() {
    assert!(is_quic(&[0xC0]));
    assert!(is_quic(&[0x40]));
    assert!(!is_quic(&[0x3F]));
    assert!(!is_quic(&[0x80]));
    assert!(is_quic(&[0x80, 0, 0, 0, 0]));
    assert!(is_quic(&[0x80, 0x1a, 0x2a, 0x3a, 0xfa]));
    assert!(!is_quic(&[0x80, 0x1a, 0x2a, 0x3a, 0xfb]));
    assert!(!is_quic(&[]));
}

#[test]
fn rtcp_comes_before_rtp() {
    let mut p = vec![0x80u8; 12];
    p[1] = 200;
    assert!(is_rtcp(&p) && is_rtp_payload(&p));
    assert_eq!(classify_protocol(&p), Protocol::Rtcp);
    p[1] = 207;
    assert_eq!(classify_protocol(&p), Protocol::Rtcp);
    p[1] = 199;
    assert_eq!(classify_protocol(&p), Protocol::Rtp);
    p[1] = 208;
    assert_eq!(classify_protocol(&p), Protocol::Rtp);
    p.pop();
    assert_eq!(classify_protocol(&p), Protocol::Unknown);
    assert_eq!(classify_protocol(&[]), Protocol::Unknown);
}

#[test]
fn rtp_that_looks_like_negotiation_is_not_kept() {
    let mut p = vec![0u8; 12];
    p[0] = 0x80;
    assert!(is_rtp_payload(&p));
    assert_eq!(classify_protocol(&p), Protocol::Quic);
}

#[test]
fn teams_ipv4_ranges() {
    for second in 0..=255u8 {
        let expected = (112..=115).contains(&second) || (122..=123).contains(&second);
        assert_eq!(is_microsoft_ipv4([52, second, 1, 2]), expected);
    }
    assert!(!is_microsoft_ipv4([53, 112, 0, 0]));
}

#[test]
fn teams_ipv6_ranges() {
    let mut ip = [0u8; 16];
    ip[..6].copy_from_slice(&[0x26, 0x03, 0x10, 0x63, 0x03, 0xff]);
    assert!(is_microsoft_ipv6(&ip));
    ip[4] = 0x04;
    assert!(!is_microsoft_ipv6(&ip));
    for third in [0x27, 0x37, 0x47, 0x57] {
        ip[..6].copy_from_slice(&[0x26, 0x03, 0x10, third, 0, 0]);
        assert!(is_microsoft_ipv6(&ip));
        ip[5] = 1;
        assert!(!is_microsoft_ipv6(&ip));
    }
    ip[..6].copy_from_slice(&[0x26, 0x20, 0x01, 0xec, 0, 0x06]);
    assert!(is_microsoft_ipv6(&ip));
    ip[5] = 0x7f;
    assert!(is_microsoft_ipv6(&ip));
    ip[5] = 0x80;
    assert!(!is_microsoft_ipv6(&ip));
    assert!(!is_microsoft_ipv6(&ip[..15]));
}

#[test]
fn filter_passes_teams_packets_only() {
    let teams = frame(0x0800, ipv4_udp([52, 123, 0, 1], [10, 0, 0, 1], &[1]));
    assert_eq!(quick_precheck(&teams), Some((false, 14, 42)));
    let other = frame(0x0800, ipv4_udp([8, 8, 8, 8], [10, 0, 0, 1], &[1]));
    assert_eq!(quick_precheck(&other), None);
    let six = frame(0x86DD, ipv6(CLIENT_V6, TEAMS_V6, 17, &udp(&[1])));
    assert_eq!(quick_precheck(&six), Some((true, 14, 62)));
    let six_other = frame(0x86DD, ipv6(CLIENT_V6, CLIENT_V6, 17, &udp(&[1])));
    assert_eq!(quick_precheck(&six_other), None);
    assert_eq!(quick_precheck(&[0; 20]), None);
}
