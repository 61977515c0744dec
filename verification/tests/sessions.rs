//! Clients, metrics, sessions and the line protocol.

use capture_service::capture::parse_frame;
use capture_service::channels::queue::{Inbox, Outbox, Refusal};
use capture_service::models::ip_text::{push_ipv4, push_ipv6};
use capture_service::models::{parse_rtp_record, RtpRecord, Timestamp};
use capture_service::platforms::teams::classify::is_teams;
use capture_service::platforms::teams::ip_ranges::{is_microsoft_ipv4, is_microsoft_ipv6};
use capture_service::sessions::client::{get_client_ip, is_microsoft_ip};
use capture_service::sessions::engine::{next_action, was_taken, BatchEvent, WorkerAction};
use capture_service::sessions::identity::{new_session_id, session_id_text};
use capture_service::sessions::influx::{
    collect_payload, influx_line, push_influx_line, tag_value, LineEvent, MAX_PAYLOAD_LINES,
};
use capture_service::sessions::media_metrics::{MediaMetrics, MediaReport, StreamReport};
use capture_service::sessions::network_metrics::{is_server_ip, NetworkCounts, NetworkMetrics};
use capture_service::sessions::state::{
    flush_session, reset_session, BinReport, SessionState, BIN_SIZE_NS, SESSION_TIMEOUT_NS,
};
use capture_service::sessions::{push_batch, push_shutdown_batch, Batch, SessionEngine};
use crossbeam_channel::bounded;
use std::collections::hash_map::DefaultHasher;
use std::hash::{Hash, Hasher};

const SERVER: &str = "52.112.0.1";
const CLIENT: &str = "10.0.0.1";
const SECOND: u64 = 1_000_000_000;

fn record(src: &str, dst: &str, at_ns: u64, seq_num: u16, udp_len: u16) -> RtpRecord {
    RtpRecord {
        arrival_epoch_ns: at_ns,
        src_ip: String::from(src),
        dst_ip: String::from(dst),
        ip_proto: 17,
        ip_len: udp_len.wrapping_add(20),
        src_port: 1,
        dst_port: 2,
        udp_len,
        ssrc: 7,
        rtp_timestamp: 1000,
        seq_num,
        payload_type: 96,
        marker: false,
    }
}

fn up(at_ns: u64, seq: u16) -> RtpRecord {
    record(CLIENT, SERVER, at_ns, seq, 100)
}

fn down(at_ns: u64, seq: u16) -> RtpRecord {
    record(SERVER, CLIENT, at_ns, seq, 1000)
}

fn video(ssrc: u32, rtp_timestamp: u32, at_ns: u64) -> RtpRecord {
    RtpRecord { ssrc, rtp_timestamp, ..record(SERVER, CLIENT, at_ns, 1, 500) }
}

#[test]
fn microsoft_addresses_in_text() {
    for ip in ["52.112.0.1", "52.115.9.9", "52.122.1.1", "52.123.255.255"] {
        assert!(is_microsoft_ip(ip) && is_server_ip(ip));
    }
    for ip in ["52.111.0.1", "52.116.0.1", "52.121.0.1", "52.124.0.1", "152.112.0.1", "52"] {
        assert!(!is_microsoft_ip(ip) && !is_server_ip(ip));
    }
    for ip in ["2603:1010::1", "2603:1027:5::", "2603:1037::", "2603:1047::", "2603:1057::"] {
        assert!(is_microsoft_ip(ip) && is_server_ip(ip));
    }
    assert!(is_microsoft_ip("2620:1ec:6::1") && is_server_ip("2620:1ec:6::1"));
    assert!(!is_microsoft_ip("2603:1063::1") && !is_server_ip("2603:1063::1"));
    assert!(!is_microsoft_ip("") && !is_server_ip(""));
}

#[test]
fn second_part_is_read_as_a_number() {
    // a number, however it is written
    assert!(is_microsoft_ip("52.0112.0.1"));
    assert!(is_microsoft_ip("52.+113.0.1"));
    assert!(is_microsoft_ip("52.112"));
    // no number, or none that fits
    assert!(!is_microsoft_ip("52..0.1"));
    assert!(!is_microsoft_ip("52.+.0.1"));
    assert!(!is_microsoft_ip("52.-112.0.1"));
    assert!(!is_microsoft_ip("52.112a.0.1"));
    assert!(!is_microsoft_ip("52.368.0.1"));
    assert!(!is_microsoft_ip("52.99999999999999999999999999.0.1"));
}

#[test]
fn layers_agree_on_ipv4() {
    for first in [5u8, 51, 52, 53, 152] {
        for second in 0..=255u8 {
            let ip = [first, second, 1, 200];
            let mut text = String::new();
            push_ipv4(&mut text, &ip);
            assert_eq!(is_microsoft_ip(&text), is_microsoft_ipv4(&ip));
            assert_eq!(is_server_ip(&text), is_microsoft_ipv4(&ip));
        }
    }
}

#[test]
fn ipv6_media_is_recognised_in_text() {
    for head in [
        [0x26u8, 0x03, 0x10, 0x27, 0, 0],
        [0x26, 0x03, 0x10, 0x57, 0, 0],
        [0x26, 0x20, 0x01, 0xec, 0, 0x06],
        [0x26, 0x20, 0x01, 0xec, 0, 0x40],
    ] {
        let mut ip = [0u8; 16];
        ip[..6].copy_from_slice(&head);
        let mut text = String::new();
        push_ipv6(&mut text, &ip);
        assert!(is_microsoft_ipv6(&ip));
        assert!(is_microsoft_ip(&text) && is_server_ip(&text));
    }
}

#[test]
fn client_is_the_other_end() {
    assert_eq!(get_client_ip(&up(0, 1)), CLIENT);
    assert_eq!(get_client_ip(&down(0, 1)), CLIENT);
    // neither end is Microsoft's: the sender
    assert_eq!(get_client_ip(&record("1.1.1.1", "2.2.2.2", 0, 1, 9)), "1.1.1.1");
}

#[test]
fn directions_are_counted_apart() {
    let mut n = NetworkMetrics::new();
    assert!(!n.has_data());
    n.process_packet(&up(0, 1));
    n.process_packet(&RtpRecord { ssrc: 8, ..down(0, 1) });
    n.process_packet(&RtpRecord { ssrc: 8, ..down(0, 2) });
    // between two servers: uplink
    n.process_packet(&record(SERVER, "52.113.0.1", 0, 2, 10));
    // no server at all: ignored
    n.process_packet(&record(CLIENT, "10.0.0.2", 0, 9, 10));
    assert_eq!(
        n.counts(),
        NetworkCounts {
            uplink_bytes: 110,
            downlink_bytes: 2000,
            uplink_packets: 2,
            downlink_packets: 2,
            uplink_lost_packets: 0,
            downlink_lost_packets: 0,
        }
    );
    assert!(n.has_data());
}

#[test]
fn captured_teams_media_is_counted() {
    for (src, dst, is_up) in [
        ([52u8, 115, 1, 2], [10u8, 0, 0, 1], false),
        ([10, 0, 0, 1], [52, 122, 200, 9], true),
    ] {
        let mut f = vec![0u8; 12];
        f.extend_from_slice(&[0x08, 0x00, 0x45, 0, 0, 48, 0, 0, 0, 0, 64, 17, 0, 0]);
        f.extend_from_slice(&src);
        f.extend_from_slice(&dst);
        f.extend_from_slice(&[0, 1, 0, 2, 0, 20, 0, 0]);
        f.extend_from_slice(&[0x80, 96, 0, 1, 0, 0, 0, 1, 0, 0, 0, 5]);
        let p = parse_frame(&f).unwrap();
        assert!(is_teams(&p));
        let now = Timestamp { secs: 1, subsec_nanos: 0 };
        let r = parse_rtp_record(&f, p.is_ipv6, p.ip_start, p.udp_payload_offset, now).unwrap();
        assert_eq!(get_client_ip(&r), CLIENT);
        let mut n = NetworkMetrics::new();
        n.process_packet(&r);
        let c = n.counts();
        assert_eq!((c.uplink_packets, c.downlink_packets), (is_up as u64, !is_up as u64));
        assert_eq!(c.uplink_bytes + c.downlink_bytes, 20);
    }
}

#[test]
fn gaps_are_lost_packets() {
    let mut n = NetworkMetrics::new();
    n.process_packet(&up(0, 65533));
    n.process_packet(&up(0, 1));
    assert_eq!(n.counts().uplink_lost_packets, 3);
    // late and repeated packets lose nothing
    n.process_packet(&up(0, 65534));
    n.process_packet(&up(0, 1));
    n.process_packet(&up(0, 2));
    assert_eq!(n.counts().uplink_lost_packets, 3);
    // half the range ahead counts as late
    n.process_packet(&up(0, 2u16.wrapping_add(32768)));
    assert_eq!(n.counts().uplink_lost_packets, 3);
    n.process_packet(&up(0, 2 + 32767));
    assert_eq!(n.counts().uplink_lost_packets, 3 + 32766);
}

#[test]
fn any_packet_is_traffic() {
    let mut n = NetworkMetrics::new();
    n.process_packet(&RtpRecord { ssrc: 1, ..record(CLIENT, SERVER, 0, 1, 0) });
    assert!(n.has_data());
    let mut n = NetworkMetrics::new();
    n.process_packet(&record(SERVER, CLIENT, 0, 1, 0));
    assert!(n.has_data());
    n.process_packet(&record(CLIENT, "10.0.0.2", 0, 1, 50));
    n.reset_bin();
    assert!(!n.has_data());
    // a bin of empty packets is reported
    let mut e = SessionEngine::new();
    e.process_record(&record(CLIENT, SERVER, 0, 1, 0));
    let r = e.process_record(&record(CLIENT, SERVER, BIN_SIZE_NS, 4, 0)).unwrap();
    assert_eq!((r.network.uplink_packets, r.network.uplink_bytes), (1, 0));
    assert_eq!(e.shutdown()[0].network.uplink_lost_packets, 2);
}

#[test]
fn received_and_lost_fill_the_range() {
    let mut n = NetworkMetrics::new();
    for (i, seq) in [65530u16, 65533, 2, 3, 10].into_iter().enumerate() {
        n.process_packet(&up(0, seq));
        // a repeat and a late packet count, but lose nothing
        if i == 3 {
            n.process_packet(&up(0, seq));
            n.process_packet(&up(0, 65531));
        }
    }
    let c = n.counts();
    assert_eq!((c.uplink_packets, c.uplink_bytes), (7, 700));
    // the range 65530..=10 holds 17 numbers, 5 of which came in order
    assert_eq!(c.uplink_lost_packets, 12);
    assert_eq!((c.downlink_packets, c.downlink_lost_packets), (0, 0));
}

#[test]
fn loss_across_bins_is_noticed() {
    let mut n = NetworkMetrics::new();
    n.process_packet(&up(0, 10));
    n.reset_bin();
    assert!(!n.has_data());
    assert_eq!(n.counts().uplink_packets, 0);
    n.process_packet(&up(0, 13));
    assert_eq!(n.counts().uplink_lost_packets, 2);
}

#[test]
fn audio_and_video_are_told_apart_by_size() {
    let mut m = MediaMetrics::new();
    m.process_packet(&record(SERVER, CLIENT, 0, 1, 400));
    m.process_packet(&RtpRecord { ssrc: 9, ..record(SERVER, CLIENT, 0, 1, 401) });
    // uplink does not count
    m.process_packet(&record(CLIENT, SERVER, 0, 1, 401));
    let r = m.report();
    assert_eq!((r.audio_bytes, r.video_bytes), (400, 401));
    assert_eq!(r.active_total_streams, 2);
    // one frame is no video stream
    assert_eq!(r.active_video_streams(), 0);
    assert_eq!(r.active_audio_streams(), 2);
}

#[test]
fn frames_are_listed_in_order() {
    let mut m = MediaMetrics::new();
    m.process_packet(&video(1, 9000, 50));
    m.process_packet(&video(1, 3000, 10));
    m.process_packet(&video(1, 6000, 30));
    // later packets of a frame do not change its arrival
    m.process_packet(&video(1, 3000, 99));
    let r = m.report();
    assert_eq!(r.active_video_streams(), 1);
    assert_eq!(r.active_audio_streams(), 0);
    let s = &r.streams[0];
    assert_eq!(s.ssrc, 1);
    assert_eq!(s.frames, vec![(3000, 10), (6000, 30), (9000, 50)]);
    assert_eq!(s.total_bytes, 2000);
    assert_eq!(s.span_ticks(), 6000);
    assert_eq!(s.arrival_gaps_ns(), vec![20, 20]);
}

#[test]
fn video_needs_a_plausible_gap() {
    for (gap, expected) in [(1499u32, 0), (1500, 1), (90_000, 1), (90_001, 0)] {
        let mut m = MediaMetrics::new();
        m.process_packet(&video(1, 5000, 1));
        m.process_packet(&video(1, 5000 + gap, 2));
        assert_eq!(m.report().active_video_streams(), expected);
    }
    // one good gap among bad ones is enough
    let mut m = MediaMetrics::new();
    for ts in [0u32, 100, 3100, 500_000] {
        m.process_packet(&video(1, ts, ts as u64));
    }
    assert_eq!(m.report().active_video_streams(), 1);
}

#[test]
fn arrival_gaps_are_never_negative() {
    let s = StreamReport { ssrc: 1, frames: vec![(0, 100), (3000, 40), (6000, 90)], total_bytes: 3 };
    assert_eq!(s.arrival_gaps_ns(), vec![0, 50]);
    assert_eq!(s.span_ticks(), 6000);
}

#[test]
fn media_starts_over_with_a_bin() {
    let mut m = MediaMetrics::new();
    m.process_packet(&video(1, 3000, 10));
    m.process_packet(&video(2, 6000, 10));
    m.reset_bin();
    let r = m.report();
    assert_eq!((r.active_total_streams, r.video_bytes, r.streams.len()), (0, 0, 0));
    // frames of the last bin are forgotten
    m.process_packet(&video(1, 6000, 10));
    assert_eq!(m.report().active_video_streams(), 0);
    m.process_packet(&video(1, 9000, 10));
    let r = m.report();
    assert_eq!(r.streams[0].frames.len(), 2);
    assert_eq!(r.streams[0].total_bytes, 1000);
}

#[test]
fn session_ids_are_sixteen_digits() {
    assert_eq!(session_id_text(0), "0000000000000000");
    assert_eq!(session_id_text(0xDEAD_BEEF), "00000000deadbeef");
    assert_eq!(session_id_text(u64::MAX), "ffffffffffffffff");
    let id = new_session_id(CLIENT, 5);
    assert_eq!(id.len(), 16);
    let mut hasher = DefaultHasher::new();
    CLIENT.hash(&mut hasher);
    hasher.write(&5u64.to_le_bytes());
    assert_eq!(id, format!("{:016x}", hasher.finish()));
    assert_eq!(id, new_session_id(CLIENT, 5));
    assert_ne!(id, new_session_id(CLIENT, 6));
    assert_ne!(id, new_session_id("10.0.0.2", 5));
    assert_ne!(id, session_id_text(0));
}

#[test]
fn a_bin_is_reported_when_the_next_begins() {
    let mut e = SessionEngine::new();
    assert!(e.process_record(&up(7 * SECOND, 1)).is_none());
    assert!(e.process_record(&down(8 * SECOND, 2)).is_none());
    let r = e.process_record(&up(11 * SECOND, 3)).unwrap();
    assert_eq!(r.client_ip, CLIENT);
    assert_eq!(r.session_id, new_session_id(CLIENT, 7 * SECOND));
    assert_eq!((r.network.uplink_bytes, r.network.downlink_bytes), (100, 1000));
    assert_eq!((r.network.uplink_packets, r.network.downlink_packets), (1, 1));
    assert_eq!(r.session_age_ns, SECOND);
    assert_eq!(r.timestamp_ns, 10 * SECOND);
    assert_eq!(r.media.video_bytes, 1000);
    // the packet that ended the bin counts in the next
    let last = e.shutdown();
    assert_eq!(last.len(), 1);
    assert_eq!(last[0].network.uplink_bytes, 100);
    assert_eq!(last[0].network.downlink_bytes, 0);
    assert_eq!(last[0].timestamp_ns, 15 * SECOND);
    assert_eq!(last[0].session_age_ns, 4 * SECOND);
}

#[test]
fn late_packets_count_in_the_current_bin() {
    let mut e = SessionEngine::new();
    e.process_record(&up(11 * SECOND, 1));
    assert!(e.process_record(&up(2 * SECOND, 2)).is_none());
    let last = e.shutdown();
    assert_eq!(last[0].network.uplink_packets, 2);
    assert_eq!(last[0].timestamp_ns, 15 * SECOND);
    // the clock went backwards: the age is not negative
    assert_eq!(last[0].session_age_ns, 0);
}

#[test]
fn silence_ends_a_session() {
    let mut e = SessionEngine::new();
    e.process_record(&up(0, 1));
    // exactly the time limit: still the same session
    let r = e.process_record(&up(SESSION_TIMEOUT_NS, 2)).unwrap();
    assert_eq!(r.session_id, new_session_id(CLIENT, 0));
    let at = 2 * SESSION_TIMEOUT_NS + 1;
    let r = e.process_record(&up(at, 500)).unwrap();
    assert_eq!(r.session_id, new_session_id(CLIENT, 0));
    assert_eq!(r.network.uplink_packets, 1);
    let last = e.shutdown();
    assert_eq!(last[0].session_id, new_session_id(CLIENT, at));
    // the sequence numbers start over, so nothing counts as lost
    assert_eq!(last[0].network.uplink_lost_packets, 0);
    assert_eq!(last[0].session_age_ns, 0);
}

#[test]
fn clients_have_their_own_sessions() {
    let mut e = SessionEngine::new();
    let other = record("10.0.0.2", SERVER, 0, 1, 50);
    assert!(e.process_batch(Batch { records: vec![up(0, 1), other, up(1, 2)], seq: 1 }).is_empty());
    let mut last = e.shutdown();
    last.sort_by(|a, b| a.client_ip.cmp(&b.client_ip));
    assert_eq!(last.len(), 2);
    assert_eq!((last[0].client_ip.as_str(), last[0].network.uplink_bytes), (CLIENT, 200));
    assert_eq!((last[1].client_ip.as_str(), last[1].network.uplink_bytes), ("10.0.0.2", 50));
}

#[test]
fn a_batch_reports_in_order() {
    let mut e = SessionEngine::new();
    let records = vec![up(0, 1), up(BIN_SIZE_NS, 2), up(2 * BIN_SIZE_NS, 3)];
    let reports = e.process_batch(Batch { records, seq: 1 });
    let ends: Vec<u64> = reports.iter().map(|r| r.timestamp_ns).collect();
    assert_eq!(ends, vec![BIN_SIZE_NS, 2 * BIN_SIZE_NS]);
}

#[test]
fn stale_sessions_are_dropped_with_a_report() {
    let mut e = SessionEngine::new();
    e.process_record(&up(0, 1));
    e.process_record(&record("10.0.0.2", SERVER, 60 * SECOND, 1, 50));
    assert!(e.cleanup_stale_sessions(SESSION_TIMEOUT_NS).is_empty());
    let dropped = e.cleanup_stale_sessions(SESSION_TIMEOUT_NS + 1);
    assert_eq!(dropped.len(), 1);
    assert_eq!(dropped[0].client_ip, CLIENT);
    // the other client is kept
    let last = e.shutdown();
    assert_eq!(last.len(), 1);
    assert_eq!(last[0].client_ip, "10.0.0.2");
}

#[test]
fn sessions_without_traffic_report_nothing() {
    let mut e = SessionEngine::new();
    // neither end is a server
    e.process_record(&record("1.1.1.1", "2.2.2.2", 0, 1, 50));
    assert!(e.process_record(&record("1.1.1.1", "2.2.2.2", BIN_SIZE_NS, 1, 50)).is_none());
    assert!(e.cleanup_stale_sessions(u64::MAX).is_empty());
    assert!(e.shutdown().is_empty());
}

#[test]
fn a_session_can_be_flushed_and_reset() {
    let mut s = SessionState::new(String::from(CLIENT), 5 * SECOND);
    assert!(s.belongs_to(&String::from(CLIENT)) && !s.belongs_to(&String::from(SERVER)));
    assert!(flush_session(&mut s).is_none());
    assert!(s.accept(&up(6 * SECOND, 1)).is_none());
    assert!(!s.is_expired(6 * SECOND + SESSION_TIMEOUT_NS));
    assert!(s.is_expired(6 * SECOND + SESSION_TIMEOUT_NS + 1));
    let r = flush_session(&mut s).unwrap();
    assert_eq!((r.timestamp_ns, r.session_age_ns), (10 * SECOND, SECOND));
    assert!(flush_session(&mut s).is_none());
    reset_session(&mut s, 20 * SECOND);
    s.accept(&up(21 * SECOND, 900));
    let r = flush_session(&mut s).unwrap();
    assert_eq!(r.session_id, new_session_id(CLIENT, 20 * SECOND));
    assert_eq!(r.network.uplink_lost_packets, 0);
    assert_eq!(r.timestamp_ns, 25 * SECOND);
}

#[test]
fn tag_values_are_escaped() {
    assert_eq!(tag_value("10.0.0.1"), "10.0.0.1");
    assert_eq!(tag_value("a b,c=d\\e"), "a\\ b\\,c\\=d\\\\e");
    assert_eq!(tag_value(""), "");
    assert_eq!(tag_value("\\,"), "\\\\\\,");
}

#[test]
fn a_report_becomes_a_line() {
    let report = BinReport {
        client_ip: String::from("10.0.0.1"),
        session_id: String::from("00000000deadbeef"),
        network: NetworkMetrics::new().counts(),
        media: MediaReport {
            streams: Vec::new(),
            active_total_streams: 0,
            audio_bytes: 0,
            video_bytes: 0,
        },
        session_age_ns: 4,
        timestamp_ns: 5000000000,
    };
    assert_eq!(
        influx_line(&report, "a=1", "b=2"),
        "teams_session_qoe,client_ip=10.0.0.1,session_id=00000000deadbeef a=1,b=2,session_age_ns=4 5000000000"
    );
}

#[test]
fn lines_are_collected_into_payloads() {
    let (tx, rx) = bounded::<String>(200);
    for i in 0..150 {
        tx.try_send(format!("line{i}")).unwrap();
    }
    let mut inbox = Inbox::new(rx.clone());
    let first = collect_payload(LineEvent::Line(String::from("first")), &mut inbox).unwrap();
    assert!(first.starts_with("first\nline0\nline1\n"));
    assert!(first.ends_with("line98\n"));
    assert_eq!(first.lines().count(), 100);
    let next = collect_payload(LineEvent::Line(rx.try_recv().unwrap()), &mut inbox).unwrap();
    assert_eq!(next.lines().count(), 51);
    assert!(next.starts_with("line99\nline100\n"));
    assert!(next.ends_with("line149\n"));
    assert_eq!(collect_payload(LineEvent::Timeout, &mut inbox).unwrap(), "");
    assert!(collect_payload(LineEvent::Disconnected, &mut inbox).is_none());
}

#[test]
fn payloads_stop_at_the_limit() {
    let (tx, rx) = bounded::<String>(MAX_PAYLOAD_LINES);
    for _ in 0..MAX_PAYLOAD_LINES {
        tx.try_send(String::from("b")).unwrap();
    }
    let mut inbox = Inbox::new(rx.clone());
    let p = collect_payload(LineEvent::Line(String::from("a")), &mut inbox).unwrap();
    assert_eq!(p.len(), 200);
    assert_eq!(rx.len(), 1);
    // a wait that ended without a line takes nothing out of the queue
    assert_eq!(collect_payload(LineEvent::Timeout, &mut inbox).unwrap(), "");
    assert!(collect_payload(LineEvent::Disconnected, &mut inbox).is_none());
    assert_eq!(rx.len(), 1);
}

#[test]
fn lines_go_to_the_writer_if_there_is_room() {
    let (tx, rx) = bounded::<String>(1);
    let mut tx = Some(Outbox::new(tx));
    assert!(matches!(push_influx_line(&mut tx, String::from("x")), Some(Ok(()))));
    match push_influx_line(&mut tx, String::from("y")) {
        Some(Err(Refusal::Full(line))) => assert_eq!(line, "y"),
        _ => panic!("the queue is full"),
    }
    assert_eq!(rx.try_recv().unwrap(), "x");
    assert!(rx.is_empty());
    drop(rx);
    match push_influx_line(&mut tx, String::from("z")) {
        Some(Err(Refusal::Disconnected(line))) => assert_eq!(line, "z"),
        _ => panic!("nobody receives lines"),
    }
    assert!(push_influx_line(&mut None, String::from("z")).is_none());
}

#[test]
fn batches_go_to_the_session_queue() {
    let (tx, rx) = bounded::<Batch>(1);
    let mut tx = Some(Outbox::new(tx));
    let nowhere = push_batch(&mut None, Batch { records: Vec::new(), seq: 2 });
    assert!(nowhere.is_none() && !was_taken(&nowhere));
    let sent = push_batch(&mut tx, Batch { records: vec![up(0, 1)], seq: 3 });
    assert!(was_taken(&sent));
    let refused = push_batch(&mut tx, Batch { records: Vec::new(), seq: 4 });
    assert!(!was_taken(&refused));
    assert!(matches!(refused, Some(Err(Refusal::Full(Batch { seq: 4, .. })))));
    let batch = rx.try_recv().unwrap();
    assert_eq!((batch.seq, batch.records.len()), (3, 1));
    assert!(rx.is_empty());
}

#[test]
fn the_session_layer_can_be_told_to_stop() {
    let (tx, rx) = bounded::<Batch>(1);
    let mut tx = Some(Outbox::new(tx));
    assert!(push_shutdown_batch(&mut None).is_none());
    assert!(was_taken(&push_shutdown_batch(&mut tx)));
    let batch = rx.try_recv().unwrap();
    assert!(batch.is_sentinel());
    assert_eq!(batch.seq, 0);
    drop(rx);
    match push_shutdown_batch(&mut tx) {
        Some(Err(Refusal::Disconnected(batch))) => assert!(batch.is_sentinel()),
        _ => panic!("nobody receives batches"),
    }
}

#[test]
fn the_worker_stops_on_the_sentinel() {
    assert!(matches!(next_action(BatchEvent::Batch(Batch::sentinel())), WorkerAction::Stop));
    assert!(matches!(next_action(BatchEvent::Disconnected), WorkerAction::Stop));
    assert!(matches!(next_action(BatchEvent::Timeout), WorkerAction::Cleanup));
    match next_action(BatchEvent::Batch(Batch { records: vec![up(0, 1)], seq: 3 })) {
        WorkerAction::Process(batch) => assert_eq!(batch.seq, 3),
        _ => panic!("the batch holds a record"),
    }
}
