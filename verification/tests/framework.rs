//! Dispatching, platforms and live statistics.

use capture_service::capture::parse_frame;
use capture_service::capture::Protocol;
use capture_service::channels::queue::Refusal;
use capture_service::channels::record::{RecordEvent, RecordSink};
use capture_service::channels::{PcapMessage, RecordMessage, RecordStats};
use capture_service::framework::dispatcher::{dispatch_frame, get, install, Dispatcher};
use capture_service::framework::live_stats::LiveStats;
use capture_service::framework::platform::StatLine;
use capture_service::framework::{Platform, PlatformSnapshot};
use capture_service::models::{parse_rtp_record, Timestamp};
use capture_service::platforms::google_meet::classify::is_google_meet;
use capture_service::platforms::google_meet::ip_ranges::{is_google_ipv4, is_google_ipv6};
use capture_service::platforms::google_meet::GoogleMeetPlatform;
use capture_service::platforms::teams::classify::is_teams;
use capture_service::platforms::teams::ip_ranges::{is_microsoft_ipv4, is_microsoft_ipv6};
use capture_service::platforms::teams::TeamsPlatform;
use capture_service::platforms::{register_all, VendorOutcome, VendorPlatform};
use crossbeam_channel::{bounded, Receiver};

const NOW: Timestamp = Timestamp { secs: 10, subsec_nanos: 0 };

fn frame(src: [u8; 4], dst: [u8; 4], payload: &[u8]) -> Vec<u8> {
    let mut f = vec![0u8; 12];
    f.extend_from_slice(&[0x08, 0x00, 0x45, 0, 0, 60, 0, 0, 0, 0, 64, 17, 0, 0]);
    f.extend_from_slice(&src);
    f.extend_from_slice(&dst);
    f.extend_from_slice(&[0, 1, 0, 2, 0, 20, 0, 0]);
    f.extend_from_slice(payload);
    f
}

fn rtp(seq: u8) -> [u8; 12] {
    [0x80, 96, 0, seq, 0, 0, 0, 1, 0, 0, 0, 5]
}

const TEAMS: [u8; 4] = [52, 112, 0, 1];
const MEET: [u8; 4] = [142, 250, 82, 9];
const CLIENT: [u8; 4] = [10, 0, 0, 1];

type Queues = (TeamsPlatform, Receiver<PcapMessage>, Receiver<RecordMessage>);

fn teams(capacity: usize) -> Queues {
    let (packet_tx, packet_rx) = bounded(capacity);
    let (record_tx, record_rx) = bounded(capacity);
    (TeamsPlatform::start(packet_tx, record_tx), packet_rx, record_rx)
}

fn text(line: &StatLine) -> String {
    match line {
        StatLine::Text(s) => s.clone(),
        StatLine::Share { label, count, total } => format!("{label}{count}/{total}"),
    }
}

#[test]
fn rtp_reaches_both_sinks() {
    let (mut t, packets, records) = teams(4);
    let f = frame(TEAMS, CLIENT, &rtp(9));
    let kept = t.handle_packet(&parse_frame(&f).unwrap(), NOW).unwrap();
    assert!(kept.frame.is_ok() && kept.record.is_ok());
    match packets.try_recv().unwrap() {
        PcapMessage::Packet(p) => {
            assert_eq!(p.frame(), &f[..]);
            assert_eq!(p.ts, NOW);
        }
        PcapMessage::Shutdown => panic!("no shutdown was sent"),
    }
    match records.try_recv().unwrap() {
        RecordMessage::Record(r) => {
            assert_eq!(r.seq_num, 9);
            assert_eq!(r.src_ip, "52.112.0.1");
            assert_eq!(r.arrival_epoch_ns, 10_000_000_000);
        }
        RecordMessage::Shutdown => panic!("no shutdown was sent"),
    }
    let c = t.counters();
    assert_eq!((c.ipv4, c.ipv6, c.rtp, c.pcap_queued, c.pcap_dropped), (1, 0, 1, 1, 0));
}

#[test]
fn other_protocols_are_only_counted() {
    let (mut t, packets, records) = teams(4);
    let mut stun = vec![0u8; 20];
    stun[4..8].copy_from_slice(&[0x21, 0x12, 0xA4, 0x42]);
    let mut rtcp = rtp(0).to_vec();
    rtcp[1] = 200;
    for payload in [stun, rtcp, vec![22, 0xFE, 0xFD], vec![0xC0, 1], vec![0, 0], vec![0x80]] {
        let f = frame(CLIENT, TEAMS, &payload);
        assert!(t.handle_packet(&parse_frame(&f).unwrap(), NOW).is_none());
    }
    let c = t.counters();
    assert_eq!((c.stun, c.rtcp, c.dtls, c.quic, c.unknown, c.rtp), (1, 1, 1, 1, 2, 0));
    assert_eq!(c.ipv4, 6);
    assert!(packets.is_empty() && records.is_empty());
}

#[test]
fn full_queues_drop_and_count() {
    let (mut t, packets, _records) = teams(1);
    for i in 0..3 {
        let f = frame(TEAMS, CLIENT, &rtp(i));
        t.handle_packet(&parse_frame(&f).unwrap(), NOW);
    }
    let c = t.counters();
    assert_eq!((c.rtp, c.pcap_queued, c.pcap_dropped), (3, 1, 2));
    assert_eq!(t.record_stats_mut().record_drops(), 2);
    // the frame that a full queue refuses comes back unchanged
    let refusal = t.send_packet(&[1, 2, 3], NOW).err().unwrap();
    match refusal {
        Refusal::Full(PcapMessage::Packet(p)) => assert_eq!(p.frame(), &[1, 2, 3]),
        _ => panic!("the queue is full"),
    }
    assert_eq!(packets.len(), 1);
    assert!(t.shutdown());
    let refusal = t.offer_shutdown().unwrap().err().unwrap();
    assert!(matches!(refusal, Refusal::Full(PcapMessage::Shutdown)));
    drop(packets);
    let refusal = t.offer_shutdown().unwrap().err().unwrap();
    assert!(matches!(refusal, Refusal::Disconnected(PcapMessage::Shutdown)));
}

#[test]
fn refused_records_come_back() {
    let (mut t, _packets, records) = teams(1);
    let f = frame(TEAMS, CLIENT, &rtp(3));
    let p = parse_frame(&f).unwrap();
    assert_eq!(t.count_packet(&p), Protocol::Rtp);
    let first = t.keep_rtp(&p, NOW);
    assert!(first.frame.is_ok() && first.record.is_ok());
    drop(records);
    let refusal = t.keep_rtp(&p, NOW).record.err().unwrap();
    match refusal {
        Refusal::Disconnected(RecordMessage::Record(r)) => assert_eq!(r.seq_num, 3),
        _ => panic!("nobody receives records"),
    }
    t.settle_frame(true);
    t.settle_record(false);
    assert_eq!(t.counters().pcap_queued, 2);
    assert_eq!(t.record_stats_mut().record_drops(), 2);
}

#[test]
fn shutdown_happens_once() {
    let (mut t, packets, records) = teams(2);
    // nothing is sent before the shutdown, nor to the records before the writer
    assert!(t.offer_shutdown().is_none() && t.stop_records().is_none());
    assert!(t.shutdown());
    assert!(!t.shutdown());
    assert!(t.stop_records().is_none());
    assert!(packets.is_empty() && records.is_empty());
    assert!(matches!(t.offer_shutdown(), Some(Ok(()))));
    assert!(matches!(packets.try_recv(), Ok(PcapMessage::Shutdown)));
    assert!(matches!(t.stop_records(), Some(Ok(()))));
    assert!(matches!(records.try_recv(), Ok(RecordMessage::Shutdown)));
    // later calls send nothing
    assert!(!t.shutdown());
    assert!(t.offer_shutdown().is_none() && t.stop_records().is_none());
    assert!(packets.is_empty() && records.is_empty());
    assert!(!GoogleMeetPlatform::start().shutdown());
}

#[test]
fn a_gone_record_sink_refuses_the_shutdown() {
    let (mut t, _packets, records) = teams(2);
    drop(records);
    t.shutdown();
    t.offer_shutdown();
    let refusal = t.stop_records().unwrap().err().unwrap();
    assert!(matches!(refusal, Refusal::Disconnected(RecordMessage::Shutdown)));
    assert!(t.stop_records().is_none());
}

#[test]
fn the_platform_takes_over_the_counts_of_the_sink() {
    let (mut t, _packets, records) = teams(1);
    drop(records);
    let f = frame(TEAMS, CLIENT, &rtp(3));
    t.handle_packet(&parse_frame(&f).unwrap(), NOW);
    let (batch_tx, _batches) = bounded(4);
    let mut sink = RecordSink::new(batch_tx);
    let mut counted = RecordStats::new();
    for _ in 0..2 {
        let p = parse_frame(&f).unwrap();
        let record =
            parse_rtp_record(p.raw, p.is_ipv6, p.ip_start, p.udp_payload_offset, NOW).unwrap();
        sink.handle(RecordEvent::Message(RecordMessage::Record(record)), &mut counted);
    }
    counted.inc_record_drops();
    counted.inc_record_drops();
    t.record_stats_mut().take_over(&counted);
    let stats = t.record_stats_mut();
    assert_eq!((stats.csv_records(), stats.duplicate_records()), (1, 1));
    assert_eq!((stats.record_drops(), stats.batch_drops()), (1, 0));
}

#[test]
fn teams_report_lists_every_counter() {
    let (mut t, _packets, _records) = teams(1);
    let empty: Vec<String> = t.final_stats().iter().map(text).collect();
    assert_eq!(empty[2], "  Teams UDP packets        : 0");
    assert_eq!(empty.len(), 17);
    for i in 0..2 {
        let f = frame(TEAMS, CLIENT, &rtp(i));
        t.handle_packet(&parse_frame(&f).unwrap(), NOW);
    }
    let lines: Vec<String> = t.final_stats().iter().map(text).collect();
    assert_eq!(
        lines,
        vec![
            "",
            "── Platform: Microsoft Teams ──────────────────────────",
            "  Teams UDP packets        : 2",
            "  Via IPv4                 : 2/2",
            "  Via IPv6                 : 0/2",
            "",
            "  RFC 7983 Protocol Filter",
            "  ────────────────────────",
            "  ✅ RTP packets (saved)   : 2",
            "  ❌ STUN/TURN filtered    : 0",
            "  ❌ DTLS filtered         : 0",
            "  ❌ QUIC filtered         : 0",
            "  ❌ RTCP filtered         : 0",
            "  ❌ UNKNOWN filtered      : 0",
            "",
            "  Dropped (queue full)     : 1",
            "  Written to PCAP          : 1",
            "  Written to CSV           : 0",
            "  Duplicate RTP skipped    : 0",
            "  ⚠️ Record queue drops    : 1",
        ]
    );
}

#[test]
fn frames_go_to_the_first_platform_that_claims_them() {
    let (t, packets, _records) = teams(8);
    let mut slot: Option<Dispatcher<VendorPlatform>> = None;
    // ignored before the dispatcher is there
    assert!(dispatch_frame(&mut slot, &frame(TEAMS, CLIENT, &rtp(1)), NOW).is_none());
    assert!(slot.is_none());
    install(&mut slot, register_all(t));
    match dispatch_frame(&mut slot, &frame(TEAMS, CLIENT, &rtp(1)), NOW) {
        Some(VendorOutcome::Teams(Some(kept))) => assert!(kept.frame.is_ok()),
        _ => panic!("RTP of Teams is kept"),
    }
    let meet = dispatch_frame(&mut slot, &frame(CLIENT, MEET, &rtp(1)), NOW);
    assert!(meet.is_none());
    let other = dispatch_frame(&mut slot, &frame(CLIENT, [8, 8, 8, 8], &rtp(1)), NOW);
    assert!(other.is_none());
    assert!(dispatch_frame(&mut slot, &[1, 2, 3], NOW).is_none());
    // one end belongs to Teams
    dispatch_frame(&mut slot, &frame(MEET, TEAMS, &rtp(2)), NOW);
    let d = get(&slot);
    assert_eq!(d.non_target_packets(), 3);
    assert_eq!(d.platforms().len(), 2);
    assert_eq!(d.platforms()[0].name(), "teams");
    assert_eq!(d.platforms()[0].snapshot().rtp_packets, 2);
    assert_eq!(d.platforms()[1].name(), "google_meet");
    assert_eq!(d.platforms()[1].snapshot().rtp_packets, 0);
    assert_eq!(packets.len(), 2);
}

#[test]
fn routing_tells_whether_a_packet_was_claimed() {
    let (t, _packets, _records) = teams(8);
    let mut d = Dispatcher::new(register_all(t));
    let f = frame(TEAMS, CLIENT, &rtp(1));
    assert!(d.route(&parse_frame(&f).unwrap(), NOW).is_some());
    let f = frame(CLIENT, CLIENT, &rtp(1));
    assert!(d.route(&parse_frame(&f).unwrap(), NOW).is_none());
    assert_eq!(d.non_target_packets(), 0);
    d.dispatch(&f, NOW);
    assert_eq!(d.non_target_packets(), 1);
    assert!(d.platforms_mut()[0].shutdown());
    assert!(!d.platforms_mut()[0].shutdown());
    assert!(!d.platforms_mut()[1].shutdown());
}

#[test]
fn platforms_claim_by_either_end() {
    for (src, dst, is_t, is_m) in [
        (TEAMS, CLIENT, true, false),
        (CLIENT, TEAMS, true, false),
        (MEET, CLIENT, false, true),
        (CLIENT, MEET, false, true),
        (CLIENT, CLIENT, false, false),
    ] {
        let f = frame(src, dst, &rtp(1));
        let p = parse_frame(&f).unwrap();
        assert_eq!(is_teams(&p), is_t);
        assert_eq!(is_google_meet(&p), is_m);
    }
}

#[test]
fn google_meet_claims_nothing() {
    let meet = GoogleMeetPlatform::start();
    for src in [[74, 125, 250, 1], MEET, TEAMS, CLIENT] {
        let f = frame(src, CLIENT, &rtp(1));
        assert!(!meet.classify(&parse_frame(&f).unwrap()));
    }
}

#[test]
fn google_meet_ranges() {
    assert!(is_google_ipv4(&[74, 125, 250, 1]));
    assert!(is_google_ipv4(&[74, 125, 247, 128]));
    assert!(!is_google_ipv4(&[74, 125, 247, 129]));
    assert!(is_google_ipv4(&[142, 250, 82, 255]));
    assert!(!is_google_ipv4(&[142, 250, 83, 0]));
    assert!(!is_google_ipv4(&[142, 250, 82]));
    let mut ip = [0u8; 16];
    ip[..8].copy_from_slice(&[0x20, 0x01, 0x48, 0x60, 0x48, 0x64, 0, 5]);
    ip[15] = 1;
    assert!(is_google_ipv6(&ip));
    ip[7] = 6;
    assert!(is_google_ipv6(&ip));
    ip[7] = 4;
    ip[8] = 0x80;
    assert!(!is_google_ipv6(&ip));
    ip[15] = 0;
    assert!(is_google_ipv6(&ip));
    assert!(!is_google_ipv6(&ip[..15]));
}

#[test]
fn teams_ranges_take_slices() {
    assert!(is_microsoft_ipv4(&[52, 115, 255, 255]));
    assert!(!is_microsoft_ipv4(&[52, 116, 0, 0]));
    assert!(!is_microsoft_ipv4(&[52, 115, 255]));
    assert!(!is_microsoft_ipv6(&[0x26; 15]));
}

#[test]
fn google_meet_reports_that_it_is_idle() {
    let g = GoogleMeetPlatform::start();
    let lines: Vec<String> = g.final_stats().iter().map(text).collect();
    assert_eq!(
        lines,
        vec![
            "",
            "── Platform: Google Meet ──────────────────────────────",
            "  (scaffold — not yet implemented; no packets processed)",
        ]
    );
}

#[test]
fn live_statistics_show_what_changed() {
    let mut live = LiveStats::new(1);
    let first = PlatformSnapshot {
        name: "teams",
        rtp_packets: 1200,
        dropped_packets: 0,
        csv_records: 1100,
        duplicate_records: 100,
    };
    assert_eq!(
        live.report(7, &vec![first]),
        vec![
            "[   15s] non-target (other) packets: 7",
            "         [teams] RTP:      1200 (+1200   ) | CSV: 1100 | Dropped: 0 | Dups: 100",
        ]
    );
    let second = PlatformSnapshot { rtp_packets: 1300, dropped_packets: 5, ..first };
    assert_eq!(
        live.report(8, &vec![second]),
        vec![
            "[   30s] non-target (other) packets: 8",
            "         [teams] RTP:      1300 (+100    ) | CSV: 1100 | Dropped: 5 | Dups: 100  ⚠️  +5 NEW DROPS!",
        ]
    );
}
