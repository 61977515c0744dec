//! Duplicate filter, record sink and captured packets.

use capture_service::channels::dedup::{Dedup, SeqWindow};
use capture_service::channels::queue::{Outbox, Refusal};
use capture_service::channels::record::{
    flush_batch, send_sentinel, settle_flush, take_batch, FlushReason, RecordEvent, RecordSink,
    BATCH_WINDOW_NS,
};
use capture_service::channels::{
    Batch, CapturedPacket, RecordMessage, RecordStats, BATCH_SIZE, MAX_PACKET_SIZE,
};
use capture_service::models::{RtpRecord, Timestamp};
use crossbeam_channel::bounded;

fn record(ssrc: u32, seq_num: u16) -> RtpRecord {
    RtpRecord {
        arrival_epoch_ns: 1,
        src_ip: String::from("52.112.0.1"),
        dst_ip: String::from("10.0.0.1"),
        ip_proto: 17,
        ip_len: 100,
        src_port: 3479,
        dst_port: 50000,
        udp_len: 80,
        ssrc,
        rtp_timestamp: 7,
        seq_num,
        payload_type: 96,
        marker: false,
    }
}

fn event(ssrc: u32, seq_num: u16) -> RecordEvent {
    RecordEvent::Message(RecordMessage::Record(record(ssrc, seq_num)))
}

#[test]
fn a_repeat_is_a_duplicate() {
    let mut w = SeqWindow::new(100);
    assert!(w.check(100));
    assert!(!w.check(101));
    assert!(w.check(101));
    assert!(w.check(100));
}

#[test]
fn late_packets_pass_once_within_the_window() {
    let mut w = SeqWindow::new(1000);
    assert!(!w.check(937));
    assert!(w.check(937));
    // 64 behind the newest: too old
    assert!(w.check(936));
    // a jump beyond the window forgets everything before it
    assert!(!w.check(2000));
    assert!(!w.check(1999));
    assert!(w.check(1000));
}

#[test]
fn sequence_numbers_wrap_around() {
    let mut w = SeqWindow::new(65535);
    assert!(!w.check(0));
    assert!(!w.check(1));
    assert!(w.check(65535));
    assert!(!w.check(65534));
    assert!(w.check(0));
}

#[test]
fn half_the_number_range_away_is_too_old() {
    let mut w = SeqWindow::new(0);
    assert!(w.check(32768));
    assert!(!w.check(32767));
}

#[test]
fn streams_have_their_own_windows() {
    let mut d = Dedup::new();
    assert!(!d.check(1, 5));
    assert!(!d.check(2, 5));
    assert!(d.check(1, 5));
    assert!(d.check(2, 5));
    assert!(!d.check(1, 6));
}

#[test]
fn a_record_gets_a_row_and_waits() {
    let (tx, rx) = bounded::<Batch>(4);
    let mut sink = RecordSink::new(tx);
    let mut stats = RecordStats::new();
    let step = sink.handle(event(1, 1), &mut stats);
    assert_eq!(
        step.row.unwrap(),
        "1,52.112.0.1,10.0.0.1,17,100,3479,50000,80,0x00000001,7,1,96,0"
    );
    assert!(step.flush.is_none() && !step.stop);
    assert_eq!(stats.csv_records(), 1);
    assert!(rx.is_empty());
}

#[test]
fn a_retransmission_leaves_no_trace_but_a_count() {
    let (tx, rx) = bounded::<Batch>(4);
    let mut sink = RecordSink::new(tx);
    let mut stats = RecordStats::new();
    sink.handle(event(1, 1), &mut stats);
    let step = sink.handle(event(1, 1), &mut stats);
    assert!(step.row.is_none() && step.flush.is_none() && !step.stop);
    assert_eq!(stats.duplicate_records(), 1);
    assert_eq!(stats.csv_records(), 1);
    sink.handle(RecordEvent::Timeout, &mut stats);
    assert_eq!(rx.try_recv().unwrap().records.len(), 1);
}

#[test]
fn a_full_batch_is_flushed() {
    let (tx, rx) = bounded::<Batch>(4);
    let mut sink = RecordSink::new(tx);
    let mut stats = RecordStats::new();
    for i in 0..BATCH_SIZE {
        let step = sink.handle(event(1, i as u16), &mut stats);
        assert_eq!(step.flush.is_some(), i + 1 == BATCH_SIZE);
        if let Some(flush) = step.flush {
            assert_eq!((flush.seq, flush.count), (1, 5_000));
            assert_eq!(flush.reason, FlushReason::SizeLimit);
            assert!(flush.outcome.is_ok());
        }
    }
    let batch = rx.try_recv().unwrap();
    assert_eq!(batch.seq, 1);
    assert_eq!(batch.records.len(), BATCH_SIZE);
    assert_eq!(batch.records[17].seq_num, 17);
    assert_eq!(sink.batches(), 1);
}

#[test]
fn silence_flushes_a_partial_batch() {
    let (tx, rx) = bounded::<Batch>(4);
    let mut sink = RecordSink::new(tx);
    let mut stats = RecordStats::new();
    assert!(sink.handle(RecordEvent::Timeout, &mut stats).flush.is_none());
    sink.handle(event(1, 1), &mut stats);
    sink.handle(event(1, 2), &mut stats);
    let step = sink.handle(RecordEvent::Timeout, &mut stats);
    assert!(!step.stop);
    let flush = step.flush.unwrap();
    assert_eq!(flush.count, 2);
    assert_eq!(flush.reason.as_str(), "5s timeout");
    assert_eq!(rx.try_recv().unwrap().records.len(), 2);
    assert!(rx.is_empty());
}

#[test]
fn shutdown_and_disconnection_flush_and_stop() {
    let (tx, rx) = bounded::<Batch>(4);
    let mut sink = RecordSink::new(tx);
    let mut stats = RecordStats::new();
    sink.handle(event(1, 1), &mut stats);
    let step = sink.handle(RecordEvent::Message(RecordMessage::Shutdown), &mut stats);
    assert!(step.stop && step.row.is_none());
    assert!(matches!(step.sentinel, Some(Ok(()))));
    assert_eq!(step.flush.unwrap().reason.as_str(), "shutdown");
    // the last records, then the sentinel
    assert_eq!(rx.len(), 2);
    let last = rx.try_recv().unwrap();
    assert_eq!((last.seq, last.records.len()), (1, 1));
    let sentinel = rx.try_recv().unwrap();
    assert!(sentinel.is_sentinel());
    assert_eq!(sentinel.seq, 0);

    let (tx, rx) = bounded::<Batch>(4);
    let mut sink = RecordSink::new(tx);
    let step = sink.handle(RecordEvent::Disconnected, &mut stats);
    assert!(step.stop && step.flush.is_none());
    assert!(rx.try_recv().unwrap().is_sentinel());
    assert!(rx.is_empty());
    assert_eq!(FlushReason::Disconnected.as_str(), "disconnected");
    assert_eq!(FlushReason::SizeLimit.as_str(), "size limit");
}

#[test]
fn a_refused_batch_comes_back_and_is_counted() {
    let (tx, rx) = bounded::<Batch>(1);
    let mut tx = Outbox::new(tx);
    let mut stats = RecordStats::new();
    let mut seq: u64 = 7;
    let mut pending = vec![record(1, 1)];
    let flush = flush_batch(&mut pending, &mut seq, FlushReason::Timeout, &mut tx, &mut stats);
    assert!(flush.unwrap().outcome.is_ok());
    pending.push(record(1, 2));
    let flush =
        flush_batch(&mut pending, &mut seq, FlushReason::Timeout, &mut tx, &mut stats).unwrap();
    match flush.outcome {
        Err(Refusal::Full(lost)) => {
            assert_eq!((lost.seq, lost.records[0].seq_num), (9, 2));
        }
        _ => panic!("the queue is full"),
    }
    assert_eq!(stats.batch_drops(), 1);
    assert!(pending.is_empty());
    assert_eq!(seq, 9);
    assert_eq!(rx.len(), 1);
}

#[test]
fn batches_are_numbered_and_the_sentinel_comes_last() {
    let (tx, rx) = bounded::<Batch>(2);
    let mut sink = RecordSink::new(tx);
    let mut stats = RecordStats::new();
    // the third batch is lost, and its number with it
    for seq in 1..=3 {
        sink.handle(event(1, seq), &mut stats);
        sink.handle(RecordEvent::Timeout, &mut stats);
    }
    assert_eq!(stats.batch_drops(), 1);
    let first: Vec<u64> = rx.try_iter().map(|b| b.seq).collect();
    assert_eq!(first, vec![1, 2]);
    sink.handle(event(1, 4), &mut stats);
    sink.handle(RecordEvent::Disconnected, &mut stats);
    let rest: Vec<(u64, usize)> = rx.try_iter().map(|b| (b.seq, b.records.len())).collect();
    assert_eq!(rest, vec![(4, 1), (0, 0)]);
    assert_eq!(sink.batches(), 4);
}

#[test]
fn a_partial_batch_waits_for_the_window() {
    let (tx, _rx) = bounded::<Batch>(4);
    let mut sink = RecordSink::new(tx);
    let mut stats = RecordStats::new();
    assert_eq!(sink.time_left(123), None);
    // the records arrive at 1 ns; the oldest counts
    sink.handle(event(1, 1), &mut stats);
    let mut later = record(1, 2);
    later.arrival_epoch_ns = 2_000_000_001;
    sink.handle(RecordEvent::Message(RecordMessage::Record(later)), &mut stats);
    assert_eq!(sink.time_left(0), Some(BATCH_WINDOW_NS));
    assert_eq!(sink.time_left(1), Some(5_000_000_000));
    assert_eq!(sink.time_left(2_000_000_001), Some(3_000_000_000));
    assert_eq!(sink.time_left(5_000_000_000), Some(1));
    assert_eq!(sink.time_left(5_000_000_001), Some(0));
    assert_eq!(sink.time_left(u64::MAX), Some(0));
    sink.handle(RecordEvent::Timeout, &mut stats);
    assert_eq!(sink.time_left(6_000_000_000), None);
}

#[test]
fn only_a_gone_receiver_refuses_the_sentinel() {
    let (tx, rx) = bounded::<Batch>(1);
    let mut tx = Outbox::new(tx);
    assert!(send_sentinel(&mut tx).is_ok());
    assert!(rx.try_recv().unwrap().is_sentinel());
    drop(rx);
    match send_sentinel(&mut tx) {
        Err(Refusal::Disconnected(batch)) => assert!(batch.is_sentinel()),
        _ => panic!("nobody receives batches"),
    }
}

#[test]
fn a_run_conserves_records() {
    let (tx, rx) = bounded::<Batch>(8);
    let mut sink = RecordSink::new(tx);
    let mut stats = RecordStats::new();
    let mut rows = 0;
    for (i, seq) in [1u16, 2, 2, 3, 1, 5, 4, 5, 6].into_iter().enumerate() {
        if sink.handle(event(1, seq), &mut stats).row.is_some() {
            rows += 1;
        }
        if i % 4 == 3 {
            sink.handle(RecordEvent::Timeout, &mut stats);
        }
    }
    sink.handle(RecordEvent::Disconnected, &mut stats);
    assert_eq!((rows, stats.csv_records(), stats.duplicate_records()), (6, 6, 3));
    let batched: Vec<u16> =
        rx.try_iter().flat_map(|b| b.records).map(|r| r.seq_num).collect();
    assert_eq!(batched, vec![1, 2, 3, 5, 4, 6]);
}

#[test]
fn nothing_pending_makes_no_batch() {
    let mut seq: u64 = 3;
    let mut pending = Vec::new();
    assert!(take_batch(&mut pending, &mut seq).is_none());
    assert_eq!(seq, 3);
    pending.push(record(1, 1));
    let batch = take_batch(&mut pending, &mut seq).unwrap();
    assert_eq!((batch.seq, batch.records.len()), (4, 1));
}

#[test]
fn flushes_are_settled_by_their_outcome() {
    let mut stats = RecordStats::new();
    let flush = settle_flush(1, 2, FlushReason::Shutdown, Ok(()), &mut stats);
    assert!(flush.outcome.is_ok());
    assert_eq!((flush.seq, flush.count, flush.reason), (1, 2, FlushReason::Shutdown));
    assert_eq!(stats.batch_drops(), 0);
    let refusal = Refusal::Disconnected(Batch { records: vec![record(1, 1)], seq: 2 });
    let lost = settle_flush(2, 1, FlushReason::Timeout, Err(refusal), &mut stats);
    assert!(matches!(lost.outcome, Err(Refusal::Disconnected(Batch { seq: 2, .. }))));
    assert_eq!(stats.batch_drops(), 1);
}

#[test]
fn the_sentinel_is_the_empty_batch() {
    let s = Batch::sentinel();
    assert!(s.is_sentinel());
    assert_eq!(s.seq, 0);
    assert!(!Batch { records: vec![record(1, 1)], seq: 0 }.is_sentinel());
}

#[test]
fn record_drops_are_counted() {
    let mut stats = RecordStats::new();
    stats.inc_record_drops();
    stats.inc_record_drops();
    assert_eq!(stats.record_drops(), 2);
    assert_eq!(stats.csv_records(), 0);
}

#[test]
fn frames_are_copied_and_cut() {
    let ts = Timestamp { secs: 3, subsec_nanos: 4 };
    let small = CapturedPacket::capture(&[1, 2, 3], ts);
    assert_eq!(small.len, 3);
    assert_eq!(small.frame(), &[1, 2, 3]);
    assert!(small.buf[3..].iter().all(|&b| b == 0));
    assert_eq!(small.ts, ts);
    let large = CapturedPacket::capture(&[7; 2000], ts);
    assert_eq!(large.len, MAX_PACKET_SIZE);
    assert_eq!(large.frame().len(), 1536);
}
