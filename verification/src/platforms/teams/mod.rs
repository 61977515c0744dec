//! The Microsoft Teams platform: keeps RTP (for the PCAP file, the record file
//! and the sessions), and counts and discards STUN, DTLS, QUIC, RTCP and
//! everything unknown.

pub mod classify;
pub mod ip_ranges;

use crate::capture::frame::ParsedPacket;
#[allow(unused_imports)]
use crate::capture::frame::{frame, FrameModel};
#[allow(unused_imports)]
use crate::capture::protocol::protocol_of;
use crate::capture::protocol::{classify_protocol, Protocol};
use crate::channels::pcap::{CapturedPacket, Message as PcapMessage};
#[allow(unused_imports)]
use crate::channels::queue::{fate_of, logs, Attempt, Fate};
use crate::channels::queue::{Outbox, Refusal};
#[allow(unused_imports)]
use crate::channels::record::RecordCounts;
use crate::channels::record::{RecordMessage, RecordStats};
use crate::framework::platform::{
    push_line, push_numbered, push_share, Platform, PlatformSnapshot, StatLine,
};
#[allow(unused_imports)]
use crate::framework::platform::{line_models, numbered, LineModel, SnapshotModel};
#[allow(unused_imports)]
use crate::models::rtp_record::{record_of, rtp_packets_have_records, RecordModel};
use crate::models::rtp_record::{parse_rtp_record, RtpRecord};
use crate::models::timestamp::Timestamp;
#[allow(unused_imports)]
use classify::teams_packet;
use crossbeam_channel::Sender;
use vstd::prelude::*;

verus! {

/// Output file of the kept frames.
pub const PCAP_PATH: &'static str = "teams_traffic_rtp.pcap";

/// Output file of the records.
pub const CSV_PATH: &'static str = "teams_rtp_records.csv";

/// Frames that may wait for the PCAP writer.
pub const PCAP_CHANNEL_CAPACITY: usize = 2_000_000;

/// Records that may wait for the record sink.
pub const RECORD_CHANNEL_CAPACITY: usize = 2_000_000;

/// Batches that may wait for the session engine.
pub const BATCH_QUEUE_CAPACITY: usize = 64;

/// Packet counters.  They wrap around.
#[derive(Clone, Copy, Debug, PartialEq, Eq, Structural)]
pub struct TeamsCounters {
    /// Teams UDP via IPv4.
    pub ipv4: usize,
    /// Teams UDP via IPv6.
    pub ipv6: usize,
    /// RTP, kept.
    pub rtp: usize,
    /// RTCP, discarded.
    pub rtcp: usize,
    /// STUN/TURN, discarded.
    pub stun: usize,
    /// DTLS, discarded.
    pub dtls: usize,
    /// QUIC, discarded.
    pub quic: usize,
    /// Everything else, discarded.
    pub unknown: usize,
    /// Frames that the PCAP queue took.
    pub pcap_queued: usize,
    /// Frames lost because the PCAP queue was full.
    pub pcap_dropped: usize,
}

/// How far the shutdown has come.
#[derive(Clone, Copy, Debug, PartialEq, Eq, Structural)]
pub enum Stage {
    /// Not shut down.
    Running,
    /// The PCAP writer has to be stopped.
    StoppingWriter,
    /// The PCAP writer was told to stop; the record sink has to be stopped.
    StoppingRecords,
    /// Both were told to stop.
    Stopped,
}

/// The Microsoft Teams platform.
pub struct TeamsPlatform {
    packet_tx: Outbox<PcapMessage>,
    record_tx: Outbox<RecordMessage>,
    counters: TeamsCounters,
    record_stats: RecordStats,
    stage: Stage,
}

/// Mathematical model of a [`TeamsPlatform`].
#[verifier::ext_equal]
pub struct TeamsModel {
    /// The PCAP queue.
    pub packet_tx: Sender<PcapMessage>,
    /// All messages that were offered to the PCAP queue.
    pub packets_sent: Seq<Attempt<PcapMessage>>,
    /// The queue of the record sink.
    pub record_tx: Sender<RecordMessage>,
    /// All messages that were offered to the record sink.
    pub records_sent: Seq<Attempt<RecordMessage>>,
    pub counters: TeamsCounters,
    pub records: RecordCounts,
    pub stage: Stage,
}

impl View for TeamsPlatform {
    type V = TeamsModel;

    closed spec fn view(&self) -> TeamsModel {
        TeamsModel {
            packet_tx: self.packet_tx.queue(),
            packets_sent: self.packet_tx.log(),
            record_tx: self.record_tx.queue(),
            records_sent: self.record_tx.log(),
            counters: self.counters,
            records: self.record_stats@,
            stage: self.stage,
        }
    }
}

/// What a Teams packet carries.  With fewer than two payload bytes the
/// demultiplexing would not be meaningful.
pub open spec fn kind_of(pkt: FrameModel) -> Protocol {
    if pkt.udp_payload.len() < 2 {
        Protocol::Unknown
    } else {
        protocol_of(pkt.udp_payload)
    }
}

/// The counters after a packet of the given IP version and kind.
pub open spec fn counted(c: TeamsCounters, is_ipv6: bool, kind: Protocol) -> TeamsCounters {
    let c = if is_ipv6 {
        TeamsCounters { ipv6: c.ipv6.wrapping_add(1), ..c }
    } else {
        TeamsCounters { ipv4: c.ipv4.wrapping_add(1), ..c }
    };
    match kind {
        Protocol::Rtp => TeamsCounters { rtp: c.rtp.wrapping_add(1), ..c },
        Protocol::Rtcp => TeamsCounters { rtcp: c.rtcp.wrapping_add(1), ..c },
        Protocol::Stun => TeamsCounters { stun: c.stun.wrapping_add(1), ..c },
        Protocol::Dtls => TeamsCounters { dtls: c.dtls.wrapping_add(1), ..c },
        Protocol::Quic => TeamsCounters { quic: c.quic.wrapping_add(1), ..c },
        Protocol::Unknown => TeamsCounters { unknown: c.unknown.wrapping_add(1), ..c },
    }
}

/// Where an RTP packet went: its frame, and its record.
pub struct Kept {
    /// What the PCAP queue did with the frame.
    pub frame: Result<(), Refusal<PcapMessage>>,
    /// What the record sink's queue did with the record.
    pub record: Result<(), Refusal<RecordMessage>>,
}

/// The packet counters after a frame was offered to the PCAP queue.
pub open spec fn frame_counted(c: TeamsCounters, taken: bool) -> TeamsCounters {
    if taken {
        TeamsCounters { pcap_queued: c.pcap_queued.wrapping_add(1), ..c }
    } else {
        TeamsCounters { pcap_dropped: c.pcap_dropped.wrapping_add(1), ..c }
    }
}

/// The record counters after a record was offered to the record sink.
pub open spec fn record_counted(c: RecordCounts, taken: bool) -> RecordCounts {
    if taken {
        c
    } else {
        RecordCounts { record_drops: c.record_drops.wrapping_add(1), ..c }
    }
}

/// Whether `after` is the platform after the capture of a frame was offered to
/// the PCAP queue, once, with the given outcome.  Nothing else was offered.
pub open spec fn frame_sent(
    m: TeamsModel,
    data: Seq<u8>,
    ts: Timestamp,
    sent: Result<(), Refusal<PcapMessage>>,
    after: TeamsModel,
) -> bool {
    &&& exists|packet: CapturedPacket|
        packet.wf() && #[trigger] packet.captures(data, ts) && logs(
            m.packets_sent,
            PcapMessage::Packet(packet),
            sent,
            after.packets_sent,
        )
    &&& after == (TeamsModel {
        packets_sent: after.packets_sent,
        counters: frame_counted(m.counters, sent is Ok),
        ..m
    })
}

/// Whether `after` is the platform after a record was offered to the record
/// sink, once, with the given outcome.  Nothing else was offered.
pub open spec fn record_sent(
    m: TeamsModel,
    record: RtpRecord,
    sent: Result<(), Refusal<RecordMessage>>,
    after: TeamsModel,
) -> bool {
    &&& logs(m.records_sent, RecordMessage::Record(record), sent, after.records_sent)
    &&& after == (TeamsModel {
        records_sent: after.records_sent,
        records: record_counted(m.records, sent is Ok),
        ..m
    })
}

/// Whether `after` is the platform after an RTP packet was kept: its frame was
/// offered to the PCAP queue and its record to the record sink, both once and
/// with the given time.
pub open spec fn keeps(
    m: TeamsModel,
    pkt: FrameModel,
    now: Timestamp,
    kept: Kept,
    after: TeamsModel,
) -> bool {
    let framed = TeamsModel {
        packets_sent: after.packets_sent,
        counters: frame_counted(m.counters, kept.frame is Ok),
        ..m
    };
    &&& frame_sent(m, pkt.raw, now, kept.frame, framed)
    &&& exists|record: RtpRecord|
        #[trigger] record@ == record_of(
            pkt.raw,
            pkt.is_ipv6,
            pkt.ip_start,
            pkt.udp_payload_offset,
            now,
        ) && record_sent(framed, record, kept.record, after)
}

/// The platform after the shutdown was begun.
pub open spec fn shutdown_begun(m: TeamsModel) -> TeamsModel {
    TeamsModel {
        stage: if m.stage == Stage::Running {
            Stage::StoppingWriter
        } else {
            m.stage
        },
        ..m
    }
}

/// Whether `after` is the platform after the PCAP writer was asked to stop.  It
/// is asked only while it has to be stopped, once per call.
pub open spec fn writer_asked(
    m: TeamsModel,
    sent: Option<Result<(), Refusal<PcapMessage>>>,
    after: TeamsModel,
) -> bool {
    match sent {
        Some(sent) => {
            &&& m.stage == Stage::StoppingWriter
            &&& logs(m.packets_sent, PcapMessage::Shutdown, sent, after.packets_sent)
            &&& after == (TeamsModel {
                packets_sent: after.packets_sent,
                stage: if sent is Ok {
                    Stage::StoppingRecords
                } else {
                    Stage::StoppingWriter
                },
                ..m
            })
        },
        None => m.stage != Stage::StoppingWriter && after == m,
    }
}

/// Whether `after` is the platform after the record sink was told to stop.  It is
/// told only after the PCAP writer, and only once; only a queue without a
/// receiver refuses it.
pub open spec fn records_told(
    m: TeamsModel,
    sent: Option<Result<(), Refusal<RecordMessage>>>,
    after: TeamsModel,
) -> bool {
    match sent {
        Some(sent) => {
            &&& m.stage == Stage::StoppingRecords
            &&& logs(m.records_sent, RecordMessage::Shutdown, sent, after.records_sent)
            &&& fate_of(sent) != Fate::Full
            &&& after == (TeamsModel {
                records_sent: after.records_sent,
                stage: Stage::Stopped,
                ..m
            })
        },
        None => m.stage != Stage::StoppingRecords && after == m,
    }
}

/// The part of the final report on all Teams packets.
pub open spec fn udp_report(c: TeamsCounters) -> Seq<LineModel> {
    let total = c.ipv4.wrapping_add(c.ipv6);
    let head = seq![
        LineModel::Text(""@),
        LineModel::Text("── Platform: Microsoft Teams ──────────────────────────"@),
    ];
    head + if total > 0 {
        seq![
            numbered("  Teams UDP packets        : "@, total),
            LineModel::Share { label: "  Via IPv4                 : "@, count: c.ipv4, total },
            LineModel::Share { label: "  Via IPv6                 : "@, count: c.ipv6, total },
        ]
    } else {
        seq![LineModel::Text("  Teams UDP packets        : 0"@)]
    }
}

/// The part of the final report on the kinds of packets.
pub open spec fn protocol_report(c: TeamsCounters) -> Seq<LineModel> {
    seq![
        LineModel::Text(""@),
        LineModel::Text("  RFC 7983 Protocol Filter"@),
        LineModel::Text("  ────────────────────────"@),
        numbered("  ✅ RTP packets (saved)   : "@, c.rtp),
        numbered("  ❌ STUN/TURN filtered    : "@, c.stun),
        numbered("  ❌ DTLS filtered         : "@, c.dtls),
        numbered("  ❌ QUIC filtered         : "@, c.quic),
        numbered("  ❌ RTCP filtered         : "@, c.rtcp),
        numbered("  ❌ UNKNOWN filtered      : "@, c.unknown),
    ]
}

/// The part of the final report on the sinks.
pub open spec fn sink_report(c: TeamsCounters, records: RecordCounts) -> Seq<LineModel> {
    seq![
        LineModel::Text(""@),
        numbered("  Dropped (queue full)     : "@, c.pcap_dropped),
        numbered("  Written to PCAP          : "@, c.pcap_queued),
        numbered("  Written to CSV           : "@, records.csv_records),
        numbered("  Duplicate RTP skipped    : "@, records.duplicate_records),
    ]
}

/// The part of the final report on what was lost behind the PCAP queue.
pub open spec fn drop_report(records: RecordCounts) -> Seq<LineModel> {
    let record_drops = if records.record_drops > 0 {
        seq![numbered("  ⚠️ Record queue drops    : "@, records.record_drops)]
    } else {
        Seq::empty()
    };
    let batch_drops = if records.batch_drops > 0 {
        seq![numbered("  ⚠️ Session batch drops   : "@, records.batch_drops)]
    } else {
        Seq::empty()
    };
    record_drops + batch_drops
}

/// The lines of the final report.
pub open spec fn teams_report(c: TeamsCounters, records: RecordCounts) -> Seq<LineModel> {
    udp_report(c) + protocol_report(c) + sink_report(c, records) + drop_report(records)
}

fn push_udp_report(out: &mut Vec<StatLine>, c: TeamsCounters)
    ensures
        line_models(final(out)@) == line_models(old(out)@) + udp_report(c),
{
    let total = c.ipv4.wrapping_add(c.ipv6);
    push_line(out, "");
    push_line(out, "── Platform: Microsoft Teams ──────────────────────────");
    if total > 0 {
        push_numbered(out, "  Teams UDP packets        : ", total);
        push_share(out, "  Via IPv4                 : ", c.ipv4, total);
        push_share(out, "  Via IPv6                 : ", c.ipv6, total);
    } else {
        push_line(out, "  Teams UDP packets        : 0");
    }
    assert(line_models(out@) =~= line_models(old(out)@) + udp_report(c));
}

fn push_protocol_report(out: &mut Vec<StatLine>, c: TeamsCounters)
    ensures
        line_models(final(out)@) == line_models(old(out)@) + protocol_report(c),
{
    push_line(out, "");
    push_line(out, "  RFC 7983 Protocol Filter");
    push_line(out, "  ────────────────────────");
    push_numbered(out, "  ✅ RTP packets (saved)   : ", c.rtp);
    push_numbered(out, "  ❌ STUN/TURN filtered    : ", c.stun);
    push_numbered(out, "  ❌ DTLS filtered         : ", c.dtls);
    push_numbered(out, "  ❌ QUIC filtered         : ", c.quic);
    push_numbered(out, "  ❌ RTCP filtered         : ", c.rtcp);
    push_numbered(out, "  ❌ UNKNOWN filtered      : ", c.unknown);
    assert(line_models(out@) =~= line_models(old(out)@) + protocol_report(c));
}

fn push_sink_report(out: &mut Vec<StatLine>, c: TeamsCounters, records: &RecordStats)
    ensures
        line_models(final(out)@) == line_models(old(out)@) + sink_report(c, records@),
{
    push_line(out, "");
    push_numbered(out, "  Dropped (queue full)     : ", c.pcap_dropped);
    push_numbered(out, "  Written to PCAP          : ", c.pcap_queued);
    push_numbered(out, "  Written to CSV           : ", records.csv_records());
    push_numbered(out, "  Duplicate RTP skipped    : ", records.duplicate_records());
    assert(line_models(out@) =~= line_models(old(out)@) + sink_report(c, records@));
}

fn push_drop_report(out: &mut Vec<StatLine>, records: &RecordStats)
    ensures
        line_models(final(out)@) == line_models(old(out)@) + drop_report(records@),
{
    if records.record_drops() > 0 {
        push_numbered(out, "  ⚠️ Record queue drops    : ", records.record_drops());
    }
    if records.batch_drops() > 0 {
        push_numbered(out, "  ⚠️ Session batch drops   : ", records.batch_drops());
    }
    assert(line_models(out@) =~= line_models(old(out)@) + drop_report(records@));
}

impl TeamsPlatform {
    /// A platform that sends frames and records to the given queues.
    pub fn start(packet_tx: Sender<PcapMessage>, record_tx: Sender<RecordMessage>) -> (r:
        TeamsPlatform)
        ensures
            r@ == (TeamsModel {
                packet_tx,
                packets_sent: Seq::empty(),
                record_tx,
                records_sent: Seq::empty(),
                counters: TeamsCounters {
                    ipv4: 0,
                    ipv6: 0,
                    rtp: 0,
                    rtcp: 0,
                    stun: 0,
                    dtls: 0,
                    quic: 0,
                    unknown: 0,
                    pcap_queued: 0,
                    pcap_dropped: 0,
                },
                records: RecordCounts {
                    csv_records: 0,
                    record_drops: 0,
                    batch_drops: 0,
                    duplicate_records: 0,
                },
                stage: Stage::Running,
            }),
    {
        TeamsPlatform {
            packet_tx: Outbox::new(packet_tx),
            record_tx: Outbox::new(record_tx),
            counters: TeamsCounters {
                ipv4: 0,
                ipv6: 0,
                rtp: 0,
                rtcp: 0,
                stun: 0,
                dtls: 0,
                quic: 0,
                unknown: 0,
                pcap_queued: 0,
                pcap_dropped: 0,
            },
            record_stats: RecordStats::new(),
            stage: Stage::Running,
        }
    }

    /// The packet counters.
    pub fn counters(&self) -> (r: TeamsCounters)
        ensures
            r == self@.counters,
    {
        self.counters
    }

    /// The counters of the record sink, which the sink updates.
    pub fn record_stats_mut(&mut self) -> (r: &mut RecordStats)
        ensures
            r@ == old(self)@.records,
            final(self)@ == (TeamsModel { records: final(r)@, ..old(self)@ }),
    {
        &mut self.record_stats
    }

    /// Count a packet and tell what it carries.
    pub fn count_packet(&mut self, pkt: &ParsedPacket) -> (kind: Protocol)
        ensures
            kind == kind_of(pkt@),
            final(self)@ == (TeamsModel {
                counters: counted(old(self)@.counters, pkt.is_ipv6, kind),
                ..old(self)@
            }),
    {
        if pkt.is_ipv6 {
            self.counters.ipv6 = self.counters.ipv6.wrapping_add(1);
        } else {
            self.counters.ipv4 = self.counters.ipv4.wrapping_add(1);
        }
        let kind = if pkt.udp_payload.len() < 2 {
            Protocol::Unknown
        } else {
            classify_protocol(pkt.udp_payload)
        };
        match kind {
            Protocol::Rtp => {
                self.counters.rtp = self.counters.rtp.wrapping_add(1);
            },
            Protocol::Rtcp => {
                self.counters.rtcp = self.counters.rtcp.wrapping_add(1);
            },
            Protocol::Stun => {
                self.counters.stun = self.counters.stun.wrapping_add(1);
            },
            Protocol::Dtls => {
                self.counters.dtls = self.counters.dtls.wrapping_add(1);
            },
            Protocol::Quic => {
                self.counters.quic = self.counters.quic.wrapping_add(1);
            },
            Protocol::Unknown => {
                self.counters.unknown = self.counters.unknown.wrapping_add(1);
            },
        }
        kind
    }

    /// Account for the outcome of offering a frame to the PCAP queue.
    pub fn settle_frame(&mut self, taken: bool)
        ensures
            final(self)@ == (TeamsModel {
                counters: frame_counted(old(self)@.counters, taken),
                ..old(self)@
            }),
    {
        if taken {
            self.counters.pcap_queued = self.counters.pcap_queued.wrapping_add(1);
        } else {
            self.counters.pcap_dropped = self.counters.pcap_dropped.wrapping_add(1);
        }
    }

    /// Account for the outcome of offering a record to the record sink.
    pub fn settle_record(&mut self, taken: bool)
        ensures
            final(self)@ == (TeamsModel {
                records: record_counted(old(self)@.records, taken),
                ..old(self)@
            }),
    {
        if !taken {
            self.record_stats.inc_record_drops();
        }
    }

    /// Copy a frame into a fixed buffer and offer it to the PCAP queue.  Never
    /// waits; a frame that the queue does not take comes back and is counted as
    /// dropped.
    pub fn send_packet(&mut self, data: &[u8], ts: Timestamp) -> (r: Result<
        (),
        Refusal<PcapMessage>,
    >)
        ensures
            frame_sent(old(self)@, data@, ts, r, final(self)@),
    {
        let packet = CapturedPacket::capture(data, ts);
        let ghost captured = packet;
        let r = self.packet_tx.offer(PcapMessage::Packet(packet));
        self.settle_frame(r.is_ok());
        assert(captured.captures(data@, ts));
        r
    }

    /// Offer a record to the record sink.  Never waits; a record that the queue
    /// does not take comes back and is counted as dropped.
    pub fn send_record(&mut self, record: RtpRecord) -> (r: Result<(), Refusal<RecordMessage>>)
        ensures
            record_sent(old(self)@, record, r, final(self)@),
    {
        let r = self.record_tx.offer(RecordMessage::Record(record));
        self.settle_record(r.is_ok());
        r
    }

    /// Keep an RTP packet: the frame goes to the PCAP queue, its record to the
    /// record sink.
    pub fn keep_rtp(&mut self, pkt: &ParsedPacket, now: Timestamp) -> (r: Kept)
        requires
            frame(pkt.raw@) == Some(pkt@),
            protocol_of(pkt.udp_payload@) == Protocol::Rtp,
        ensures
            keeps(old(self)@, pkt@, now, r, final(self)@),
    {
        proof {
            rtp_packets_have_records(pkt.raw@);
        }
        let frame = self.send_packet(pkt.raw, now);
        let record = parse_rtp_record(
            pkt.raw,
            pkt.is_ipv6,
            pkt.ip_start,
            pkt.udp_payload_offset,
            now,
        ).unwrap();
        let ghost parsed = record;
        let record = self.send_record(record);
        assert(parsed@ == record_of(
            pkt@.raw,
            pkt@.is_ipv6,
            pkt@.ip_start,
            pkt@.udp_payload_offset,
            now,
        ));
        Kept { frame, record }
    }

    /// Ask the PCAP writer to stop, if the shutdown has come to that.  The queue
    /// may be full when the capture ends; then the request comes back and has to
    /// be repeated.
    pub fn offer_shutdown(&mut self) -> (r: Option<Result<(), Refusal<PcapMessage>>>)
        ensures
            writer_asked(old(self)@, r, final(self)@),
    {
        if self.stage != Stage::StoppingWriter {
            return None;
        }
        let sent = self.packet_tx.offer(PcapMessage::Shutdown);
        if sent.is_ok() {
            self.stage = Stage::StoppingRecords;
        }
        Some(sent)
    }

    /// Tell the record sink to stop, if the PCAP writer was told.  Waits where
    /// the queue is full.
    pub fn stop_records(&mut self) -> (r: Option<Result<(), Refusal<RecordMessage>>>)
        ensures
            records_told(old(self)@, r, final(self)@),
    {
        if self.stage != Stage::StoppingRecords {
            return None;
        }
        let sent = self.record_tx.send(RecordMessage::Shutdown);
        self.stage = Stage::Stopped;
        Some(sent)
    }
}

impl Platform for TeamsPlatform {
    type Outcome = Option<Kept>;

    open spec fn claims(&self, pkt: FrameModel) -> bool {
        teams_packet(pkt)
    }

    open spec fn handles(
        self,
        pkt: FrameModel,
        now: Timestamp,
        after: Self,
        out: Option<Kept>,
    ) -> bool {
        let m = TeamsModel {
            counters: counted(self@.counters, pkt.is_ipv6, kind_of(pkt)),
            ..self@
        };
        match out {
            Some(kept) => kind_of(pkt) == Protocol::Rtp && keeps(m, pkt, now, kept, after@),
            None => kind_of(pkt) != Protocol::Rtp && after@ == m,
        }
    }

    open spec fn shuts_down(self, after: Self) -> bool {
        after@ == shutdown_begun(self@)
    }

    open spec fn running(&self) -> bool {
        self@.stage == Stage::Running
    }

    open spec fn counts(&self) -> SnapshotModel {
        SnapshotModel {
            name: "teams"@,
            rtp_packets: self@.counters.rtp,
            dropped_packets: self@.counters.pcap_dropped,
            csv_records: self@.records.csv_records,
            duplicate_records: self@.records.duplicate_records,
        }
    }

    open spec fn report(&self) -> Seq<LineModel> {
        teams_report(self@.counters, self@.records)
    }

    fn name(&self) -> (r: &'static str) {
        "teams"
    }

    fn classify(&self, pkt: &ParsedPacket) -> (r: bool) {
        classify::is_teams(pkt)
    }

    fn handle_packet(&mut self, pkt: &ParsedPacket, now: Timestamp) -> (out: Option<Kept>) {
        let kind = self.count_packet(pkt);
        if kind == Protocol::Rtp {
            Some(self.keep_rtp(pkt, now))
        } else {
            None
        }
    }

    fn shutdown(&mut self) -> (r: bool) {
        if self.stage != Stage::Running {
            return false;
        }
        self.stage = Stage::StoppingWriter;
        true
    }

    fn snapshot(&self) -> (r: PlatformSnapshot) {
        PlatformSnapshot {
            name: "teams",
            rtp_packets: self.counters.rtp,
            dropped_packets: self.counters.pcap_dropped,
            csv_records: self.record_stats.csv_records(),
            duplicate_records: self.record_stats.duplicate_records(),
        }
    }

    fn final_stats(&self) -> (r: Vec<StatLine>) {
        let mut out: Vec<StatLine> = Vec::new();
        assert(line_models(out@) =~= Seq::<LineModel>::empty());
        push_udp_report(&mut out, self.counters);
        assert(line_models(out@) =~= udp_report(self.counters));
        push_protocol_report(&mut out, self.counters);
        push_sink_report(&mut out, self.counters, &self.record_stats);
        push_drop_report(&mut out, &self.record_stats);
        out
    }
}

/// Whether the counters agree: every packet has one IP version and one kind,
/// and every RTP frame was either queued or dropped.
pub open spec fn balanced(c: TeamsCounters) -> bool {
    &&& c.ipv4 + c.ipv6 == c.rtp + c.rtcp + c.stun + c.dtls + c.quic + c.unknown
    &&& c.rtp == c.pcap_queued + c.pcap_dropped
}

/// The counters stay in agreement with every packet, as long as none of them
/// has reached its limit.
pub proof fn packets_keep_balance(
    before: TeamsPlatform,
    pkt: FrameModel,
    now: Timestamp,
    after: TeamsPlatform,
    out: Option<Kept>,
)
    requires
        before.handles(pkt, now, after, out),
        balanced(before@.counters),
        before@.counters.ipv4 + before@.counters.ipv6 < usize::MAX,
    ensures
        balanced(after@.counters),
{
}

/// RTP is kept and everything else is not.  An RTP packet adds one message to
/// what the PCAP queue was offered, the capture of its frame, and one to what the
/// record sink was offered, its record, both with the given time; a queue that
/// does not take its message raises its count of drops by one.  Any other packet
/// is offered nowhere and leaves no trace beyond the counters.
pub proof fn only_rtp_is_kept(
    before: TeamsPlatform,
    pkt: FrameModel,
    now: Timestamp,
    after: TeamsPlatform,
    out: Option<Kept>,
)
    requires
        before.handles(pkt, now, after, out),
    ensures
        out is Some <==> kind_of(pkt) == Protocol::Rtp,
        after@.packet_tx == before@.packet_tx,
        after@.record_tx == before@.record_tx,
        match out {
            Some(kept) => {
                let frame = after@.packets_sent.last();
                let record = after@.records_sent.last();
                &&& after@.packets_sent == before@.packets_sent.push(frame)
                &&& frame.fate == fate_of(kept.frame)
                &&& frame.message matches PcapMessage::Packet(p) && p.wf() && p.captures(
                    pkt.raw,
                    now,
                )
                &&& after@.records_sent == before@.records_sent.push(record)
                &&& record.fate == fate_of(kept.record)
                &&& record.message matches RecordMessage::Record(r) && r@ == record_of(
                    pkt.raw,
                    pkt.is_ipv6,
                    pkt.ip_start,
                    pkt.udp_payload_offset,
                    now,
                )
                &&& after@.counters.pcap_dropped == before@.counters.pcap_dropped.wrapping_add(
                    if frame.fate == Fate::Taken {
                        0
                    } else {
                        1
                    },
                )
                &&& after@.records.record_drops == before@.records.record_drops.wrapping_add(
                    if record.fate == Fate::Taken {
                        0
                    } else {
                        1
                    },
                )
            },
            None => {
                &&& after@.packets_sent == before@.packets_sent
                &&& after@.records_sent == before@.records_sent
                &&& after@.records == before@.records
                &&& after@.counters.rtp == before@.counters.rtp
                &&& after@.counters.pcap_queued == before@.counters.pcap_queued
                &&& after@.counters.pcap_dropped == before@.counters.pcap_dropped
            },
        },
{
}

/// How often the PCAP writer was told to stop.
pub open spec fn writer_stops(sent: Seq<Attempt<PcapMessage>>) -> nat
    decreases sent.len(),
{
    if sent.len() == 0 {
        0
    } else {
        writer_stops(sent.drop_last()) + if sent.last() == (Attempt {
            message: PcapMessage::Shutdown,
            fate: Fate::Taken,
        }) {
            1nat
        } else {
            0
        }
    }
}

/// How often the record sink was told to stop, whether or not it still received.
pub open spec fn record_stops(sent: Seq<Attempt<RecordMessage>>) -> nat
    decreases sent.len(),
{
    if sent.len() == 0 {
        0
    } else {
        record_stops(sent.drop_last()) + if sent.last().message == RecordMessage::Shutdown {
            1nat
        } else {
            0
        }
    }
}

/// Whether a shutdown has sent what belongs to its stage: before the writer was
/// told nothing, then one request to the PCAP writer, and at the end one to the
/// record sink too.
pub open spec fn stops_in_order(m: TeamsModel) -> bool {
    &&& writer_stops(m.packets_sent) == if m.stage == Stage::StoppingRecords || m.stage
        == Stage::Stopped {
        1nat
    } else {
        0
    }
    &&& record_stops(m.records_sent) == if m.stage == Stage::Stopped {
        1nat
    } else {
        0
    }
}

/// One of the operations of a platform.
pub enum TeamsOp {
    Handle(FrameModel, Timestamp, Option<Kept>),
    SendPacket(Seq<u8>, Timestamp, Result<(), Refusal<PcapMessage>>),
    SendRecord(RtpRecord, Result<(), Refusal<RecordMessage>>),
    /// A change of counters alone.
    Count,
    Shutdown,
    OfferShutdown(Option<Result<(), Refusal<PcapMessage>>>),
    StopRecords(Option<Result<(), Refusal<RecordMessage>>>),
}

/// Whether an operation leads from one platform to the next.
pub open spec fn operates(before: TeamsPlatform, op: TeamsOp, after: TeamsPlatform) -> bool {
    match op {
        TeamsOp::Handle(pkt, now, out) => before.handles(pkt, now, after, out),
        TeamsOp::SendPacket(data, ts, sent) => frame_sent(before@, data, ts, sent, after@),
        TeamsOp::SendRecord(record, sent) => record_sent(before@, record, sent, after@),
        TeamsOp::Count => after@ == (TeamsModel {
            counters: after@.counters,
            records: after@.records,
            ..before@
        }),
        TeamsOp::Shutdown => before.shuts_down(after),
        TeamsOp::OfferShutdown(sent) => writer_asked(before@, sent, after@),
        TeamsOp::StopRecords(sent) => records_told(before@, sent, after@),
    }
}

/// Every operation keeps the messages of a shutdown in order.
proof fn lemma_stops_in_order(before: TeamsPlatform, op: TeamsOp, after: TeamsPlatform)
    requires
        operates(before, op, after),
        stops_in_order(before@),
    ensures
        stops_in_order(after@),
{
    let (p, q) = (before@.packets_sent, after@.packets_sent);
    let (r, s) = (before@.records_sent, after@.records_sent);
    if q.len() > p.len() {
        assert(q.drop_last() =~= p);
    }
    if s.len() > r.len() {
        assert(s.drop_last() =~= r);
    }
}

/// However often a platform is shut down, and whatever comes in between, the PCAP
/// queue takes at most one request to stop, and the record sink is sent at most
/// one, after the other.  A platform that has stopped has sent both.
pub proof fn shutdown_tells_each_once(platforms: Seq<TeamsPlatform>, ops: Seq<TeamsOp>)
    requires
        platforms.len() == ops.len() + 1,
        platforms[0]@.packets_sent.len() == 0,
        platforms[0]@.records_sent.len() == 0,
        platforms[0]@.stage == Stage::Running,
        forall|i: int|
            0 <= i < ops.len() ==> operates(platforms[i], #[trigger] ops[i], platforms[i + 1]),
    ensures
        ({
            let m = platforms.last()@;
            &&& stops_in_order(m)
            &&& writer_stops(m.packets_sent) <= 1
            &&& record_stops(m.records_sent) <= writer_stops(m.packets_sent)
            &&& m.stage == Stage::Stopped ==> record_stops(m.records_sent) == 1
        }),
    decreases ops.len(),
{
    if ops.len() > 0 {
        let n = ops.len() as int;
        let (shorter, before) = (platforms.drop_last(), ops.drop_last());
        assert forall|i: int| 0 <= i < before.len() implies operates(
            shorter[i],
            #[trigger] before[i],
            shorter[i + 1],
        ) by {
            assert(before[i] == ops[i]);
        }
        shutdown_tells_each_once(shorter, before);
        lemma_stops_in_order(platforms[n - 1], ops[n - 1], platforms[n]);
    }
}

/// What one packet adds to a counter.
pub open spec fn bumped(count: usize, counts: bool) -> usize {
    if counts {
        count.wrapping_add(1)
    } else {
        count
    }
}

/// A packet adds one to the counter of its IP version and one to the counter of
/// what its payload carries; a payload of fewer than two bytes is unknown.  RTP
/// adds one to the queued or the dropped frames as well.
pub proof fn packets_count_once(
    before: TeamsPlatform,
    pkt: FrameModel,
    now: Timestamp,
    after: TeamsPlatform,
    out: Option<Kept>,
)
    requires
        before.handles(pkt, now, after, out),
    ensures
        ({
            let (a, b) = (before@.counters, after@.counters);
            let short = pkt.udp_payload.len() < 2;
            let kind = protocol_of(pkt.udp_payload);
            &&& b.ipv4 == bumped(a.ipv4, !pkt.is_ipv6)
            &&& b.ipv6 == bumped(a.ipv6, pkt.is_ipv6)
            &&& b.rtp == bumped(a.rtp, !short && kind == Protocol::Rtp)
            &&& b.rtcp == bumped(a.rtcp, !short && kind == Protocol::Rtcp)
            &&& b.stun == bumped(a.stun, !short && kind == Protocol::Stun)
            &&& b.dtls == bumped(a.dtls, !short && kind == Protocol::Dtls)
            &&& b.quic == bumped(a.quic, !short && kind == Protocol::Quic)
            &&& b.unknown == bumped(a.unknown, short || kind == Protocol::Unknown)
            &&& b.pcap_queued == bumped(a.pcap_queued, out matches Some(k) && k.frame is Ok)
            &&& b.pcap_dropped == bumped(a.pcap_dropped, out matches Some(k) && k.frame is Err)
            &&& after@.records.csv_records == before@.records.csv_records
            &&& after@.records.batch_drops == before@.records.batch_drops
            &&& after@.records.duplicate_records == before@.records.duplicate_records
            &&& after@.stage == before@.stage
        }),
{
}

/// What the live statistics show of the platform.
pub proof fn snapshots_show_the_counters(p: TeamsPlatform)
    ensures
        p.counts().name == "teams"@,
        p.counts().rtp_packets == p@.counters.rtp,
        p.counts().dropped_packets == p@.counters.pcap_dropped,
        p.counts().csv_records == p@.records.csv_records,
        p.counts().duplicate_records == p@.records.duplicate_records,
        p.running() <==> p@.stage == Stage::Running,
{
}

/// Where the lines of the final report stand: the packets by IP version come
/// first, then the protocols, then the sinks.
proof fn lemma_report_parts(c: TeamsCounters, records: RecordCounts)
    ensures
        ({
            let all = teams_report(c, records);
            let n = udp_report(c).len();
            &&& all.len() == n + 14 + drop_report(records).len()
            &&& forall|i: int| 0 <= i < n ==> all[i] == #[trigger] udp_report(c)[i]
            &&& forall|i: int| 0 <= i < 9 ==> all[n + i] == #[trigger] protocol_report(c)[i]
            &&& forall|i: int|
                0 <= i < 5 ==> all[n + 9 + i] == #[trigger] sink_report(c, records)[i]
            &&& forall|i: int|
                0 <= i < drop_report(records).len() ==> all[n + 14 + i] == #[trigger] drop_report(
                    records,
                )[i]
        }),
{
}

/// The final report shows every counter under its own label.
pub proof fn final_reports_show_every_counter(p: TeamsPlatform)
    ensures
        ({
            let (c, r) = (p@.counters, p@.records);
            let all = p.report();
            let total = c.ipv4.wrapping_add(c.ipv6);
            let n = if total > 0 {
                5int
            } else {
                3
            };
            &&& total > 0 ==> {
                &&& all[2] == numbered("  Teams UDP packets        : "@, total)
                &&& all[3] == LineModel::Share {
                    label: "  Via IPv4                 : "@,
                    count: c.ipv4,
                    total,
                }
                &&& all[4] == LineModel::Share {
                    label: "  Via IPv6                 : "@,
                    count: c.ipv6,
                    total,
                }
            }
            &&& total == 0 ==> all[2] == LineModel::Text("  Teams UDP packets        : 0"@)
            &&& all[n + 3] == numbered("  ✅ RTP packets (saved)   : "@, c.rtp)
            &&& all[n + 4] == numbered("  ❌ STUN/TURN filtered    : "@, c.stun)
            &&& all[n + 5] == numbered("  ❌ DTLS filtered         : "@, c.dtls)
            &&& all[n + 6] == numbered("  ❌ QUIC filtered         : "@, c.quic)
            &&& all[n + 7] == numbered("  ❌ RTCP filtered         : "@, c.rtcp)
            &&& all[n + 8] == numbered("  ❌ UNKNOWN filtered      : "@, c.unknown)
            &&& all[n + 10] == numbered("  Dropped (queue full)     : "@, c.pcap_dropped)
            &&& all[n + 11] == numbered("  Written to PCAP          : "@, c.pcap_queued)
            &&& all[n + 12] == numbered("  Written to CSV           : "@, r.csv_records)
            &&& all[n + 13] == numbered("  Duplicate RTP skipped    : "@, r.duplicate_records)
            &&& r.record_drops > 0 ==> all[n + 14] == numbered(
                "  ⚠️ Record queue drops    : "@,
                r.record_drops,
            )
            &&& r.batch_drops > 0 ==> all.last() == numbered(
                "  ⚠️ Session batch drops   : "@,
                r.batch_drops,
            )
            &&& all.len() == n + 14 + (if r.record_drops > 0 {
                1int
            } else {
                0
            }) + (if r.batch_drops > 0 {
                1int
            } else {
                0
            })
        }),
{
    let (c, r) = (p@.counters, p@.records);
    lemma_report_parts(c, r);
    let u = udp_report(c);
    let q = protocol_report(c);
    let s = sink_report(c, r);
    let d = drop_report(r);
    assert(u[2] == u[2] && q[3] == q[3] && q[4] == q[4] && q[5] == q[5] && q[6] == q[6]);
    assert(q[7] == q[7] && q[8] == q[8] && s[1] == s[1] && s[2] == s[2] && s[3] == s[3]);
    assert(s[4] == s[4]);
    if d.len() > 0 {
        assert(d[0] == d[0] && d[d.len() - 1] == d[d.len() - 1]);
    }
    if c.ipv4.wrapping_add(c.ipv6) > 0 {
        assert(u[3] == u[3] && u[4] == u[4]);
    }
}

/// A shutdown goes forward: it begins once; while the PCAP writer has to be
/// stopped, every call offers it the request, until the queue has taken one; and
/// after that the record sink is sent its request.  Each request is the only
/// message of its call, and nothing is sent in any other stage.
pub proof fn shutdowns_go_forward(
    m: TeamsModel,
    asked: Option<Result<(), Refusal<PcapMessage>>>,
    after_asking: TeamsModel,
    told: Option<Result<(), Refusal<RecordMessage>>>,
    after_telling: TeamsModel,
)
    requires
        writer_asked(m, asked, after_asking),
        records_told(m, told, after_telling),
    ensures
        m.stage == Stage::Running ==> shutdown_begun(m).stage == Stage::StoppingWriter,
        m.stage != Stage::Running ==> shutdown_begun(m) == m,
        shutdown_begun(m).packets_sent == m.packets_sent,
        shutdown_begun(m).records_sent == m.records_sent,
        asked is Some <==> m.stage == Stage::StoppingWriter,
        asked is None ==> after_asking == m,
        asked matches Some(sent) ==> {
            &&& after_asking.packets_sent.len() == m.packets_sent.len() + 1
            &&& after_asking.packets_sent.drop_last() == m.packets_sent
            &&& after_asking.packets_sent.last().message == PcapMessage::Shutdown
            &&& after_asking.records_sent == m.records_sent
            &&& sent is Ok ==> after_asking.stage == Stage::StoppingRecords
            &&& sent is Err ==> after_asking.stage == Stage::StoppingWriter
        },
        told is Some <==> m.stage == Stage::StoppingRecords,
        told is None ==> after_telling == m,
        told is Some ==> {
            &&& after_telling.records_sent.len() == m.records_sent.len() + 1
            &&& after_telling.records_sent.drop_last() == m.records_sent
            &&& after_telling.records_sent.last().message == RecordMessage::Shutdown
            &&& after_telling.packets_sent == m.packets_sent
            &&& after_telling.stage == Stage::Stopped
        },
{
    if asked is Some {
        assert(after_asking.packets_sent.drop_last() =~= m.packets_sent);
    }
    if told is Some {
        assert(after_telling.records_sent.drop_last() =~= m.records_sent);
    }
}

/// The headings of the final report.
pub proof fn final_reports_have_headings(p: TeamsPlatform)
    ensures
        ({
            let c = p@.counters;
            let n = if c.ipv4.wrapping_add(c.ipv6) > 0 {
                5int
            } else {
                3
            };
            let all = p.report();
            &&& all[0] == LineModel::Text(""@)
            &&& all[1] == LineModel::Text(
                "── Platform: Microsoft Teams ──────────────────────────"@,
            )
            &&& all[n] == LineModel::Text(""@)
            &&& all[n + 1] == LineModel::Text("  RFC 7983 Protocol Filter"@)
            &&& all[n + 2] == LineModel::Text("  ────────────────────────"@)
            &&& all[n + 9] == LineModel::Text(""@)
        }),
{
    let (c, r) = (p@.counters, p@.records);
    lemma_report_parts(c, r);
    let u = udp_report(c);
    let q = protocol_report(c);
    let s = sink_report(c, r);
    assert(u[0] == u[0] && u[1] == u[1] && q[0] == q[0] && q[1] == q[1] && q[2] == q[2]);
    assert(s[0] == s[0]);
}

} // verus!
