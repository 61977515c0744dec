//! The session of one client, and what it reports at the end of a bin.

#[allow(unused_imports)]
use super::client::client_ip;
use super::identity::new_session_id;
#[allow(unused_imports)]
use super::identity::{id_hash, session_id};
use super::media_metrics::{MediaMetrics, MediaReport};
#[allow(unused_imports)]
use super::media_metrics::{
    audio_of, bins_start_silent, heard, media_adds_up, video_of, MediaModel,
};
use super::network_metrics::{NetworkCounts, NetworkMetrics};
#[allow(unused_imports)]
use super::network_metrics::{going, total_len, traffic_adds_up, wrapped, NetworkModel};
use crate::models::rtp_record::RtpRecord;
#[allow(unused_imports)]
use crate::models::rtp_record::RecordModel;
use vstd::prelude::*;

verus! {

/// A client that was silent for longer than this starts a new session.
pub const SESSION_TIMEOUT_NS: u64 = 120_000_000_000;

/// The length of a bin.
pub const BIN_SIZE_NS: u64 = 5_000_000_000;

/// The bin that holds a point in time.
pub open spec fn bin_of(time_ns: u64) -> u64 {
    time_ns / BIN_SIZE_NS
}

/// The end of a bin.  It wraps around for the last bin that 64 bits can hold.
pub open spec fn bin_end(bin_id: u64) -> u64 {
    bin_id.wrapping_add(1).wrapping_mul(BIN_SIZE_NS)
}

/// The session of one client.
pub struct SessionState {
    session_id: String,
    client_ip: String,
    first_seen_ns: u64,
    last_seen_ns: u64,
    current_bin_id: u64,
    network: NetworkMetrics,
    media: MediaMetrics,
}

/// Mathematical model of a [`SessionState`].
#[verifier::ext_equal]
pub struct SessionModel {
    pub session_id: Seq<char>,
    pub client_ip: Seq<char>,
    pub first_seen_ns: u64,
    pub last_seen_ns: u64,
    pub current_bin_id: u64,
    pub network: NetworkModel,
    pub media: MediaModel,
}

impl View for SessionState {
    type V = SessionModel;

    closed spec fn view(&self) -> SessionModel {
        SessionModel {
            session_id: self.session_id@,
            client_ip: self.client_ip@,
            first_seen_ns: self.first_seen_ns,
            last_seen_ns: self.last_seen_ns,
            current_bin_id: self.current_bin_id,
            network: self.network@,
            media: self.media@,
        }
    }
}

/// What a session reports about a bin.
pub struct BinReport {
    pub client_ip: String,
    pub session_id: String,
    pub network: NetworkCounts,
    pub media: MediaReport,
    /// How long the session has lasted.
    pub session_age_ns: u64,
    /// The end of the bin.
    pub timestamp_ns: u64,
}

impl BinReport {
    /// Whether the report describes the bin that the session is in.
    pub open spec fn describes(self, s: SessionModel) -> bool {
        &&& self.client_ip@ == s.client_ip
        &&& self.session_id@ == s.session_id
        &&& self.network == s.network.counts
        &&& self.media.describes(s.media)
        &&& self.session_age_ns == s.last_seen_ns.saturating_sub(s.first_seen_ns)
        &&& self.timestamp_ns == bin_end(s.current_bin_id)
    }
}

impl SessionModel {
    /// A session that starts at the given time.
    pub open spec fn fresh(client: Seq<char>, first_seen_ns: u64) -> SessionModel {
        SessionModel {
            session_id: session_id(id_hash(client, first_seen_ns)),
            client_ip: client,
            first_seen_ns,
            last_seen_ns: first_seen_ns,
            current_bin_id: bin_of(first_seen_ns),
            network: NetworkModel::empty(),
            media: MediaModel::empty(),
        }
    }

    /// Whether the session is over at the given time.
    pub open spec fn expired(self, now_ns: u64) -> bool {
        now_ns.saturating_sub(self.last_seen_ns) > SESSION_TIMEOUT_NS
    }

    /// The session after a report, if there was something to report.
    pub open spec fn flushed(self) -> SessionModel {
        if self.network.has_data() {
            SessionModel {
                network: self.network.next_bin(),
                media: self.media.next_bin(),
                ..self
            }
        } else {
            self
        }
    }

    /// The session in the bin of the given time: where that lies ahead, the
    /// current bin is closed.
    pub open spec fn in_bin(self, bin_id: u64) -> SessionModel {
        if bin_id > self.current_bin_id {
            SessionModel { current_bin_id: bin_id, ..self.flushed() }
        } else {
            self
        }
    }

    /// The session after a packet is counted.
    pub open spec fn counting(self, r: RecordModel) -> SessionModel {
        SessionModel {
            network: self.network.after(r),
            media: self.media.after(r),
            last_seen_ns: r.arrival_epoch_ns,
            ..self
        }
    }

    /// Whether a packet at the given time makes the session report its current
    /// bin.
    pub open spec fn reports_at(self, now_ns: u64) -> bool {
        self.network.has_data() && (self.expired(now_ns) || bin_of(now_ns) > self.current_bin_id)
    }
}

/// The session of a client after a packet.  A new client, or one that was silent
/// for too long, gets a new session.
pub open spec fn session_after(s: Option<SessionModel>, r: RecordModel) -> SessionModel {
    let now = r.arrival_epoch_ns;
    let current = match s {
        Some(s) => if s.expired(now) {
            SessionModel::fresh(s.client_ip, now)
        } else {
            s
        },
        None => SessionModel::fresh(client_ip(r), now),
    };
    current.in_bin(bin_of(now)).counting(r)
}

/// Whether the session of a client, when a packet comes, gives this report.
pub open spec fn report_at(s: Option<SessionModel>, r: RecordModel, out: Option<BinReport>) -> bool {
    match out {
        Some(report) => s matches Some(s) && s.reports_at(r.arrival_epoch_ns) && report.describes(s),
        None => s matches Some(s) ==> !s.reports_at(r.arrival_epoch_ns),
    }
}

/// Report the current bin and start the next, if there was any traffic.
pub fn flush_session(state: &mut SessionState) -> (r: Option<BinReport>)
    ensures
        final(state)@ == old(state)@.flushed(),
        match r {
            Some(report) => old(state)@.network.has_data() && report.describes(old(state)@),
            None => !old(state)@.network.has_data(),
        },
{
    if !state.network.has_data() {
        return None;
    }
    let report = BinReport {
        client_ip: state.client_ip.clone(),
        session_id: state.session_id.clone(),
        network: state.network.counts(),
        media: state.media.report(),
        session_age_ns: state.last_seen_ns.saturating_sub(state.first_seen_ns),
        timestamp_ns: state.current_bin_id.wrapping_add(1).wrapping_mul(BIN_SIZE_NS),
    };
    state.network.reset_bin();
    state.media.reset_bin();
    Some(report)
}

/// Start a new session for the same client.
pub fn reset_session(state: &mut SessionState, first_seen_ns: u64)
    ensures
        final(state)@ == SessionModel::fresh(old(state)@.client_ip, first_seen_ns),
{
    state.session_id = new_session_id(state.client_ip.as_str(), first_seen_ns);
    state.first_seen_ns = first_seen_ns;
    state.last_seen_ns = first_seen_ns;
    state.current_bin_id = first_seen_ns / BIN_SIZE_NS;
    state.network = NetworkMetrics::new();
    state.media = MediaMetrics::new();
}

impl SessionState {
    /// A session of the client that starts at the given time.
    pub fn new(client_ip: String, first_seen_ns: u64) -> (r: SessionState)
        ensures
            r@ == SessionModel::fresh(client_ip@, first_seen_ns),
    {
        let session_id = new_session_id(client_ip.as_str(), first_seen_ns);
        SessionState {
            session_id,
            client_ip,
            first_seen_ns,
            last_seen_ns: first_seen_ns,
            current_bin_id: first_seen_ns / BIN_SIZE_NS,
            network: NetworkMetrics::new(),
            media: MediaMetrics::new(),
        }
    }

    /// Whether this is the session of the client.
    pub fn belongs_to(&self, client_ip: &String) -> (r: bool)
        ensures
            r == (self@.client_ip == client_ip@),
    {
        self.client_ip == *client_ip
    }

    /// Whether the session is over at the given time.
    pub fn is_expired(&self, now_ns: u64) -> (r: bool)
        ensures
            r == self@.expired(now_ns),
    {
        now_ns.saturating_sub(self.last_seen_ns) > SESSION_TIMEOUT_NS
    }

    /// Account for a packet of the client.
    pub fn accept(&mut self, record: &RtpRecord) -> (r: Option<BinReport>)
        ensures
            final(self)@ == session_after(Some(old(self)@), record@),
            report_at(Some(old(self)@), record@, r),
    {
        let now = record.arrival_epoch_ns;
        let bin_id = now / BIN_SIZE_NS;
        let mut report: Option<BinReport> = None;
        if self.is_expired(now) {
            report = flush_session(self);
            reset_session(self, now);
        } else if bin_id > self.current_bin_id {
            report = flush_session(self);
            self.current_bin_id = bin_id;
        }
        self.network.process_packet(record);
        self.media.process_packet(record);
        self.last_seen_ns = now;
        assert(self@ == session_after(Some(old(self)@), record@));
        report
    }
}

/// A bin ends after every point in time that it holds, at most one bin length
/// later; the last bin that 64 bits can hold is the exception.
pub proof fn bins_end_after_their_packets(time_ns: u64)
    requires
        bin_of(time_ns) < bin_of(u64::MAX),
    ensures
        time_ns < bin_end(bin_of(time_ns)) <= time_ns + BIN_SIZE_NS,
        bin_end(bin_of(time_ns)) % BIN_SIZE_NS == 0,
{
    let end = (bin_of(time_ns) + 1) * 5_000_000_000;
    assert(end <= u64::MAX);
    assert(bin_end(bin_of(time_ns)) == end) by {
        vstd::arithmetic::div_mod::lemma_small_mod(end as nat, 0x1_0000_0000_0000_0000);
    }
}

/// A report leaves nothing to report: only new traffic can make the session
/// report again.
pub proof fn flushing_leaves_no_data(s: SessionModel)
    ensures
        !s.flushed().network.has_data(),
        s.flushed().flushed() == s.flushed(),
        s.flushed().session_id == s.session_id,
        s.flushed().client_ip == s.client_ip,
        s.flushed().network.last_seq == s.network.last_seq,
{
}

/// The session of a client stays the client's, and is up to date with the
/// packet.
pub proof fn sessions_keep_their_client(s: Option<SessionModel>, r: RecordModel)
    requires
        s matches Some(s) ==> s.client_ip == client_ip(r),
    ensures
        session_after(s, r).client_ip == client_ip(r),
        session_after(s, r).last_seen_ns == r.arrival_epoch_ns,
        session_after(s, r).current_bin_id >= bin_of(r.arrival_epoch_ns),
{
}

/// Within the time limit a session keeps its identifier and its start.  Beyond
/// it, the session starts with the packet, under the identifier of its client
/// and that time, and counts this packet only.
pub proof fn silence_starts_a_new_session(s: SessionModel, r: RecordModel)
    ensures
        ({
            let after = session_after(Some(s), r);
            if r.arrival_epoch_ns > s.last_seen_ns + SESSION_TIMEOUT_NS {
                &&& after.session_id == session_id(id_hash(s.client_ip, r.arrival_epoch_ns))
                &&& after.first_seen_ns == r.arrival_epoch_ns
                &&& after.network == NetworkModel::empty().after(r)
                &&& after.media == MediaModel::empty().after(r)
            } else {
                after.session_id == s.session_id && after.first_seen_ns == s.first_seen_ns
            }
        }),
{
}

/// Bins are 5 seconds long and start at the epoch, and a bin is named by its end.
pub proof fn bins_are_five_seconds_long(time_ns: u64)
    ensures
        bin_of(time_ns) * 5_000_000_000 <= time_ns,
        time_ns < bin_of(time_ns) * 5_000_000_000 + 5_000_000_000,
        time_ns < u64::MAX - 5_000_000_000 ==> bin_end(bin_of(time_ns)) == bin_of(time_ns)
            * 5_000_000_000 + 5_000_000_000,
{
    if time_ns < u64::MAX - 5_000_000_000 {
        let end = (bin_of(time_ns) + 1) * 5_000_000_000;
        assert(bin_end(bin_of(time_ns)) == end) by {
            vstd::arithmetic::div_mod::lemma_small_mod(end as nat, 0x1_0000_0000_0000_0000);
        }
    }
}

/// A session is over when its client was silent for more than 120 seconds.
pub proof fn sessions_last_two_minutes(s: SessionModel, now_ns: u64)
    ensures
        s.expired(now_ns) <==> now_ns > s.last_seen_ns + 120_000_000_000,
{
}

/// A report ends a bin for all metrics: where there was traffic, no counter, byte,
/// SSRC or frame is carried over.  What stays is who the client is, when it was
/// seen, and the highest sequence numbers.  Without traffic nothing changes.
pub proof fn flushing_starts_afresh(s: SessionModel)
    ensures
        ({
            let t = s.flushed();
            let traffic = s.network.counts.uplink_packets > 0 || s.network.counts.downlink_packets
                > 0;
            &&& !traffic ==> t == s
            &&& traffic ==> {
                &&& t.media.silent()
                &&& t.media.streams.dom() == s.media.streams.dom()
                &&& t.network.counts.uplink_packets == 0
                &&& t.network.counts.downlink_packets == 0
                &&& t.network.counts.uplink_bytes == 0
                &&& t.network.counts.downlink_bytes == 0
                &&& t.network.counts.uplink_lost_packets == 0
                &&& t.network.counts.downlink_lost_packets == 0
                &&& t.network.last_seq == s.network.last_seq
                &&& t.session_id == s.session_id
                &&& t.client_ip == s.client_ip
                &&& t.first_seen_ns == s.first_seen_ns
                &&& t.last_seen_ns == s.last_seen_ns
                &&& t.current_bin_id == s.current_bin_id
            }
        }),
{
    bins_start_silent(s.media);
}

/// A new session starts with its first packet and has counted nothing before.
pub proof fn sessions_start_afresh(client: Seq<char>, now_ns: u64)
    ensures
        ({
            let s = SessionModel::fresh(client, now_ns);
            &&& s.client_ip == client
            &&& s.session_id == session_id(id_hash(client, now_ns))
            &&& s.first_seen_ns == now_ns
            &&& s.last_seen_ns == now_ns
            &&& s.current_bin_id == now_ns / 5_000_000_000
            &&& s.media.silent()
            &&& s.network.last_seq == Map::<u32, u16>::empty()
            &&& s.network.counts.uplink_packets == 0
            &&& s.network.counts.downlink_packets == 0
            &&& s.network.counts.uplink_bytes == 0
            &&& s.network.counts.downlink_bytes == 0
            &&& s.network.counts.uplink_lost_packets == 0
            &&& s.network.counts.downlink_lost_packets == 0
        }),
{
    bins_start_silent(MediaModel::empty());
}

/// What a packet does to a session that goes on: it is counted by both metrics,
/// on top of what the bin has counted; where it opens a later bin, on top of
/// nothing.  Packets of an earlier bin count for the current one.
pub proof fn packets_count_for_their_bin(s: SessionModel, r: RecordModel)
    requires
        r.arrival_epoch_ns <= s.last_seen_ns + 120_000_000_000,
    ensures
        ({
            let bin = r.arrival_epoch_ns / 5_000_000_000;
            let after = session_after(Some(s), r);
            &&& after.session_id == s.session_id
            &&& after.client_ip == s.client_ip
            &&& after.first_seen_ns == s.first_seen_ns
            &&& after.last_seen_ns == r.arrival_epoch_ns
            &&& bin <= s.current_bin_id ==> {
                &&& after.current_bin_id == s.current_bin_id
                &&& after.network == s.network.after(r)
                &&& after.media == s.media.after(r)
            }
            &&& bin > s.current_bin_id ==> {
                &&& after.current_bin_id == bin
                &&& after.network == s.flushed().network.after(r)
                &&& after.media == s.flushed().media.after(r)
            }
        }),
{
}

/// A packet makes the session report exactly if there was traffic, and the packet
/// comes more than 120 seconds after the last one or in a later bin.  The report
/// tells what the session had counted before the packet.
pub proof fn sessions_report_at_the_end_of_a_bin(
    s: SessionModel,
    r: RecordModel,
    out: Option<BinReport>,
)
    requires
        report_at(Some(s), r, out),
    ensures
        out is Some <==> {
            let now = r.arrival_epoch_ns;
            &&& s.network.counts.uplink_packets > 0 || s.network.counts.downlink_packets > 0
            &&& now > s.last_seen_ns + 120_000_000_000 || now / 5_000_000_000 > s.current_bin_id
        },
        out matches Some(report) ==> report.describes(s),
{
}

/// The first packet of a client gives no report.
pub proof fn new_clients_report_nothing(r: RecordModel, out: Option<BinReport>)
    requires
        report_at(None, r, out),
    ensures
        out is None,
{
}

/// What a report says: the client, the identifier and the age of the session, the
/// end of the bin, and all six counters of the network metrics.
pub proof fn reports_tell_what_was_counted(s: SessionModel, report: BinReport)
    requires
        report.describes(s),
    ensures
        report.client_ip@ == s.client_ip,
        report.session_id@ == s.session_id,
        report.network.uplink_bytes == s.network.counts.uplink_bytes,
        report.network.downlink_bytes == s.network.counts.downlink_bytes,
        report.network.uplink_packets == s.network.counts.uplink_packets,
        report.network.downlink_packets == s.network.counts.downlink_packets,
        report.network.uplink_lost_packets == s.network.counts.uplink_lost_packets,
        report.network.downlink_lost_packets == s.network.counts.downlink_lost_packets,
        report.media.describes(s.media),
        s.first_seen_ns <= s.last_seen_ns ==> s.first_seen_ns + report.session_age_ns
            == s.last_seen_ns,
        s.last_seen_ns < s.first_seen_ns ==> report.session_age_ns == 0,
        s.current_bin_id < 3_000_000_000 ==> report.timestamp_ns == s.current_bin_id * 5_000_000_000
            + 5_000_000_000,
{
    if s.current_bin_id < 3_000_000_000 {
        let end = (s.current_bin_id + 1) * 5_000_000_000;
        assert(bin_end(s.current_bin_id) == end) by {
            vstd::arithmetic::div_mod::lemma_small_mod(end as nat, 0x1_0000_0000_0000_0000);
        }
    }
}

/// The session of a client after a run of packets.
pub open spec fn session_after_all(s: SessionModel, packets: Seq<RecordModel>) -> SessionModel
    decreases packets.len(),
{
    if packets.len() == 0 {
        s
    } else {
        session_after(Some(session_after_all(s, packets.drop_last())), packets.last())
    }
}

/// Within a bin, all packets go through both metrics.
proof fn lemma_within_a_bin(s: SessionModel, packets: Seq<RecordModel>)
    requires
        packets.len() > 0 ==> packets[0].arrival_epoch_ns <= s.last_seen_ns + 120_000_000_000,
        forall|i: int|
            0 <= i < packets.len() ==> (#[trigger] packets[i]).arrival_epoch_ns / 5_000_000_000
                == s.current_bin_id,
    ensures
        ({
            let t = session_after_all(s, packets);
            &&& t.media == s.media.after_all(packets)
            &&& t.network == s.network.after_all(packets)
            &&& t.client_ip == s.client_ip
            &&& t.session_id == s.session_id
            &&& t.current_bin_id == s.current_bin_id
            &&& t.last_seen_ns == if packets.len() == 0 {
                s.last_seen_ns
            } else {
                packets.last().arrival_epoch_ns
            }
        }),
    decreases packets.len(),
{
    if packets.len() > 0 {
        let before = packets.drop_last();
        let r = packets.last();
        assert forall|i: int| 0 <= i < before.len() implies (
        #[trigger] before[i]).arrival_epoch_ns / 5_000_000_000 == s.current_bin_id by {
            assert(before[i] == packets[i]);
        }
        if before.len() > 0 {
            assert(before[0] == packets[0]);
            assert(before.last() == packets[packets.len() - 2]);
        }
        lemma_within_a_bin(s, before);
        assert(packets[packets.len() - 1] == r);
        bins_are_five_seconds_long(r.arrival_epoch_ns);
        packets_count_for_their_bin(session_after_all(s, before), r);
    }
}

/// A report covers the packets of its bin and no others: after a report, or at
/// the start of a session, the packets that follow in the same bin are all that
/// the next report counts.
pub proof fn reports_cover_one_bin(
    s: SessionModel,
    packets: Seq<RecordModel>,
    report: BinReport,
)
    requires
        s.media.silent(),
        s.network.counts.uplink_packets == 0,
        s.network.counts.downlink_packets == 0,
        s.network.counts.uplink_bytes == 0,
        s.network.counts.downlink_bytes == 0,
        packets.len() > 0 ==> packets[0].arrival_epoch_ns <= s.last_seen_ns + 120_000_000_000,
        forall|i: int|
            0 <= i < packets.len() ==> (#[trigger] packets[i]).arrival_epoch_ns / 5_000_000_000
                == s.current_bin_id,
        report.describes(session_after_all(s, packets)),
    ensures
        report.network.uplink_packets == wrapped(going(packets, true).len() as int),
        report.network.uplink_bytes == wrapped(total_len(going(packets, true))),
        report.network.downlink_packets == wrapped(going(packets, false).len() as int),
        report.network.downlink_bytes == wrapped(total_len(going(packets, false))),
        report.media.audio_bytes == wrapped(total_len(audio_of(packets))),
        report.media.video_bytes == wrapped(total_len(video_of(packets))),
        report.media.active_total_streams == heard(packets).map_values(
            |r: RecordModel| r.ssrc,
        ).to_set().len(),
{
    lemma_within_a_bin(s, packets);
    traffic_adds_up(s.network, packets);
    media_adds_up(s.media, packets);
}

/// The first packet of a client starts a session, which counts this packet only.
pub proof fn first_packets_start_sessions(r: RecordModel)
    ensures
        ({
            let s = session_after(None, r);
            &&& s.client_ip == client_ip(r)
            &&& s.session_id == session_id(id_hash(client_ip(r), r.arrival_epoch_ns))
            &&& s.first_seen_ns == r.arrival_epoch_ns
            &&& s.last_seen_ns == r.arrival_epoch_ns
            &&& s.current_bin_id == r.arrival_epoch_ns / 5_000_000_000
            &&& s.network == NetworkModel::empty().after(r)
            &&& s.media == MediaModel::empty().after(r)
        }),
{
}

/// A packet after more than 120 seconds of silence starts a session of the same
/// client, as a first packet does.
pub proof fn late_packets_start_sessions(s: SessionModel, r: RecordModel)
    requires
        s.client_ip == client_ip(r),
        r.arrival_epoch_ns > s.last_seen_ns + 120_000_000_000,
    ensures
        session_after(Some(s), r) == session_after(None, r),
{
}

} // verus!
