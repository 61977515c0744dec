//! Throughput and loss of one session, in bins of five seconds.

#[allow(unused_imports)]
use crate::channels::dedup::{behind, newer};
use crate::models::rtp_record::RtpRecord;
#[allow(unused_imports)]
use crate::models::rtp_record::RecordModel;
use crate::text::{chars_of, starts_with};
#[allow(unused_imports)]
use crate::text::has_prefix;
use std::collections::HashMap;
use vstd::prelude::*;

verus! {

/// The textual prefixes of the Teams media servers.
pub open spec fn server_ip(ip: Seq<char>) -> bool {
    ||| has_prefix(ip, "52.112."@)
    ||| has_prefix(ip, "52.113."@)
    ||| has_prefix(ip, "52.114."@)
    ||| has_prefix(ip, "52.115."@)
    ||| has_prefix(ip, "52.122."@)
    ||| has_prefix(ip, "52.123."@)
    ||| has_prefix(ip, "2603:1010"@)
    ||| has_prefix(ip, "2603:1027"@)
    ||| has_prefix(ip, "2603:1037"@)
    ||| has_prefix(ip, "2603:1047"@)
    ||| has_prefix(ip, "2603:1057"@)
    ||| has_prefix(ip, "2620:1ec"@)
}

/// Whether an address, in text form, is that of a Teams media server.
pub fn is_server_ip(ip: &str) -> (r: bool)
    ensures
        r == server_ip(ip@),
{
    let ip = chars_of(ip);
    starts_with(&ip, "52.112.") || starts_with(&ip, "52.113.") || starts_with(&ip, "52.114.")
        || starts_with(&ip, "52.115.") || starts_with(&ip, "52.122.") || starts_with(
        &ip,
        "52.123.",
    ) || starts_with(&ip, "2603:1010") || starts_with(&ip, "2603:1027") || starts_with(
        &ip,
        "2603:1037",
    ) || starts_with(&ip, "2603:1047") || starts_with(&ip, "2603:1057") || starts_with(
        &ip,
        "2620:1ec",
    )
}

/// The counters of a bin.  They wrap around.
#[derive(Clone, Copy, Debug, PartialEq, Eq, Structural)]
pub struct NetworkCounts {
    pub uplink_bytes: u64,
    pub downlink_bytes: u64,
    pub uplink_packets: u64,
    pub downlink_packets: u64,
    pub uplink_lost_packets: u64,
    pub downlink_lost_packets: u64,
}

/// Network metrics of one session.
pub struct NetworkMetrics {
    counts: NetworkCounts,
    last_seq: HashMap<u32, u16>,
}

/// Mathematical model of [`NetworkMetrics`].
#[verifier::ext_equal]
pub struct NetworkModel {
    pub counts: NetworkCounts,
    /// The highest sequence number of every SSRC, kept from bin to bin.
    pub last_seq: Map<u32, u16>,
}

impl View for NetworkMetrics {
    type V = NetworkModel;

    closed spec fn view(&self) -> NetworkModel {
        NetworkModel { counts: self.counts, last_seq: self.last_seq@ }
    }
}

/// Counters at zero.
pub open spec fn no_counts() -> NetworkCounts {
    NetworkCounts {
        uplink_bytes: 0,
        downlink_bytes: 0,
        uplink_packets: 0,
        downlink_packets: 0,
        uplink_lost_packets: 0,
        downlink_lost_packets: 0,
    }
}

impl NetworkModel {
    /// Metrics that have seen nothing.
    pub open spec fn empty() -> NetworkModel {
        NetworkModel { counts: no_counts(), last_seq: Map::empty() }
    }

    /// How many packets of the SSRC were skipped before this one: the gap to
    /// the highest sequence number so far, none for late packets.
    pub open spec fn lost_before(self, r: RecordModel) -> int {
        if self.last_seq.contains_key(r.ssrc) && newer(self.last_seq[r.ssrc], r.seq_num) {
            behind(r.seq_num, self.last_seq[r.ssrc]) - 1
        } else {
            0
        }
    }

    /// The highest sequence numbers after a packet.
    pub open spec fn seqs_after(self, r: RecordModel) -> Map<u32, u16> {
        if !self.last_seq.contains_key(r.ssrc) || newer(self.last_seq[r.ssrc], r.seq_num) {
            self.last_seq.insert(r.ssrc, r.seq_num)
        } else {
            self.last_seq
        }
    }

    /// The metrics after a packet.  A packet to a server is uplink, any other
    /// packet from a server is downlink, and the rest is ignored.
    pub open spec fn after(self, r: RecordModel) -> NetworkModel {
        let c = self.counts;
        let lost = self.lost_before(r) as u64;
        if server_ip(r.dst_ip) {
            NetworkModel {
                counts: NetworkCounts {
                    uplink_bytes: c.uplink_bytes.wrapping_add(r.udp_len as u64),
                    uplink_packets: c.uplink_packets.wrapping_add(1),
                    uplink_lost_packets: c.uplink_lost_packets.wrapping_add(lost),
                    ..c
                },
                last_seq: self.seqs_after(r),
            }
        } else if server_ip(r.src_ip) {
            NetworkModel {
                counts: NetworkCounts {
                    downlink_bytes: c.downlink_bytes.wrapping_add(r.udp_len as u64),
                    downlink_packets: c.downlink_packets.wrapping_add(1),
                    downlink_lost_packets: c.downlink_lost_packets.wrapping_add(lost),
                    ..c
                },
                last_seq: self.seqs_after(r),
            }
        } else {
            self
        }
    }

    /// Whether there was traffic in this bin.
    pub open spec fn has_data(self) -> bool {
        self.counts.uplink_packets > 0 || self.counts.downlink_packets > 0
    }

    /// Whether nothing is counted where there was no traffic.
    pub open spec fn wf(self) -> bool {
        self.has_data() || self.counts == no_counts()
    }

    /// The metrics at the start of the next bin.
    pub open spec fn next_bin(self) -> NetworkModel {
        NetworkModel { counts: no_counts(), last_seq: self.last_seq }
    }
}

impl NetworkMetrics {
    /// Metrics that have seen nothing.
    pub fn new() -> (r: NetworkMetrics)
        ensures
            r@ == NetworkModel::empty(),
    {
        NetworkMetrics {
            counts: NetworkCounts {
                uplink_bytes: 0,
                downlink_bytes: 0,
                uplink_packets: 0,
                downlink_packets: 0,
                uplink_lost_packets: 0,
                downlink_lost_packets: 0,
            },
            last_seq: HashMap::new(),
        }
    }

    /// The counters of this bin.
    pub fn counts(&self) -> (r: NetworkCounts)
        ensures
            r == self@.counts,
    {
        self.counts
    }

    /// Account for a packet.
    pub fn process_packet(&mut self, record: &RtpRecord)
        ensures
            final(self)@ == old(self)@.after(record@),
    {
        let is_uplink = is_server_ip(record.dst_ip.as_str());
        let is_downlink = is_server_ip(record.src_ip.as_str());
        if !is_uplink && !is_downlink {
            return;
        }
        let last: Option<u16> = match self.last_seq.get(&record.ssrc) {
            Some(seq) => Some(*seq),
            None => None,
        };
        let mut lost: u64 = 0;
        match last {
            Some(last) => {
                let ahead = record.seq_num.wrapping_sub(last);
                if 0 < ahead && ahead < 0x8000 {
                    lost = ahead as u64 - 1;
                    self.last_seq.insert(record.ssrc, record.seq_num);
                }
            },
            None => {
                self.last_seq.insert(record.ssrc, record.seq_num);
            },
        }
        assert(self.last_seq@ =~= old(self)@.seqs_after(record@));
        assert(lost == old(self)@.lost_before(record@));
        let bytes = record.udp_len as u64;
        if is_uplink {
            self.counts.uplink_bytes = self.counts.uplink_bytes.wrapping_add(bytes);
            self.counts.uplink_packets = self.counts.uplink_packets.wrapping_add(1);
            self.counts.uplink_lost_packets = self.counts.uplink_lost_packets.wrapping_add(lost);
        } else {
            self.counts.downlink_bytes = self.counts.downlink_bytes.wrapping_add(bytes);
            self.counts.downlink_packets = self.counts.downlink_packets.wrapping_add(1);
            self.counts.downlink_lost_packets = self.counts.downlink_lost_packets.wrapping_add(
                lost,
            );
        }
    }

    /// Whether there was traffic in this bin.
    pub fn has_data(&self) -> (r: bool)
        ensures
            r == self@.has_data(),
    {
        self.counts.uplink_packets > 0 || self.counts.downlink_packets > 0
    }

    /// Start the next bin.  The highest sequence numbers are kept, so that loss
    /// across the border of two bins is noticed.
    pub fn reset_bin(&mut self)
        ensures
            final(self)@ == old(self)@.next_bin(),
    {
        self.counts = NetworkCounts {
            uplink_bytes: 0,
            downlink_bytes: 0,
            uplink_packets: 0,
            downlink_packets: 0,
            uplink_lost_packets: 0,
            downlink_lost_packets: 0,
        };
    }
}

/// The packets that are found lost, and the packet itself, fill the gap to the
/// highest sequence number so far.  A packet that does not move that number
/// forward finds none lost.
pub proof fn lost_packets_fill_the_gap(m: NetworkModel, r: RecordModel)
    requires
        m.last_seq.contains_key(r.ssrc),
    ensures
        newer(m.last_seq[r.ssrc], r.seq_num) ==> {
            &&& m.lost_before(r) + 1 == behind(r.seq_num, m.last_seq[r.ssrc])
            &&& m.seqs_after(r)[r.ssrc] == r.seq_num
        },
        !newer(m.last_seq[r.ssrc], r.seq_num) ==> m.lost_before(r) == 0 && m.seqs_after(r)
            == m.last_seq,
        0 <= m.lost_before(r) < 0x7fff,
{
}

/// Loss across the border of two bins is noticed: a packet is found to follow
/// the same gap whether or not a new bin was started before it.
pub proof fn loss_is_tracked_across_bins(m: NetworkModel, r: RecordModel)
    ensures
        m.next_bin().lost_before(r) == m.lost_before(r),
        m.next_bin().after(r).last_seq == m.after(r).last_seq,
{
}

/// Every operation keeps the metrics well-formed, as long as no packet counter
/// has reached its limit.
pub proof fn network_stays_wf(m: NetworkModel, r: RecordModel)
    requires
        m.wf(),
        m.counts.uplink_packets < u64::MAX,
        m.counts.downlink_packets < u64::MAX,
    ensures
        NetworkModel::empty().wf(),
        m.after(r).wf(),
        m.next_bin().wf(),
{
}

/// Any packet to or from a server is traffic, whatever its length.
pub proof fn any_server_packet_is_traffic(m: NetworkModel, r: RecordModel)
    requires
        server_ip(r.src_ip) || server_ip(r.dst_ip),
        m.counts.uplink_packets < u64::MAX,
        m.counts.downlink_packets < u64::MAX,
    ensures
        m.after(r).has_data(),
{
}

impl NetworkModel {
    /// The metrics after a run of packets.
    pub open spec fn after_all(self, packets: Seq<RecordModel>) -> NetworkModel
        decreases packets.len(),
    {
        if packets.len() == 0 {
            self
        } else {
            self.after_all(packets.drop_last()).after(packets.last())
        }
    }
}

/// The direction of a packet between a client and a server.
pub open spec fn travels(r: RecordModel, up: bool) -> bool {
    if up {
        server_ip(r.dst_ip)
    } else {
        !server_ip(r.dst_ip) && server_ip(r.src_ip)
    }
}

/// Whether all packets belong to one SSRC and travel in one direction.
pub open spec fn one_stream(packets: Seq<RecordModel>, ssrc: u32, up: bool) -> bool {
    forall|i: int|
        0 <= i < packets.len() ==> (#[trigger] packets[i]).ssrc == ssrc && travels(packets[i], up)
}

/// The highest sequence number of a run of packets of one SSRC.
pub open spec fn highest(packets: Seq<RecordModel>) -> u16
    decreases packets.len(),
{
    if packets.len() <= 1 {
        packets.last().seq_num
    } else {
        let before = highest(packets.drop_last());
        if newer(before, packets.last().seq_num) {
            packets.last().seq_num
        } else {
            before
        }
    }
}

/// Whether the last packet moves the highest sequence number forward.
pub open spec fn advances(packets: Seq<RecordModel>) -> bool {
    packets.len() > 1 && newer(highest(packets.drop_last()), packets.last().seq_num)
}

/// How many packets of a run move the highest sequence number forward.
pub open spec fn advance_count(packets: Seq<RecordModel>) -> int
    decreases packets.len(),
{
    if packets.len() == 0 {
        0
    } else {
        advance_count(packets.drop_last()) + if advances(packets) {
            1int
        } else {
            0
        }
    }
}

/// How far a run of packets moves the highest sequence number forward.
pub open spec fn advance_sum(packets: Seq<RecordModel>) -> int
    decreases packets.len(),
{
    if packets.len() == 0 {
        0
    } else {
        advance_sum(packets.drop_last()) + if advances(packets) {
            behind(packets.last().seq_num, highest(packets.drop_last()))
        } else {
            0
        }
    }
}

/// The UDP lengths of a run of packets together.
pub open spec fn total_len(packets: Seq<RecordModel>) -> int
    decreases packets.len(),
{
    if packets.len() == 0 {
        0
    } else {
        total_len(packets.drop_last()) + packets.last().udp_len
    }
}

/// A count, as a counter holds it.
#[verifier::opaque]
pub open spec fn wrapped(count: int) -> u64 {
    (count % 0x1_0000_0000_0000_0000) as u64
}

/// A counter goes on counting where it wraps around.
pub(crate) proof fn lemma_wrapped_add(count: int, more: u64)
    ensures
        wrapped(count).wrapping_add(more) == wrapped(count + more),
{
    reveal(wrapped);
}

/// Two counters, added with wrap-around, hold the sum of what they count.
proof fn lemma_wrapped_sum(a: int, b: int)
    ensures
        wrapped(a).wrapping_add(wrapped(b)) == wrapped(a + b),
{
    reveal(wrapped);
}

/// A count within the limit of a counter is held as it is.
pub(crate) proof fn lemma_wrapped_small(count: int)
    requires
        0 <= count <= u64::MAX,
    ensures
        wrapped(count) == count,
{
    reveal(wrapped);
}

/// The counters of a run of packets of one direction.
pub open spec fn stream_counts(up: bool, packets: int, bytes: int, lost: int) -> NetworkCounts {
    if up {
        NetworkCounts {
            uplink_bytes: wrapped(bytes),
            uplink_packets: wrapped(packets),
            uplink_lost_packets: wrapped(lost),
            ..no_counts()
        }
    } else {
        NetworkCounts {
            downlink_bytes: wrapped(bytes),
            downlink_packets: wrapped(packets),
            downlink_lost_packets: wrapped(lost),
            ..no_counts()
        }
    }
}

/// A run of packets of one SSRC in one direction, in whatever order: every packet
/// and every byte counts, and the lost packets fill the steps by which the highest
/// sequence number moved forward.  Packets that repeat or precede it count, but
/// lose nothing.  Nothing counts for the other direction.  Like all counters,
/// these wrap around.
pub proof fn streams_are_counted(packets: Seq<RecordModel>, ssrc: u32, up: bool)
    requires
        one_stream(packets, ssrc, up),
    ensures
        NetworkModel::empty().after_all(packets).counts == stream_counts(
            up,
            packets.len() as int,
            total_len(packets),
            advance_sum(packets) - advance_count(packets),
        ),
        0 <= total_len(packets) <= packets.len() * 0xffff,
        0 <= advance_count(packets) <= advance_sum(packets) <= packets.len() * 0x7fff,
        packets.len() > 0 ==> NetworkModel::empty().after_all(packets).last_seq == map![
            ssrc => highest(packets)
        ],
    decreases packets.len(),
{
    if packets.len() == 0 {
        lemma_wrapped_small(0);
        assert(NetworkModel::empty().after_all(packets).counts == no_counts());
    } else {
        let before = packets.drop_last();
        let r = packets.last();
        let m = NetworkModel::empty().after_all(before);
        assert forall|i: int| 0 <= i < before.len() implies (#[trigger] before[i]).ssrc == ssrc
            && travels(before[i], up) by {
            assert(before[i] == packets[i]);
        }
        streams_are_counted(before, ssrc, up);
        assert(packets[packets.len() - 1] == r);
        let lost = advance_sum(before) - advance_count(before);
        let step = if advances(packets) {
            behind(r.seq_num, highest(before)) - 1
        } else {
            0
        };
        lemma_wrapped_add(before.len() as int, 1);
        lemma_wrapped_add(total_len(before), r.udp_len as u64);
        lemma_wrapped_add(lost, step as u64);
        if before.len() == 0 {
            assert(m.last_seq =~= Map::empty());
            assert(m.after(r).last_seq =~= map![ssrc => r.seq_num]);
        } else {
            assert(m.last_seq[ssrc] == highest(before));
            assert(m.after(r).last_seq =~= map![ssrc => highest(packets)]);
        }
    }
}

/// The steps between neighbours of a run of packets together.
pub open spec fn gap_sum(packets: Seq<RecordModel>) -> int
    decreases packets.len(),
{
    if packets.len() <= 1 {
        0
    } else {
        gap_sum(packets.drop_last()) + behind(
            packets.last().seq_num,
            packets[packets.len() - 2].seq_num,
        )
    }
}

/// Where every packet is newer than the one before, the packets that arrived and
/// those that were lost make up the whole range of sequence numbers, up to the
/// point where the counters wrap around.
pub proof fn packets_and_losses_fill_the_range(packets: Seq<RecordModel>, ssrc: u32, up: bool)
    requires
        one_stream(packets, ssrc, up),
        0 < packets.len(),
        forall|i: int|
            0 < i < packets.len() ==> newer(packets[i - 1].seq_num, (#[trigger] packets[i]).seq_num),
    ensures
        ({
            let counts = NetworkModel::empty().after_all(packets).counts;
            let (received, lost) = if up {
                (counts.uplink_packets, counts.uplink_lost_packets)
            } else {
                (counts.downlink_packets, counts.downlink_lost_packets)
            };
            &&& received == wrapped(packets.len() as int)
            &&& received.wrapping_add(lost) == wrapped(1 + gap_sum(packets))
            &&& 0 <= gap_sum(packets)
            &&& gap_sum(packets) < u64::MAX ==> received == packets.len() && received + lost == 1
                + gap_sum(packets)
        }),
{
    streams_are_counted(packets, ssrc, up);
    lemma_in_order(packets);
    let n = packets.len() as int;
    let lost = gap_sum(packets) - (n - 1);
    if gap_sum(packets) < u64::MAX {
        lemma_wrapped_small(n);
        lemma_wrapped_small(lost);
    }
    lemma_wrapped_sum(n, lost);
}

/// In order, every packet but the first moves the highest sequence number
/// forward, by its gap.
proof fn lemma_in_order(packets: Seq<RecordModel>)
    requires
        packets.len() > 0,
        forall|i: int|
            0 < i < packets.len() ==> newer(packets[i - 1].seq_num, (#[trigger] packets[i]).seq_num),
    ensures
        highest(packets) == packets.last().seq_num,
        advance_count(packets) == packets.len() - 1,
        advance_sum(packets) == gap_sum(packets),
    decreases packets.len(),
{
    let before = packets.drop_last();
    if packets.len() == 1 {
        assert(advance_count(before) == 0 && advance_sum(before) == 0);
    } else {
        assert forall|i: int| 0 < i < before.len() implies newer(
            before[i - 1].seq_num,
            (#[trigger] before[i]).seq_num,
        ) by {
            assert(before[i] == packets[i] && before[i - 1] == packets[i - 1]);
        }
        lemma_in_order(before);
        assert(before.last() == packets[packets.len() - 2]);
        assert(packets.last() == packets[packets.len() - 1]);
    }
}

/// A packet leaves what is remembered of every other SSRC as it is.
pub proof fn other_streams_are_untouched(m: NetworkModel, r: RecordModel, ssrc: u32)
    requires
        ssrc != r.ssrc,
    ensures
        m.after(r).last_seq.contains_key(ssrc) <==> m.last_seq.contains_key(ssrc),
        m.after(r).last_seq[ssrc] == m.last_seq[ssrc],
{
}

/// A packet that goes `ahead` sequence numbers forward, by less than half the
/// 16-bit circle, shows that `ahead - 1` packets before it were lost, in its own
/// direction.  Any other packet of a known SSRC, and the first one of a new SSRC,
/// shows no loss.
pub proof fn gaps_are_losses(m: NetworkModel, r: RecordModel, ahead: int)
    requires
        server_ip(r.dst_ip) || server_ip(r.src_ip),
        m.last_seq.contains_key(r.ssrc) ==> 0 <= ahead < 0x10000 && (m.last_seq[r.ssrc] + ahead
            == r.seq_num || m.last_seq[r.ssrc] + ahead == r.seq_num + 0x10000),
    ensures
        ({
            let known = m.last_seq.contains_key(r.ssrc);
            let lost = if known && 1 <= ahead <= 0x7fff {
                (ahead - 1) as u64
            } else {
                0
            };
            let (a, b) = (m.counts, m.after(r).counts);
            &&& server_ip(r.dst_ip) ==> {
                &&& b.uplink_lost_packets == a.uplink_lost_packets.wrapping_add(lost)
                &&& b.downlink_lost_packets == a.downlink_lost_packets
            }
            &&& !server_ip(r.dst_ip) ==> {
                &&& b.downlink_lost_packets == a.downlink_lost_packets.wrapping_add(lost)
                &&& b.uplink_lost_packets == a.uplink_lost_packets
            }
            &&& m.after(r).last_seq.contains_key(r.ssrc)
            &&& m.after(r).last_seq[r.ssrc] == if !known || 1 <= ahead <= 0x7fff {
                r.seq_num
            } else {
                m.last_seq[r.ssrc]
            }
        }),
{
    if m.last_seq.contains_key(r.ssrc) {
        assert(behind(r.seq_num, m.last_seq[r.ssrc]) == ahead);
    }
}

/// A packet that has no server at either end changes nothing.
pub proof fn foreign_packets_are_ignored(m: NetworkModel, r: RecordModel)
    requires
        !server_ip(r.dst_ip),
        !server_ip(r.src_ip),
    ensures
        m.after(r) == m,
{
}

/// A new bin starts with all counters at zero, and remembers every SSRC.
pub proof fn bins_start_at_zero(m: NetworkModel)
    ensures
        m.next_bin().counts.uplink_bytes == 0,
        m.next_bin().counts.downlink_bytes == 0,
        m.next_bin().counts.uplink_packets == 0,
        m.next_bin().counts.downlink_packets == 0,
        m.next_bin().counts.uplink_lost_packets == 0,
        m.next_bin().counts.downlink_lost_packets == 0,
        m.next_bin().last_seq == m.last_seq,
        NetworkModel::empty().counts == m.next_bin().counts,
        NetworkModel::empty().last_seq == Map::<u32, u16>::empty(),
        m.has_data() <==> m.counts.uplink_packets != 0 || m.counts.downlink_packets != 0,
{
}

/// The packets of one direction.
pub open spec fn going(packets: Seq<RecordModel>, up: bool) -> Seq<RecordModel> {
    packets.filter(|r: RecordModel| travels(r, up))
}

/// Over any run of packets, from counters at zero on, a packet and its bytes count
/// once: as uplink where it goes to a server, as downlink where it only comes from
/// one, and not at all otherwise.
pub proof fn traffic_adds_up(m: NetworkModel, packets: Seq<RecordModel>)
    requires
        m.counts.uplink_bytes == 0,
        m.counts.downlink_bytes == 0,
        m.counts.uplink_packets == 0,
        m.counts.downlink_packets == 0,
    ensures
        ({
            let c = m.after_all(packets).counts;
            &&& c.uplink_packets == wrapped(going(packets, true).len() as int)
            &&& c.uplink_bytes == wrapped(total_len(going(packets, true)))
            &&& c.downlink_packets == wrapped(going(packets, false).len() as int)
            &&& c.downlink_bytes == wrapped(total_len(going(packets, false)))
        }),
    decreases packets.len(),
{
    reveal(Seq::filter);
    if packets.len() == 0 {
        lemma_wrapped_small(0);
    } else {
        let before = packets.drop_last();
        let r = packets.last();
        traffic_adds_up(m, before);
        let (up, down) = (going(before, true), going(before, false));
        lemma_wrapped_add(up.len() as int, 1);
        lemma_wrapped_add(total_len(up), r.udp_len as u64);
        lemma_wrapped_add(down.len() as int, 1);
        lemma_wrapped_add(total_len(down), r.udp_len as u64);
        if travels(r, true) {
            assert(going(packets, true).drop_last() =~= up);
        }
        if travels(r, false) {
            assert(going(packets, false).drop_last() =~= down);
        }
    }
}

/// The packets of one SSRC.
pub open spec fn of_ssrc(packets: Seq<RecordModel>, ssrc: u32) -> Seq<RecordModel> {
    packets.filter(|r: RecordModel| r.ssrc == ssrc)
}

/// The packets of all other SSRCs.
pub open spec fn without_ssrc(packets: Seq<RecordModel>, ssrc: u32) -> Seq<RecordModel> {
    packets.filter(|r: RecordModel| r.ssrc != ssrc)
}

/// Streams do not disturb each other, however they are interleaved: what is
/// counted, losses included, is what the packets of any one SSRC count alone and
/// what the rest counts alone, together; and so is what is remembered.
pub proof fn streams_are_counted_apart(packets: Seq<RecordModel>, ssrc: u32)
    ensures
        ({
            let all = NetworkModel::empty().after_all(packets);
            let own = NetworkModel::empty().after_all(of_ssrc(packets, ssrc));
            let rest = NetworkModel::empty().after_all(without_ssrc(packets, ssrc));
            let (c, a, b) = (all.counts, own.counts, rest.counts);
            &&& c.uplink_lost_packets == a.uplink_lost_packets.wrapping_add(b.uplink_lost_packets)
            &&& c.downlink_lost_packets == a.downlink_lost_packets.wrapping_add(
                b.downlink_lost_packets,
            )
            &&& c.uplink_packets == a.uplink_packets.wrapping_add(b.uplink_packets)
            &&& c.downlink_packets == a.downlink_packets.wrapping_add(b.downlink_packets)
            &&& c.uplink_bytes == a.uplink_bytes.wrapping_add(b.uplink_bytes)
            &&& c.downlink_bytes == a.downlink_bytes.wrapping_add(b.downlink_bytes)
            &&& all.last_seq.contains_key(ssrc) == own.last_seq.contains_key(ssrc)
            &&& all.last_seq[ssrc] == own.last_seq[ssrc] || !all.last_seq.contains_key(ssrc)
            &&& all.last_seq.remove(ssrc) == rest.last_seq
        }),
    decreases packets.len(),
{
    reveal(Seq::filter);
    let all = NetworkModel::empty().after_all(packets);
    let rest = NetworkModel::empty().after_all(without_ssrc(packets, ssrc));
    if packets.len() == 0 {
        assert(all.last_seq.remove(ssrc) =~= rest.last_seq);
    } else {
        let before = packets.drop_last();
        let r = packets.last();
        streams_are_counted_apart(before, ssrc);
        let m = NetworkModel::empty().after_all(before);
        let n = NetworkModel::empty().after_all(without_ssrc(before, ssrc));
        assert(all == m.after(r));
        if r.ssrc == ssrc {
            assert(of_ssrc(packets, ssrc).drop_last() =~= of_ssrc(before, ssrc));
            assert(without_ssrc(packets, ssrc) == without_ssrc(before, ssrc));
            assert(all.last_seq.remove(ssrc) =~= m.last_seq.remove(ssrc));
        } else {
            assert(without_ssrc(packets, ssrc).drop_last() =~= without_ssrc(before, ssrc));
            assert(of_ssrc(packets, ssrc) == of_ssrc(before, ssrc));
            assert(m.last_seq.remove(ssrc).contains_key(r.ssrc) == m.last_seq.contains_key(
                r.ssrc,
            ));
            assert(m.lost_before(r) == n.lost_before(r));
            assert(m.seqs_after(r).remove(ssrc) =~= n.seqs_after(r));
            assert(all.last_seq.remove(ssrc) =~= rest.last_seq);
        }
    }
}

/// The addresses of the media servers, character by character: `52.112.` to
/// `52.115.`, `52.122.` and `52.123.`, `2603:1010`, `2603:1027` to `2603:1057` in
/// steps of ten, and `2620:1ec`.
pub proof fn servers_by_their_characters(ip: Seq<char>)
    ensures
        server_ip(ip) <==> {
            ||| ip.len() >= 7 && ip[0] == '5' && ip[1] == '2' && ip[2] == '.' && ip[3] == '1' && (
            ip[4] == '1' && (ip[5] == '2' || ip[5] == '3' || ip[5] == '4' || ip[5] == '5') || ip[4]
                == '2' && (ip[5] == '2' || ip[5] == '3')) && ip[6] == '.'
            ||| ip.len() >= 9 && ip[0] == '2' && ip[1] == '6' && ip[2] == '0' && ip[3] == '3'
                && ip[4] == ':' && ip[5] == '1' && ip[6] == '0' && (ip[7] == '1' && ip[8] == '0' || (
            ip[7] == '2' || ip[7] == '3' || ip[7] == '4' || ip[7] == '5') && ip[8] == '7')
            ||| ip.len() >= 8 && ip[0] == '2' && ip[1] == '6' && ip[2] == '2' && ip[3] == '0'
                && ip[4] == ':' && ip[5] == '1' && ip[6] == 'e' && ip[7] == 'c'
        },
{
    lemma_prefix_7(ip);
    lemma_prefix_9(ip);
    lemma_prefix_8(ip);
}

pub(crate) proof fn lemma_prefix_8(ip: Seq<char>)
    ensures
        has_prefix(ip, "2620:1ec"@) <==> ip.len() >= 8 && ip[0] == '2' && ip[1] == '6' && ip[2]
            == '2' && ip[3] == '0' && ip[4] == ':' && ip[5] == '1' && ip[6] == 'e' && ip[7] == 'c',
{
    reveal_strlit("2620:1ec");
    let prefix = "2620:1ec"@;
    lemma_chars(ip, prefix);
    if ip.len() >= 8 && ip[0] == '2' && ip[1] == '6' && ip[2] == '2' && ip[3] == '0' && ip[4] == ':'
        && ip[5] == '1' && ip[6] == 'e' && ip[7] == 'c' {
        assert forall|i: int| 0 <= i < prefix.len() implies ip[i] == #[trigger] prefix[i] by {
            assert(i == 0 || i == 1 || i == 2 || i == 3 || i == 4 || i == 5 || i == 6 || i == 7);
        }
    }
    if has_prefix(ip, prefix) {
        assert(ip[0] == prefix[0] && ip[1] == prefix[1] && ip[2] == prefix[2] && ip[3] == prefix[3]);
        assert(ip[4] == prefix[4] && ip[5] == prefix[5] && ip[6] == prefix[6] && ip[7] == prefix[7]);
    }
}

/// A prefix, character by character.
proof fn lemma_chars(s: Seq<char>, prefix: Seq<char>)
    ensures
        has_prefix(s, prefix) <==> prefix.len() <= s.len() && forall|i: int|
            0 <= i < prefix.len() ==> s[i] == #[trigger] prefix[i],
{
    if prefix.len() <= s.len() {
        if has_prefix(s, prefix) {
            assert forall|i: int| 0 <= i < prefix.len() implies s[i] == #[trigger] prefix[i] by {
                assert(s.take(prefix.len() as int)[i] == s[i]);
            }
        }
        if forall|i: int| 0 <= i < prefix.len() ==> s[i] == #[trigger] prefix[i] {
            assert(s.take(prefix.len() as int) =~= prefix);
        }
    }
}

proof fn lemma_ipv4_prefix(ip: Seq<char>, prefix: Seq<char>, a: char, b: char)
    requires
        prefix.len() == 7,
        prefix[0] == '5',
        prefix[1] == '2',
        prefix[2] == '.',
        prefix[3] == '1',
        prefix[4] == a,
        prefix[5] == b,
        prefix[6] == '.',
    ensures
        has_prefix(ip, prefix) <==> ip.len() >= 7 && ip[0] == '5' && ip[1] == '2' && ip[2] == '.'
            && ip[3] == '1' && ip[4] == a && ip[5] == b && ip[6] == '.',
{
    lemma_chars(ip, prefix);
    if ip.len() >= 7 && ip[0] == '5' && ip[1] == '2' && ip[2] == '.' && ip[3] == '1' && ip[4] == a
        && ip[5] == b && ip[6] == '.' {
        assert forall|i: int| 0 <= i < prefix.len() implies ip[i] == #[trigger] prefix[i] by {
            assert(i == 0 || i == 1 || i == 2 || i == 3 || i == 4 || i == 5 || i == 6);
        }
    }
}

proof fn lemma_prefix_7(ip: Seq<char>)
    ensures
        ({
            ||| has_prefix(ip, "52.112."@)
            ||| has_prefix(ip, "52.113."@)
            ||| has_prefix(ip, "52.114."@)
            ||| has_prefix(ip, "52.115."@)
            ||| has_prefix(ip, "52.122."@)
            ||| has_prefix(ip, "52.123."@)
        }) <==> ip.len() >= 7 && ip[0] == '5' && ip[1] == '2' && ip[2] == '.' && ip[3] == '1' && (
        ip[4] == '1' && (ip[5] == '2' || ip[5] == '3' || ip[5] == '4' || ip[5] == '5') || ip[4]
            == '2' && (ip[5] == '2' || ip[5] == '3')) && ip[6] == '.',
{
    reveal_strlit("52.112.");
    reveal_strlit("52.113.");
    reveal_strlit("52.114.");
    reveal_strlit("52.115.");
    reveal_strlit("52.122.");
    reveal_strlit("52.123.");
    lemma_ipv4_prefix(ip, "52.112."@, '1', '2');
    lemma_ipv4_prefix(ip, "52.113."@, '1', '3');
    lemma_ipv4_prefix(ip, "52.114."@, '1', '4');
    lemma_ipv4_prefix(ip, "52.115."@, '1', '5');
    lemma_ipv4_prefix(ip, "52.122."@, '2', '2');
    lemma_ipv4_prefix(ip, "52.123."@, '2', '3');
}

proof fn lemma_ipv6_prefix(ip: Seq<char>, prefix: Seq<char>, a: char, b: char)
    requires
        prefix.len() == 9,
        prefix[0] == '2',
        prefix[1] == '6',
        prefix[2] == '0',
        prefix[3] == '3',
        prefix[4] == ':',
        prefix[5] == '1',
        prefix[6] == '0',
        prefix[7] == a,
        prefix[8] == b,
    ensures
        has_prefix(ip, prefix) <==> ip.len() >= 9 && ip[0] == '2' && ip[1] == '6' && ip[2] == '0'
            && ip[3] == '3' && ip[4] == ':' && ip[5] == '1' && ip[6] == '0' && ip[7] == a && ip[8]
            == b,
{
    lemma_chars(ip, prefix);
    if ip.len() >= 9 && ip[0] == '2' && ip[1] == '6' && ip[2] == '0' && ip[3] == '3' && ip[4] == ':'
        && ip[5] == '1' && ip[6] == '0' && ip[7] == a && ip[8] == b {
        assert forall|i: int| 0 <= i < prefix.len() implies ip[i] == #[trigger] prefix[i] by {
            assert(i == 0 || i == 1 || i == 2 || i == 3 || i == 4 || i == 5 || i == 6 || i == 7 || i
                == 8);
        }
    }
}

pub(crate) proof fn lemma_prefix_9(ip: Seq<char>)
    ensures
        ({
            ||| has_prefix(ip, "2603:1010"@)
            ||| has_prefix(ip, "2603:1027"@)
            ||| has_prefix(ip, "2603:1037"@)
            ||| has_prefix(ip, "2603:1047"@)
            ||| has_prefix(ip, "2603:1057"@)
        }) <==> ip.len() >= 9 && ip[0] == '2' && ip[1] == '6' && ip[2] == '0' && ip[3] == '3'
            && ip[4] == ':' && ip[5] == '1' && ip[6] == '0' && (ip[7] == '1' && ip[8] == '0' || (
        ip[7] == '2' || ip[7] == '3' || ip[7] == '4' || ip[7] == '5') && ip[8] == '7'),
{
    reveal_strlit("2603:1010");
    reveal_strlit("2603:1027");
    reveal_strlit("2603:1037");
    reveal_strlit("2603:1047");
    reveal_strlit("2603:1057");
    lemma_ipv6_prefix(ip, "2603:1010"@, '1', '0');
    lemma_ipv6_prefix(ip, "2603:1027"@, '2', '7');
    lemma_ipv6_prefix(ip, "2603:1037"@, '3', '7');
    lemma_ipv6_prefix(ip, "2603:1047"@, '4', '7');
    lemma_ipv6_prefix(ip, "2603:1057"@, '5', '7');
}

} // verus!
