//! The periodic live statistics: one line for the dispatcher and one per
//! platform.

#[allow(unused_imports)]
use super::platform::SnapshotModel;
use super::platform::PlatformSnapshot;
use crate::text::{push_dec, push_dec_left, push_dec_right};
#[allow(unused_imports)]
use crate::text::{dec, pad_left, pad_right};
use vstd::prelude::*;

verus! {

/// Seconds between two reports.
pub const REPORT_INTERVAL_SECS: u64 = 15;

/// What the last report showed, per platform in the order of registration.
pub struct LiveStats {
    last_rtp: Vec<usize>,
    last_dropped: Vec<usize>,
    elapsed: u64,
}

/// Mathematical model of [`LiveStats`].
#[verifier::ext_equal]
pub struct LiveModel {
    /// RTP packets in the last report.
    pub last_rtp: Seq<usize>,
    /// Dropped packets in the last report.
    pub last_dropped: Seq<usize>,
    /// Seconds since the start, as of the last report; wraps around.
    pub elapsed: u64,
}

impl LiveModel {
    /// How many platforms are reported.
    pub open spec fn platforms(self) -> nat {
        self.last_rtp.len()
    }

    /// The same number of platforms in both lists.
    pub open spec fn wf(self) -> bool {
        self.last_rtp.len() == self.last_dropped.len()
    }
}

impl View for LiveStats {
    type V = LiveModel;

    closed spec fn view(&self) -> LiveModel {
        LiveModel {
            last_rtp: self.last_rtp@,
            last_dropped: self.last_dropped@,
            elapsed: self.elapsed,
        }
    }
}

/// The line of the dispatcher.
pub open spec fn head_line(elapsed: u64, non_target: usize) -> Seq<char> {
    "["@ + pad_left(dec(elapsed as nat), 5) + "s] non-target (other) packets: "@ + dec(
        non_target as nat,
    )
}

/// The line of a platform, with what changed since the last report.
pub open spec fn platform_line(
    snap: SnapshotModel,
    last_rtp: usize,
    last_dropped: usize,
) -> Seq<char> {
    let new_rtp = snap.rtp_packets.saturating_sub(last_rtp);
    let new_drops = snap.dropped_packets.saturating_sub(last_dropped);
    "         ["@ + snap.name + "] RTP: "@ + pad_left(dec(snap.rtp_packets as nat), 9) + " (+"@
        + pad_right(dec(new_rtp as nat), 7) + ") | CSV: "@ + dec(snap.csv_records as nat)
        + " | Dropped: "@ + dec(snap.dropped_packets as nat) + " | Dups: "@ + dec(
        snap.duplicate_records as nat,
    ) + if new_drops > 0 {
        "  ⚠️  +"@ + dec(new_drops as nat) + " NEW DROPS!"@
    } else {
        Seq::empty()
    }
}

/// The lines of a report.
pub open spec fn report_lines(
    before: LiveModel,
    non_target: usize,
    snaps: Seq<SnapshotModel>,
) -> Seq<Seq<char>> {
    seq![head_line(before.elapsed.wrapping_add(REPORT_INTERVAL_SECS), non_target)] + Seq::new(
        snaps.len(),
        |i: int| platform_line(snaps[i], before.last_rtp[i], before.last_dropped[i]),
    )
}

/// The state after a report.
pub open spec fn after_report(before: LiveModel, snaps: Seq<SnapshotModel>) -> LiveModel {
    LiveModel {
        last_rtp: snaps.map_values(|s: SnapshotModel| s.rtp_packets),
        last_dropped: snaps.map_values(|s: SnapshotModel| s.dropped_packets),
        elapsed: before.elapsed.wrapping_add(REPORT_INTERVAL_SECS),
    }
}

fn head_text(elapsed: u64, non_target: usize) -> (line: String)
    ensures
        line@ == head_line(elapsed, non_target),
{
    let mut line = String::new();
    line.append("[");
    push_dec_right(&mut line, elapsed, 5);
    line.append("s] non-target (other) packets: ");
    push_dec(&mut line, non_target as u64);
    assert(line@ =~= head_line(elapsed, non_target));
    line
}

fn platform_text(snap: &PlatformSnapshot, last_rtp: usize, last_dropped: usize) -> (line: String)
    ensures
        line@ == platform_line(snap@, last_rtp, last_dropped),
{
    let new_rtp = snap.rtp_packets.saturating_sub(last_rtp);
    let new_drops = snap.dropped_packets.saturating_sub(last_dropped);
    let mut line = String::new();
    line.append("         [");
    line.append(snap.name);
    line.append("] RTP: ");
    push_dec_right(&mut line, snap.rtp_packets as u64, 9);
    line.append(" (+");
    push_dec_left(&mut line, new_rtp as u64, 7);
    line.append(") | CSV: ");
    push_dec(&mut line, snap.csv_records as u64);
    line.append(" | Dropped: ");
    push_dec(&mut line, snap.dropped_packets as u64);
    line.append(" | Dups: ");
    push_dec(&mut line, snap.duplicate_records as u64);
    if new_drops > 0 {
        line.append("  ⚠️  +");
        push_dec(&mut line, new_drops as u64);
        line.append(" NEW DROPS!");
    }
    assert(line@ =~= platform_line(snap@, last_rtp, last_dropped));
    line
}

impl LiveStats {
    /// Statistics over a number of platforms, none of which was reported yet.
    pub fn new(platform_count: usize) -> (r: LiveStats)
        ensures
            r@.wf(),
            r@ == (LiveModel {
                last_rtp: Seq::new(platform_count as nat, |i: int| 0usize),
                last_dropped: Seq::new(platform_count as nat, |i: int| 0usize),
                elapsed: 0,
            }),
    {
        let mut last_rtp: Vec<usize> = Vec::new();
        let mut last_dropped: Vec<usize> = Vec::new();
        let mut i: usize = 0;
        while i < platform_count
            invariant
                i <= platform_count,
                last_rtp@ == Seq::new(i as nat, |i: int| 0usize),
                last_dropped@ == Seq::new(i as nat, |i: int| 0usize),
            decreases platform_count - i,
        {
            last_rtp.push(0);
            last_dropped.push(0);
            i += 1;
            assert(last_rtp@ =~= Seq::new(i as nat, |i: int| 0usize));
            assert(last_dropped@ =~= Seq::new(i as nat, |i: int| 0usize));
        }
        LiveStats { last_rtp, last_dropped, elapsed: 0 }
    }

    /// The lines of the next report, given the dispatcher's non-target count
    /// and a snapshot of every platform.
    pub fn report(&mut self, non_target: usize, snaps: &Vec<PlatformSnapshot>) -> (lines: Vec<
        String,
    >)
        requires
            old(self)@.wf(),
            old(self)@.platforms() == snaps@.len(),
        ensures
            lines@.map_values(|s: String| s@) == report_lines(
                old(self)@,
                non_target,
                snaps@.map_values(|s: PlatformSnapshot| s@),
            ),
            final(self)@ == after_report(
                old(self)@,
                snaps@.map_values(|s: PlatformSnapshot| s@),
            ),
            final(self)@.wf(),
    {
        let ghost before = self@;
        let ghost models = snaps@.map_values(|s: PlatformSnapshot| s@);
        self.elapsed = self.elapsed.wrapping_add(REPORT_INTERVAL_SECS);
        let mut lines: Vec<String> = Vec::new();
        lines.push(head_text(self.elapsed, non_target));
        let mut last_rtp: Vec<usize> = Vec::new();
        let mut last_dropped: Vec<usize> = Vec::new();
        let mut i: usize = 0;
        while i < snaps.len()
            invariant
                i <= snaps@.len(),
                models == snaps@.map_values(|s: PlatformSnapshot| s@),
                before.wf(),
                before.platforms() == snaps@.len(),
                self.last_rtp@ == before.last_rtp,
                self.last_dropped@ == before.last_dropped,
                self.elapsed == before.elapsed.wrapping_add(REPORT_INTERVAL_SECS),
                lines@.map_values(|s: String| s@) == report_lines(
                    before,
                    non_target,
                    models.take(i as int),
                ),
                last_rtp@ == models.take(i as int).map_values(|s: SnapshotModel| s.rtp_packets),
                last_dropped@ == models.take(i as int).map_values(
                    |s: SnapshotModel| s.dropped_packets,
                ),
            decreases snaps@.len() - i,
        {
            let ghost lines_before = lines@.map_values(|s: String| s@);
            let snap = &snaps[i];
            lines.push(platform_text(snap, self.last_rtp[i], self.last_dropped[i]));
            last_rtp.push(snap.rtp_packets);
            last_dropped.push(snap.dropped_packets);
            proof {
                assert(models[i as int] == snap@);
                assert(lines@.map_values(|s: String| s@) =~= lines_before.push(
                    platform_line(
                        snap@,
                        before.last_rtp[i as int],
                        before.last_dropped[i as int],
                    ),
                ));
                assert(report_lines(before, non_target, models.take(i + 1)) =~= report_lines(
                    before,
                    non_target,
                    models.take(i as int),
                ).push(
                    platform_line(
                        snap@,
                        before.last_rtp[i as int],
                        before.last_dropped[i as int],
                    ),
                ));
                assert(last_rtp@ =~= models.take(i + 1).map_values(
                    |s: SnapshotModel| s.rtp_packets,
                ));
                assert(last_dropped@ =~= models.take(i + 1).map_values(
                    |s: SnapshotModel| s.dropped_packets,
                ));
            }
            i += 1;
        }
        assert(models.take(i as int) =~= models);
        self.last_rtp = last_rtp;
        self.last_dropped = last_dropped;
        lines
    }
}

/// A report has one line for the dispatcher and one per platform, in order.  It
/// shows the time 15 seconds after the last report.
pub proof fn reports_have_one_line_per_platform(
    before: LiveModel,
    non_target: usize,
    snaps: Seq<SnapshotModel>,
    i: int,
)
    requires
        0 <= i < snaps.len(),
        before.elapsed <= u64::MAX - 15,
    ensures
        report_lines(before, non_target, snaps).len() == snaps.len() + 1,
        report_lines(before, non_target, snaps)[0] == head_line(
            (before.elapsed + 15) as u64,
            non_target,
        ),
        report_lines(before, non_target, snaps)[i + 1] == platform_line(
            snaps[i],
            before.last_rtp[i],
            before.last_dropped[i],
        ),
        after_report(before, snaps).elapsed == before.elapsed + 15,
        after_report(before, snaps).platforms() == snaps.len(),
{
}

/// Two reports in a row show what changed between them: the second one compares
/// every platform with the snapshot of the first.
pub proof fn reports_show_the_difference(
    before: LiveModel,
    first: Seq<SnapshotModel>,
    second: Seq<SnapshotModel>,
    non_target: usize,
    i: int,
)
    requires
        0 <= i < first.len(),
        second.len() == first.len(),
    ensures
        report_lines(after_report(before, first), non_target, second)[i + 1] == platform_line(
            second[i],
            first[i].rtp_packets,
            first[i].dropped_packets,
        ),
{
}

/// What the line of the dispatcher shows: the time, and the packets that no
/// platform claimed.
pub proof fn head_lines_show_time_and_other_packets(elapsed: u64, non_target: usize)
    ensures
        head_line(elapsed, non_target) == seq!['['] + pad_left(dec(elapsed as nat), 5)
            + "s] non-target (other) packets: "@ + dec(non_target as nat),
{
    reveal_strlit("[");
    assert("["@ =~= seq!['[']);
}

/// What the line of a platform shows, where its counters went up by `new_rtp` and
/// `new_drops` since the last report: all counters, how many RTP packets are new,
/// and a warning exactly if packets were dropped.
pub proof fn platform_lines_show_every_counter(
    snap: SnapshotModel,
    last_rtp: usize,
    last_dropped: usize,
    new_rtp: nat,
    new_drops: nat,
)
    requires
        last_rtp + new_rtp == snap.rtp_packets,
        last_dropped + new_drops == snap.dropped_packets,
    ensures
        ({
            let line = "         ["@ + snap.name + "] RTP: "@ + pad_left(
                dec(snap.rtp_packets as nat),
                9,
            ) + " (+"@ + pad_right(dec(new_rtp), 7) + ") | CSV: "@ + dec(snap.csv_records as nat)
                + " | Dropped: "@ + dec(snap.dropped_packets as nat) + " | Dups: "@ + dec(
                snap.duplicate_records as nat,
            );
            &&& new_drops == 0 ==> platform_line(snap, last_rtp, last_dropped) == line
            &&& new_drops > 0 ==> platform_line(snap, last_rtp, last_dropped) == line + (
            "  ⚠️  +"@ + dec(new_drops) + " NEW DROPS!"@)
        }),
{
    if new_drops == 0 {
        let line = "         ["@ + snap.name + "] RTP: "@ + pad_left(dec(snap.rtp_packets as nat), 9)
            + " (+"@ + pad_right(dec(new_rtp), 7) + ") | CSV: "@ + dec(snap.csv_records as nat)
            + " | Dropped: "@ + dec(snap.dropped_packets as nat) + " | Dups: "@ + dec(
            snap.duplicate_records as nat,
        );
        assert(line + Seq::<char>::empty() =~= line);
    }
}

} // verus!
