//! The platform abstraction: one conferencing vendor plugged into the shared
//! capture pipeline.

use crate::capture::frame::ParsedPacket;
#[allow(unused_imports)]
use crate::capture::frame::{frame, FrameModel};
use crate::models::timestamp::Timestamp;
use crate::text::push_dec;
#[allow(unused_imports)]
use crate::text::dec;
use vstd::prelude::*;

verus! {

/// A point-in-time summary of a platform's counters.
#[derive(Clone, Copy, Debug)]
pub struct PlatformSnapshot {
    pub name: &'static str,
    pub rtp_packets: usize,
    pub dropped_packets: usize,
    pub csv_records: usize,
    pub duplicate_records: usize,
}

/// Mathematical model of a [`PlatformSnapshot`].
#[verifier::ext_equal]
pub struct SnapshotModel {
    pub name: Seq<char>,
    pub rtp_packets: usize,
    pub dropped_packets: usize,
    pub csv_records: usize,
    pub duplicate_records: usize,
}

impl View for PlatformSnapshot {
    type V = SnapshotModel;

    open spec fn view(&self) -> SnapshotModel {
        SnapshotModel {
            name: self.name@,
            rtp_packets: self.rtp_packets,
            dropped_packets: self.dropped_packets,
            csv_records: self.csv_records,
            duplicate_records: self.duplicate_records,
        }
    }
}

/// One line of a final report.
pub enum StatLine {
    /// A finished line.
    Text(String),
    /// `label`, then `count`, then its share of `total` in percent.
    Share { label: &'static str, count: usize, total: usize },
}

/// Mathematical model of a [`StatLine`].
#[verifier::ext_equal]
pub enum LineModel {
    Text(Seq<char>),
    Share { label: Seq<char>, count: usize, total: usize },
}

impl View for StatLine {
    type V = LineModel;

    open spec fn view(&self) -> LineModel {
        match self {
            StatLine::Text(text) => LineModel::Text(text@),
            StatLine::Share { label, count, total } => LineModel::Share {
                label: label@,
                count: *count,
                total: *total,
            },
        }
    }
}

/// The models of the lines of a report.
pub open spec fn line_models(lines: Seq<StatLine>) -> Seq<LineModel> {
    lines.map_values(|line: StatLine| line@)
}

/// A line that ends in a number.
pub open spec fn numbered(label: Seq<char>, n: usize) -> LineModel {
    LineModel::Text(label + dec(n as nat))
}

/// Append a finished line to a report.
pub fn push_line(out: &mut Vec<StatLine>, text: &str)
    ensures
        line_models(final(out)@) == line_models(old(out)@).push(LineModel::Text(text@)),
{
    let ghost before = line_models(out@);
    let mut line = String::new();
    line.append(text);
    assert(line@ =~= text@);
    out.push(StatLine::Text(line));
    assert(line_models(out@) =~= before.push(LineModel::Text(text@)));
}

/// Append a line that ends in a number to a report.
pub fn push_numbered(out: &mut Vec<StatLine>, label: &str, n: usize)
    ensures
        line_models(final(out)@) == line_models(old(out)@).push(numbered(label@, n)),
{
    let ghost before = line_models(out@);
    let mut line = String::new();
    line.append(label);
    push_dec(&mut line, n as u64);
    assert(line@ =~= label@ + dec(n as nat));
    out.push(StatLine::Text(line));
    assert(line_models(out@) =~= before.push(numbered(label@, n)));
}

/// Append a line with a share in percent to a report.
pub fn push_share(out: &mut Vec<StatLine>, label: &'static str, count: usize, total: usize)
    ensures
        line_models(final(out)@) == line_models(old(out)@).push(
            LineModel::Share { label: label@, count, total },
        ),
{
    let ghost before = line_models(out@);
    out.push(StatLine::Share { label, count, total });
    assert(line_models(out@) =~= before.push(LineModel::Share { label: label@, count, total }));
}

/// One conferencing platform plugged into the shared capture pipeline.
pub trait Platform: Sized + Send + Sync {
    /// What came of handling a packet.
    type Outcome;

    /// Which packets belong to this platform.
    spec fn claims(&self, pkt: FrameModel) -> bool;

    /// What handling a packet at a given time may make of the platform, and with
    /// which outcome.  It depends on whether the platform's queues take what it
    /// sends.
    spec fn handles(
        self,
        pkt: FrameModel,
        now: Timestamp,
        after: Self,
        out: Self::Outcome,
    ) -> bool;

    /// Whether the platform has worker threads that still have to be stopped.
    spec fn running(&self) -> bool;

    /// Whether `after` is the platform after its shutdown was begun.
    spec fn shuts_down(self, after: Self) -> bool;

    /// The counters that the platform shows.
    spec fn counts(&self) -> SnapshotModel;

    /// The platform's final report.
    spec fn report(&self) -> Seq<LineModel>;

    /// Stable identifier, also the prefix of the platform's output files.
    fn name(&self) -> (r: &'static str)
        ensures
            r@ == self.counts().name,
    ;

    /// Does this packet belong to this platform?
    fn classify(&self, pkt: &ParsedPacket) -> (r: bool)
        ensures
            r == self.claims(pkt@),
    ;

    /// Process a packet of this platform that was parsed from a frame.
    fn handle_packet(&mut self, pkt: &ParsedPacket, now: Timestamp) -> (out: Self::Outcome)
        requires
            frame(pkt.raw@) == Some(pkt@),
        ensures
            old(self).handles(pkt@, now, *final(self), out),
    ;

    /// Begin to shut down.  `true` if there are workers to be stopped now; at
    /// most once.
    fn shutdown(&mut self) -> (r: bool)
        ensures
            r == old(self).running(),
            !final(self).running(),
            old(self).shuts_down(*final(self)),
            final(self).counts() == old(self).counts(),
            final(self).report() == old(self).report(),
    ;

    /// Counters for the periodic live statistics.
    fn snapshot(&self) -> (r: PlatformSnapshot)
        ensures
            r@ == self.counts(),
    ;

    /// The lines of the platform's report at the end of a run.
    fn final_stats(&self) -> (r: Vec<StatLine>)
        ensures
            line_models(r@) == self.report(),
    ;
}

/// A numbered line is its label and, directly behind it, the number in decimal.
pub proof fn numbered_lines_end_in_their_number(label: Seq<char>, n: usize)
    ensures
        numbered(label, n) == LineModel::Text(label + dec(n as nat)),
{
}

/// The models of the lines stand for the lines one by one.
pub proof fn reports_list_their_lines(lines: Seq<StatLine>, i: int)
    requires
        0 <= i < lines.len(),
    ensures
        line_models(lines).len() == lines.len(),
        line_models(lines)[i] == lines[i]@,
{
}

} // verus!
