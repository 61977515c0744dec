//! The Google Meet platform: it is registered, but claims no packets yet.  It has
//! no worker threads, files or queues.

pub mod classify;
pub mod ip_ranges;

use crate::capture::frame::ParsedPacket;
#[allow(unused_imports)]
use crate::capture::frame::{frame, FrameModel};
use crate::framework::platform::{push_line, Platform, PlatformSnapshot, StatLine};
#[allow(unused_imports)]
use crate::framework::platform::{line_models, LineModel, SnapshotModel};
use crate::models::timestamp::Timestamp;
use vstd::prelude::*;

verus! {

/// The Google Meet platform.
pub struct GoogleMeetPlatform {}

impl GoogleMeetPlatform {
    /// The platform.  Starts nothing.
    pub fn start() -> (r: GoogleMeetPlatform)
        ensures
            !r.running(),
    {
        GoogleMeetPlatform {  }
    }
}

impl Platform for GoogleMeetPlatform {
    type Outcome = ();

    open spec fn claims(&self, pkt: FrameModel) -> bool {
        false
    }

    open spec fn handles(self, pkt: FrameModel, now: Timestamp, after: Self, out: ()) -> bool {
        after == self
    }

    open spec fn shuts_down(self, after: Self) -> bool {
        after == self
    }

    open spec fn running(&self) -> bool {
        false
    }

    open spec fn counts(&self) -> SnapshotModel {
        SnapshotModel {
            name: "google_meet"@,
            rtp_packets: 0,
            dropped_packets: 0,
            csv_records: 0,
            duplicate_records: 0,
        }
    }

    open spec fn report(&self) -> Seq<LineModel> {
        seq![
            LineModel::Text(""@),
            LineModel::Text("── Platform: Google Meet ──────────────────────────────"@),
            LineModel::Text("  (scaffold — not yet implemented; no packets processed)"@),
        ]
    }

    fn name(&self) -> (r: &'static str) {
        "google_meet"
    }

    fn classify(&self, pkt: &ParsedPacket) -> (r: bool) {
        false
    }

    fn handle_packet(&mut self, pkt: &ParsedPacket, now: Timestamp) -> (out: ()) {
    }

    fn shutdown(&mut self) -> (r: bool) {
        false
    }

    fn snapshot(&self) -> (r: PlatformSnapshot) {
        PlatformSnapshot {
            name: "google_meet",
            rtp_packets: 0,
            dropped_packets: 0,
            csv_records: 0,
            duplicate_records: 0,
        }
    }

    fn final_stats(&self) -> (r: Vec<StatLine>) {
        let mut out: Vec<StatLine> = Vec::new();
        push_line(&mut out, "");
        push_line(&mut out, "── Platform: Google Meet ──────────────────────────────");
        push_line(&mut out, "  (scaffold — not yet implemented; no packets processed)");
        assert(line_models(out@) =~= self.report());
        out
    }
}

/// The platform is inert: it claims no packet, handles none, has counted none and
/// has nothing to shut down.
pub proof fn google_meet_is_inert(
    p: GoogleMeetPlatform,
    pkt: FrameModel,
    now: Timestamp,
    after: GoogleMeetPlatform,
)
    ensures
        !p.claims(pkt),
        !p.running(),
        p.handles(pkt, now, after, ()) ==> after == p,
        p.shuts_down(after) ==> after == p,
        p.counts().name == "google_meet"@,
        p.counts().rtp_packets == 0,
        p.counts().dropped_packets == 0,
        p.counts().csv_records == 0,
        p.counts().duplicate_records == 0,
{
}

/// What the final report says of the platform.
pub proof fn google_meet_reports_that_it_is_inert(p: GoogleMeetPlatform)
    ensures
        p.report().len() == 3,
        p.report()[0] == LineModel::Text(""@),
        p.report()[1] == LineModel::Text(
            "── Platform: Google Meet ──────────────────────────────"@,
        ),
        p.report()[2] == LineModel::Text(
            "  (scaffold — not yet implemented; no packets processed)"@,
        ),
{
}

} // verus!
