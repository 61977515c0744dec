//! The platform registry.
//!
//! Each submodule is one isolated conferencing platform.  A new one adds a
//! variant to [`VendorPlatform`] and a line to [`register_all`].

pub mod cidr;
pub mod google_meet;
pub mod teams;

use crate::capture::frame::ParsedPacket;
#[allow(unused_imports)]
use crate::capture::frame::{frame, FrameModel};
#[allow(unused_imports)]
use crate::framework::dispatcher::first_claim;
use crate::framework::platform::{Platform, PlatformSnapshot, StatLine};
#[allow(unused_imports)]
use crate::framework::platform::{LineModel, SnapshotModel};
use crate::models::timestamp::Timestamp;
#[allow(unused_imports)]
use google_meet::classify::meet_address;
use google_meet::GoogleMeetPlatform;
#[allow(unused_imports)]
use teams::classify::{teams_address, teams_packet};
#[allow(unused_imports)]
use teams::ip_ranges::{teams_ipv4, teams_ipv6};
use teams::{Kept, TeamsPlatform};
use vstd::prelude::*;

verus! {

/// One of the platforms.
pub enum VendorPlatform {
    Teams(TeamsPlatform),
    GoogleMeet(GoogleMeetPlatform),
}

/// What came of handling a packet.
pub enum VendorOutcome {
    /// Teams: where an RTP packet went; nothing for other packets.
    Teams(Option<Kept>),
    GoogleMeet,
}

impl Platform for VendorPlatform {
    type Outcome = VendorOutcome;

    open spec fn claims(&self, pkt: FrameModel) -> bool {
        match self {
            VendorPlatform::Teams(p) => p.claims(pkt),
            VendorPlatform::GoogleMeet(p) => p.claims(pkt),
        }
    }

    open spec fn handles(
        self,
        pkt: FrameModel,
        now: Timestamp,
        after: Self,
        out: VendorOutcome,
    ) -> bool {
        match (self, after, out) {
            (
                VendorPlatform::Teams(p),
                VendorPlatform::Teams(q),
                VendorOutcome::Teams(kept),
            ) => p.handles(pkt, now, q, kept),
            (
                VendorPlatform::GoogleMeet(p),
                VendorPlatform::GoogleMeet(q),
                VendorOutcome::GoogleMeet,
            ) => p.handles(pkt, now, q, ()),
            _ => false,
        }
    }

    open spec fn shuts_down(self, after: Self) -> bool {
        match (self, after) {
            (VendorPlatform::Teams(p), VendorPlatform::Teams(q)) => p.shuts_down(q),
            (VendorPlatform::GoogleMeet(p), VendorPlatform::GoogleMeet(q)) => p.shuts_down(q),
            _ => false,
        }
    }

    open spec fn running(&self) -> bool {
        match self {
            VendorPlatform::Teams(p) => p.running(),
            VendorPlatform::GoogleMeet(p) => p.running(),
        }
    }

    open spec fn counts(&self) -> SnapshotModel {
        match self {
            VendorPlatform::Teams(p) => p.counts(),
            VendorPlatform::GoogleMeet(p) => p.counts(),
        }
    }

    open spec fn report(&self) -> Seq<LineModel> {
        match self {
            VendorPlatform::Teams(p) => p.report(),
            VendorPlatform::GoogleMeet(p) => p.report(),
        }
    }

    fn name(&self) -> (r: &'static str) {
        match self {
            VendorPlatform::Teams(p) => p.name(),
            VendorPlatform::GoogleMeet(p) => p.name(),
        }
    }

    fn classify(&self, pkt: &ParsedPacket) -> (r: bool) {
        match self {
            VendorPlatform::Teams(p) => p.classify(pkt),
            VendorPlatform::GoogleMeet(p) => p.classify(pkt),
        }
    }

    fn handle_packet(&mut self, pkt: &ParsedPacket, now: Timestamp) -> (out: VendorOutcome) {
        match self {
            VendorPlatform::Teams(p) => VendorOutcome::Teams(p.handle_packet(pkt, now)),
            VendorPlatform::GoogleMeet(p) => {
                p.handle_packet(pkt, now);
                VendorOutcome::GoogleMeet
            },
        }
    }

    fn shutdown(&mut self) -> (r: bool) {
        match self {
            VendorPlatform::Teams(p) => p.shutdown(),
            VendorPlatform::GoogleMeet(p) => p.shutdown(),
        }
    }

    fn snapshot(&self) -> (r: PlatformSnapshot) {
        match self {
            VendorPlatform::Teams(p) => p.snapshot(),
            VendorPlatform::GoogleMeet(p) => p.snapshot(),
        }
    }

    fn final_stats(&self) -> (r: Vec<StatLine>) {
        match self {
            VendorPlatform::Teams(p) => p.final_stats(),
            VendorPlatform::GoogleMeet(p) => p.final_stats(),
        }
    }
}

/// Every platform, in the order of classification: Teams first, then Google
/// Meet.
pub fn register_all(teams: TeamsPlatform) -> (r: Vec<VendorPlatform>)
    ensures
        r@.len() == 2,
        r@[0] == VendorPlatform::Teams(teams),
        r@[1] is GoogleMeet,
{
    let mut platforms: Vec<VendorPlatform> = Vec::new();
    platforms.push(VendorPlatform::Teams(teams));
    platforms.push(VendorPlatform::GoogleMeet(GoogleMeetPlatform::start()));
    platforms
}

/// No address belongs to both Teams and Google Meet.
pub proof fn vendor_ranges_are_disjoint(is_ipv6: bool, ip: Seq<u8>)
    ensures
        !(teams_address(is_ipv6, ip) && meet_address(is_ipv6, ip)),
{
    if teams_address(is_ipv6, ip) {
        assert(ip[0] == if is_ipv6 { 0x26u8 } else { 52u8 });
    }
}

/// With all platforms registered, Teams gets exactly the Teams packets, and
/// nobody gets any other packet.
pub proof fn registration_preserves_teams(platforms: Seq<VendorPlatform>, pkt: FrameModel)
    requires
        platforms.len() == 2,
        platforms[0] is Teams,
        platforms[1] is GoogleMeet,
    ensures
        first_claim(platforms, pkt) == if teams_packet(pkt) {
            Some(0int)
        } else {
            None
        },
{
    let first = platforms.drop_last();
    assert(first.drop_last() =~= Seq::<VendorPlatform>::empty());
    assert(first.last() == platforms[0]);
    reveal_with_fuel(first_claim, 3);
}

/// Each of the platforms is asked in its own terms: Teams claims the packets with
/// an end in the Teams media ranges, and Google Meet none.
pub proof fn vendors_claim_their_own(p: VendorPlatform, pkt: FrameModel)
    ensures
        p is Teams ==> (p.claims(pkt) <==> teams_address(pkt.is_ipv6, pkt.src_ip) || teams_address(
            pkt.is_ipv6,
            pkt.dst_ip,
        )),
        p is GoogleMeet ==> !p.claims(pkt),
        p is Teams ==> p.counts() == p->Teams_0.counts() && p.report() == p->Teams_0.report()
            && p.running() == p->Teams_0.running(),
        p is GoogleMeet ==> p.counts() == p->GoogleMeet_0.counts() && p.report()
            == p->GoogleMeet_0.report() && !p.running(),
{
}

/// Each of the platforms handles packets and shuts down in its own way, and stays
/// the platform that it is.
pub proof fn vendors_act_on_their_own(
    p: VendorPlatform,
    pkt: FrameModel,
    now: Timestamp,
    q: VendorPlatform,
    out: VendorOutcome,
)
    ensures
        p.handles(pkt, now, q, out) ==> match p {
            VendorPlatform::Teams(t) => q is Teams && out is Teams && t.handles(
                pkt,
                now,
                q->Teams_0,
                out->Teams_0,
            ),
            VendorPlatform::GoogleMeet(_) => q == p && out is GoogleMeet,
        },
        p.shuts_down(q) ==> match p {
            VendorPlatform::Teams(t) => q is Teams && t.shuts_down(q->Teams_0),
            VendorPlatform::GoogleMeet(_) => q == p,
        },
{
}

} // verus!
