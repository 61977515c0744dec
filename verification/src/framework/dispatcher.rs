//! The routing layer: each frame is parsed once and handed to the first
//! platform whose classifier claims it.

use super::platform::Platform;
use crate::capture::frame::{parse_frame, ParsedPacket};
#[allow(unused_imports)]
use crate::capture::frame::{frame, FrameModel};
use crate::models::timestamp::Timestamp;
use vstd::prelude::*;

verus! {

/// Routes parsed packets to the owning platform.
pub struct Dispatcher<P> {
    platforms: Vec<P>,
    non_target: usize,
}

/// The first platform that claims a packet.
pub open spec fn first_claim<P: Platform>(platforms: Seq<P>, pkt: FrameModel) -> Option<int>
    decreases platforms.len(),
{
    if platforms.len() == 0 {
        None
    } else {
        match first_claim(platforms.drop_last(), pkt) {
            Some(i) => Some(i),
            None => if platforms.last().claims(pkt) {
                Some(platforms.len() - 1)
            } else {
                None
            },
        }
    }
}

/// What routing a packet makes of the platforms: the first one that claims it
/// handles it, with the given outcome, and all others stay as they are.
pub open spec fn routes<P: Platform>(
    before: Seq<P>,
    pkt: FrameModel,
    now: Timestamp,
    after: Seq<P>,
    out: Option<P::Outcome>,
) -> bool {
    match first_claim(before, pkt) {
        Some(i) => {
            &&& out matches Some(outcome) && before[i].handles(pkt, now, after[i], outcome)
            &&& after == before.update(i, after[i])
        },
        None => after == before && out is None,
    }
}

/// What a frame makes of a dispatcher: a frame that does not parse, or that no
/// platform claims, is counted as non-target and changes nothing else.
pub open spec fn dispatches<P: Platform>(
    before: Dispatcher<P>,
    data: Seq<u8>,
    now: Timestamp,
    after: Dispatcher<P>,
    out: Option<P::Outcome>,
) -> bool {
    match frame(data) {
        Some(pkt) => {
            &&& routes(before.registered(), pkt, now, after.registered(), out)
            &&& after.non_target() == if first_claim(before.registered(), pkt) is Some {
                before.non_target()
            } else {
                before.non_target().wrapping_add(1)
            }
        },
        None => {
            &&& out is None
            &&& after.registered() == before.registered()
            &&& after.non_target() == before.non_target().wrapping_add(1)
        },
    }
}

/// Whether platform `i` is the first to claim a packet.
pub open spec fn claimed_first<P: Platform>(platforms: Seq<P>, pkt: FrameModel, i: int) -> bool {
    &&& 0 <= i < platforms.len()
    &&& platforms[i].claims(pkt)
    &&& forall|j: int| 0 <= j < i ==> !(#[trigger] platforms[j]).claims(pkt)
}

/// A packet goes to platform `i` exactly if `i` claims it and no earlier one
/// does; it goes nowhere exactly if none claims it.
pub proof fn first_claim_wins<P: Platform>(platforms: Seq<P>, pkt: FrameModel)
    ensures
        forall|i: int|
            first_claim(platforms, pkt) == Some(i) <==> #[trigger] claimed_first(platforms, pkt, i),
        first_claim(platforms, pkt) is None <==> forall|i: int|
            0 <= i < platforms.len() ==> !(#[trigger] platforms[i]).claims(pkt),
    decreases platforms.len(),
{
    if platforms.len() > 0 {
        let rest = platforms.drop_last();
        first_claim_wins(rest, pkt);
        assert forall|i: int| first_claim(platforms, pkt) == Some(i) implies claimed_first(
            platforms,
            pkt,
            i,
        ) by {
            if first_claim(rest, pkt) is Some {
                assert(claimed_first(rest, pkt, i));
                assert(rest[i] == platforms[i]);
            }
            assert forall|j: int| 0 <= j < i implies !(#[trigger] platforms[j]).claims(pkt) by {
                assert(rest[j] == platforms[j]);
            }
        }
        assert forall|i: int| claimed_first(platforms, pkt, i) implies first_claim(platforms, pkt)
            == Some(i) by {
            if i < rest.len() {
                assert forall|j: int| 0 <= j < i implies !(#[trigger] rest[j]).claims(pkt) by {
                    assert(rest[j] == platforms[j]);
                }
                assert(claimed_first(rest, pkt, i));
            } else {
                assert forall|j: int| 0 <= j < rest.len() implies !(
                #[trigger] rest[j]).claims(pkt) by {
                    assert(rest[j] == platforms[j]);
                }
            }
        }
        match first_claim(platforms, pkt) {
            Some(i) => {
                assert(claimed_first(platforms, pkt, i));
            },
            None => {
                assert forall|i: int| 0 <= i < platforms.len() implies !(
                #[trigger] platforms[i]).claims(pkt) by {
                    if i < rest.len() {
                        assert(rest[i] == platforms[i]);
                    }
                }
            },
        }
    }
}

/// A platform registered last takes no packet from those before it.
pub proof fn later_platforms_do_not_interfere<P: Platform>(
    platforms: Seq<P>,
    added: P,
    pkt: FrameModel,
)
    ensures
        first_claim(platforms, pkt) is Some ==> first_claim(platforms.push(added), pkt)
            == first_claim(platforms, pkt),
        first_claim(platforms, pkt) is None ==> first_claim(platforms.push(added), pkt)
            == if added.claims(pkt) {
            Some(platforms.len() as int)
        } else {
            None
        },
{
    assert(platforms.push(added).drop_last() =~= platforms);
}

/// Dispatching never registers, removes or reorders platforms: there are as many
/// as before, and only the one that handled the frame has changed.
pub proof fn dispatching_keeps_the_registration<P: Platform>(
    before: Dispatcher<P>,
    data: Seq<u8>,
    now: Timestamp,
    after: Dispatcher<P>,
    out: Option<P::Outcome>,
    i: int,
)
    requires
        dispatches(before, data, now, after, out),
        0 <= i < before.registered().len(),
    ensures
        after.registered().len() == before.registered().len(),
        after.registered()[i] == before.registered()[i] || (frame(data) matches Some(pkt)
            && first_claim(before.registered(), pkt) == Some(i)),
        out is None ==> after.registered() == before.registered(),
{
    if let Some(pkt) = frame(data) {
        first_claim_wins(before.registered(), pkt);
        if let Some(k) = first_claim(before.registered(), pkt) {
            assert(claimed_first(before.registered(), pkt, k));
        }
    }
}

impl<P> Dispatcher<P> {
    /// The platforms in the order of registration.
    pub closed spec fn registered(&self) -> Seq<P> {
        self.platforms@
    }

    /// Frames that did not parse or that no platform claimed; wraps around.
    pub closed spec fn non_target(&self) -> usize {
        self.non_target
    }

    /// A dispatcher over platforms in the order of classification.
    pub fn new(platforms: Vec<P>) -> (r: Dispatcher<P>)
        ensures
            r.registered() == platforms@,
            r.non_target() == 0,
    {
        Dispatcher { platforms, non_target: 0 }
    }

    /// All registered platforms.
    pub fn platforms(&self) -> (r: &[P])
        ensures
            r@ == self.registered(),
    {
        self.platforms.as_slice()
    }

    /// All registered platforms, to be shut down.
    pub fn platforms_mut(&mut self) -> (r: &mut [P])
        ensures
            r@ == old(self).registered(),
            final(self).registered() == final(r)@,
            final(self).non_target() == old(self).non_target(),
    {
        self.platforms.as_mut_slice()
    }

    /// Frames that did not parse, and frames that no platform claimed.
    pub fn non_target_packets(&self) -> (r: usize)
        ensures
            r == self.non_target(),
    {
        self.non_target
    }
}

impl<P: Platform> Dispatcher<P> {
    /// Route one parsed packet.  Returns what came of it, if a platform claimed
    /// it.
    pub fn route(&mut self, pkt: &ParsedPacket, now: Timestamp) -> (out: Option<P::Outcome>)
        requires
            frame(pkt.raw@) == Some(pkt@),
        ensures
            routes(old(self).registered(), pkt@, now, final(self).registered(), out),
            final(self).non_target() == old(self).non_target(),
    {
        let ghost before = self.platforms@;
        proof {
            first_claim_wins(before, pkt@);
        }
        let mut i: usize = 0;
        while i < self.platforms.len()
            invariant
                i <= self.platforms@.len(),
                self.platforms@ == before,
                before == old(self).registered(),
                self.non_target == old(self).non_target(),
                frame(pkt.raw@) == Some(pkt@),
                forall|k: int|
                    first_claim(before, pkt@) == Some(k) <==> #[trigger] claimed_first(
                        before,
                        pkt@,
                        k,
                    ),
                forall|j: int| 0 <= j < i ==> !(#[trigger] before[j]).claims(pkt@),
            decreases self.platforms@.len() - i,
        {
            if self.platforms[i].classify(pkt) {
                assert(claimed_first(before, pkt@, i as int));
                let outcome = self.platforms[i].handle_packet(pkt, now);
                assert(self.platforms@ =~= before.update(i as int, self.platforms@[i as int]));
                return Some(outcome);
            }
            i += 1;
        }
        None
    }

    /// Parse a frame once and route it to the owning platform.  Returns what came
    /// of it, if a platform claimed it.
    pub fn dispatch(&mut self, data: &[u8], now: Timestamp) -> (out: Option<P::Outcome>)
        ensures
            dispatches(*old(self), data@, now, *final(self), out),
    {
        match parse_frame(data) {
            Some(pkt) => {
                proof {
                    crate::capture::frame::frame_slices_the_capture(data@);
                }
                let out = self.route(&pkt, now);
                if out.is_none() {
                    self.non_target = self.non_target.wrapping_add(1);
                }
                out
            },
            None => {
                self.non_target = self.non_target.wrapping_add(1);
                None
            },
        }
    }
}

/// Install the dispatcher of the process.  Must be called once, before the
/// capture starts.
pub fn install<P: Platform>(slot: &mut Option<Dispatcher<P>>, platforms: Vec<P>)
    requires
        *old(slot) is None,
    ensures
        *final(slot) matches Some(d) && d.registered() == platforms@ && d.non_target() == 0,
{
    *slot = Some(Dispatcher::new(platforms));
}

/// The installed dispatcher.
pub fn get<P>(slot: &Option<Dispatcher<P>>) -> (r: &Dispatcher<P>)
    requires
        *slot is Some,
    ensures
        *slot == Some(*r),
{
    slot.as_ref().unwrap()
}

/// Entry point of the capture path, called once per frame.  Returns what came of
/// the frame, if a platform claimed it.  A frame that comes before the dispatcher
/// is installed is ignored.
pub fn dispatch_frame<P: Platform>(
    slot: &mut Option<Dispatcher<P>>,
    data: &[u8],
    now: Timestamp,
) -> (out: Option<P::Outcome>)
    ensures
        match *old(slot) {
            Some(before) => *final(slot) matches Some(after) && dispatches(
                before,
                data@,
                now,
                after,
                out,
            ),
            None => *final(slot) is None && out is None,
        },
{
    match slot {
        Some(dispatcher) => dispatcher.dispatch(data, now),
        None => None,
    }
}

/// Whether no platform claims a packet.
pub open spec fn unclaimed<P: Platform>(platforms: Seq<P>, pkt: FrameModel) -> bool {
    forall|i: int| 0 <= i < platforms.len() ==> !(#[trigger] platforms[i]).claims(pkt)
}

/// Every frame is accounted for: one that does not parse, or whose packet no
/// platform claims, is counted as non-target and leaves all platforms as they are;
/// any other is handled by the first platform that claims it, and not counted.
pub proof fn frames_are_handled_or_counted<P: Platform>(
    before: Dispatcher<P>,
    data: Seq<u8>,
    now: Timestamp,
    after: Dispatcher<P>,
    out: Option<P::Outcome>,
    i: int,
)
    requires
        dispatches(before, data, now, after, out),
    ensures
        ({
            let platforms = before.registered();
            let other = match frame(data) {
                Some(pkt) => unclaimed(platforms, pkt),
                None => true,
            };
            &&& other ==> {
                &&& out is None
                &&& after.registered() == platforms
                &&& after.non_target() == before.non_target().wrapping_add(1)
            }
            &&& !other ==> out is Some && after.non_target() == before.non_target()
            &&& frame(data) matches Some(pkt) ==> claimed_first(platforms, pkt, i) ==> {
                &&& out matches Some(outcome)
                &&& platforms[i].handles(pkt, now, after.registered()[i], outcome)
                &&& after.registered() == platforms.update(i, after.registered()[i])
            }
        }),
{
    if let Some(pkt) = frame(data) {
        first_claim_wins(before.registered(), pkt);
    }
}

} // verus!
