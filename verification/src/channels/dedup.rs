//! Suppression of retransmitted RTP packets.
//!
//! Every SSRC has a window over the 64 sequence numbers up to the highest one
//! accepted so far.  Sequence numbers are 16 bits wide and wrap around.

use std::collections::HashMap;
use vstd::prelude::*;

verus! {

/// Number of sequence numbers a window remembers.
pub const WINDOW: u16 = 64;

/// How far `seq` lies behind `max_seq`, counted around the 16-bit circle.
pub open spec fn behind(max_seq: u16, seq: u16) -> int {
    (max_seq - seq) % 0x10000
}

/// Whether `seq` lies ahead of `max_seq`: less than half the circle forward.
pub open spec fn newer(max_seq: u16, seq: u16) -> bool {
    0 < behind(seq, max_seq) < 0x8000
}

/// What is remembered of one SSRC: the highest sequence number accepted and
/// the accepted numbers among the last 64 up to it.
#[verifier::ext_equal]
pub struct WindowModel {
    pub max_seq: u16,
    pub seen: Set<u16>,
}

impl WindowModel {
    /// A window remembers its highest number and nothing 64 or more behind it.
    pub open spec fn wf(self) -> bool {
        &&& self.seen.contains(self.max_seq)
        &&& forall|s: u16| #[trigger]
            self.seen.contains(s) ==> behind(self.max_seq, s) < WINDOW
    }

    /// The window of an SSRC after its first packet.
    pub open spec fn first(seq: u16) -> WindowModel {
        WindowModel { max_seq: seq, seen: set![seq] }
    }

    /// Whether a packet is dropped: it was accepted before, or it is so old
    /// that the window can no longer tell.
    pub open spec fn rejects(self, seq: u16) -> bool {
        &&& !newer(self.max_seq, seq)
        &&& self.seen.contains(seq) || behind(self.max_seq, seq) >= WINDOW
    }

    /// The window after a packet.
    pub open spec fn after(self, seq: u16) -> WindowModel {
        if self.rejects(seq) {
            self
        } else if newer(self.max_seq, seq) {
            WindowModel {
                max_seq: seq,
                seen: Set::new(
                    |s: u16| behind(seq, s) < WINDOW && (s == seq || self.seen.contains(s)),
                ),
            }
        } else {
            WindowModel { max_seq: self.max_seq, seen: self.seen.insert(seq) }
        }
    }
}

/// Bit `i` of `w`.
pub open spec fn bit(w: u64, i: u64) -> bool {
    (w >> i) & 1 == 1
}

/// One window: bit `i` of `window` is set when the sequence number `i` behind
/// `max_seq` was accepted.
#[derive(Clone, Copy)]
pub struct SeqWindow {
    max_seq: u16,
    window: u64,
}

impl View for SeqWindow {
    type V = WindowModel;

    closed spec fn view(&self) -> WindowModel {
        WindowModel {
            max_seq: self.max_seq,
            seen: Set::new(
                |s: u16|
                    behind(self.max_seq, s) < WINDOW && bit(
                        self.window,
                        behind(self.max_seq, s) as u64,
                    ),
            ),
        }
    }
}

proof fn lemma_one(i: u64)
    by (bit_vector)
    requires
        i < 64,
    ensures
        bit(1, i) <==> i == 0,
{
}

proof fn lemma_shift(w: u64, k: u64, i: u64)
    by (bit_vector)
    requires
        0 < k < 64,
        i < 64,
    ensures
        bit((w << k) | 1, i) <==> i == 0 || (k <= i && bit(w, (i - k) as u64)),
{
}

proof fn lemma_or(w: u64, k: u64, i: u64)
    by (bit_vector)
    requires
        k < 64,
        i < 64,
    ensures
        bit(w | (1u64 << k), i) <==> i == k || bit(w, i),
{
}

proof fn lemma_and(w: u64, k: u64)
    by (bit_vector)
    requires
        k < 64,
    ensures
        w & (1u64 << k) != 0 <==> bit(w, k),
{
}

impl SeqWindow {
    /// The window of an SSRC after its first packet.
    pub fn new(seq: u16) -> (r: SeqWindow)
        ensures
            r@ == WindowModel::first(seq),
            r@.wf(),
    {
        let r = SeqWindow { max_seq: seq, window: 1 };
        proof {
            assert forall|s: u16| r@.seen.contains(s) <==> s == seq by {
                if behind(seq, s) < WINDOW {
                    lemma_one(behind(seq, s) as u64);
                }
            }
            assert(r@ =~= WindowModel::first(seq));
        }
        r
    }

    /// Account for a packet; `true` if it is a duplicate to be dropped.
    pub fn check(&mut self, seq: u16) -> (duplicate: bool)
        requires
            old(self)@.wf(),
        ensures
            duplicate == old(self)@.rejects(seq),
            final(self)@ == old(self)@.after(seq),
            final(self)@.wf(),
    {
        let ghost before = self@;
        let ghost w = self.window;
        let ahead = seq.wrapping_sub(self.max_seq);
        if 0 < ahead && ahead < 0x8000 {
            self.window = if ahead >= WINDOW {
                1
            } else {
                (self.window << (ahead as u64)) | 1
            };
            self.max_seq = seq;
            proof {
                assert forall|s: u16| #[trigger]
                    self@.seen.contains(s) == before.after(seq).seen.contains(s) by {
                    let i = behind(seq, s);
                    if i < WINDOW {
                        lemma_one(i as u64);
                        if ahead < WINDOW {
                            lemma_shift(w, ahead as u64, i as u64);
                        }
                    }
                }
                assert(self@ =~= before.after(seq));
            }
            false
        } else {
            let distance = self.max_seq.wrapping_sub(seq);
            assert(distance == behind(self.max_seq, seq));
            if distance >= WINDOW {
                return true;
            }
            let mask = 1u64 << (distance as u64);
            proof {
                lemma_and(w, distance as u64);
            }
            if self.window & mask != 0 {
                return true;
            }
            self.window = self.window | mask;
            proof {
                assert forall|s: u16| #[trigger]
                    self@.seen.contains(s) == before.after(seq).seen.contains(s) by {
                    let i = behind(self.max_seq, s);
                    if i < WINDOW {
                        lemma_or(w, distance as u64, i as u64);
                    }
                }
                assert(self@ =~= before.after(seq));
            }
            false
        }
    }
}

/// The duplicate filter: one window per SSRC.
pub struct Dedup {
    windows: HashMap<u32, SeqWindow>,
}

impl View for Dedup {
    type V = Map<u32, WindowModel>;

    closed spec fn view(&self) -> Map<u32, WindowModel> {
        self.windows@.map_values(|w: SeqWindow| w@)
    }
}

/// Whether every window is well-formed.
pub open spec fn windows_wf(windows: Map<u32, WindowModel>) -> bool {
    forall|ssrc: u32| #[trigger] windows.contains_key(ssrc) ==> windows[ssrc].wf()
}

/// Whether the filter drops the packet `seq` of `ssrc`.
pub open spec fn drops(windows: Map<u32, WindowModel>, ssrc: u32, seq: u16) -> bool {
    windows.contains_key(ssrc) && windows[ssrc].rejects(seq)
}

/// The filter after the packet `seq` of `ssrc`.
pub open spec fn windows_after(
    windows: Map<u32, WindowModel>,
    ssrc: u32,
    seq: u16,
) -> Map<u32, WindowModel> {
    if windows.contains_key(ssrc) {
        windows.insert(ssrc, windows[ssrc].after(seq))
    } else {
        windows.insert(ssrc, WindowModel::first(seq))
    }
}

impl Dedup {
    /// A filter that has seen nothing.
    pub fn new() -> (r: Dedup)
        ensures
            r@ == Map::<u32, WindowModel>::empty(),
    {
        let r = Dedup { windows: HashMap::new() };
        assert(r@ =~= Map::<u32, WindowModel>::empty());
        r
    }

    /// Account for a packet; `true` if it is a duplicate to be dropped.
    pub fn check(&mut self, ssrc: u32, seq: u16) -> (duplicate: bool)
        requires
            windows_wf(old(self)@),
        ensures
            duplicate == drops(old(self)@, ssrc, seq),
            final(self)@ == windows_after(old(self)@, ssrc, seq),
            windows_wf(final(self)@),
    {
        let ghost before = self@;
        let found: Option<SeqWindow> = match self.windows.get(&ssrc) {
            Some(w) => Some(*w),
            None => None,
        };
        match found {
            None => {
                self.windows.insert(ssrc, SeqWindow::new(seq));
                assert(self@ =~= windows_after(before, ssrc, seq));
                false
            },
            Some(w) => {
                assert(before.contains_key(ssrc) && before[ssrc] == w@);
                let mut w = w;
                let duplicate = w.check(seq);
                self.windows.insert(ssrc, w);
                assert(self@ =~= windows_after(before, ssrc, seq));
                duplicate
            },
        }
    }
}

impl WindowModel {
    /// The window after a run of packets.
    pub open spec fn after_all(self, arrivals: Seq<u16>) -> WindowModel
        decreases arrivals.len(),
    {
        if arrivals.len() == 0 {
            self
        } else {
            self.after_all(arrivals.drop_last()).after(arrivals.last())
        }
    }

    /// By how much a run of packets moves the highest number forward.
    pub open spec fn advance(self, arrivals: Seq<u16>) -> int
        decreases arrivals.len(),
    {
        if arrivals.len() == 0 {
            0
        } else {
            let w = self.after_all(arrivals.drop_last());
            let seq = arrivals.last();
            self.advance(arrivals.drop_last()) + if newer(w.max_seq, seq) {
                behind(seq, w.max_seq)
            } else {
                0
            }
        }
    }
}

/// A packet keeps a window well-formed.
pub proof fn after_keeps_wf(w: WindowModel, seq: u16)
    requires
        w.wf(),
    ensures
        w.after(seq).wf(),
{
}

/// A packet that arrives twice in a row is dropped the second time.
pub proof fn repeat_is_dropped(windows: Map<u32, WindowModel>, ssrc: u32, seq: u16)
    requires
        windows_wf(windows),
    ensures
        drops(windows_after(windows, ssrc, seq), ssrc, seq),
{
    if windows.contains_key(ssrc) {
        after_keeps_wf(windows[ssrc], seq);
    }
}

/// Packets of one SSRC never change what happens to another.
pub proof fn streams_are_independent(
    windows: Map<u32, WindowModel>,
    ssrc: u32,
    seq: u16,
    other_ssrc: u32,
    other_seq: u16,
)
    requires
        ssrc != other_ssrc,
    ensures
        drops(windows_after(windows, ssrc, seq), other_ssrc, other_seq) == drops(
            windows,
            other_ssrc,
            other_seq,
        ),
{
}

/// A packet ahead of everything accepted so far is always accepted.
pub proof fn newer_is_accepted(w: WindowModel, seq: u16)
    requires
        newer(w.max_seq, seq),
    ensures
        !w.rejects(seq),
        w.after(seq).max_seq == seq,
{
}

/// Distances around the circle add up, as long as they stay below a full turn.
proof fn lemma_behind_adds(a: u16, b: u16, c: u16)
    requires
        behind(b, a) + behind(c, b) < 0x10000,
    ensures
        behind(c, a) == behind(b, a) + behind(c, b),
{
}

/// One packet does not make a window forget an accepted number, unless it
/// leaves the window behind.
proof fn lemma_remembers(w: WindowModel, seq: u16, next: u16)
    requires
        w.wf(),
        w.seen.contains(seq) || behind(w.max_seq, seq) >= WINDOW,
        newer(w.max_seq, next) ==> behind(w.max_seq, seq) + behind(next, w.max_seq) < 0x10000,
    ensures
        behind(w.after(next).max_seq, seq) == behind(w.max_seq, seq) + if newer(w.max_seq, next) {
            behind(next, w.max_seq)
        } else {
            0
        },
        w.after(next).seen.contains(seq) || behind(w.after(next).max_seq, seq) >= WINDOW,
{
    if newer(w.max_seq, next) {
        lemma_behind_adds(seq, w.max_seq, next);
    }
}

proof fn lemma_remembered(w: WindowModel, seq: u16, arrivals: Seq<u16>)
    requires
        w.wf(),
        w.seen.contains(seq),
        behind(w.max_seq, seq) + w.advance(arrivals) <= 0x8000,
    ensures
        w.after_all(arrivals).wf(),
        0 <= w.advance(arrivals),
        behind(w.after_all(arrivals).max_seq, seq) == behind(w.max_seq, seq) + w.advance(arrivals),
        w.after_all(arrivals).seen.contains(seq) || behind(w.after_all(arrivals).max_seq, seq)
            >= WINDOW,
    decreases arrivals.len(),
{
    if arrivals.len() > 0 {
        let before = arrivals.drop_last();
        let mid = w.after_all(before);
        let step = if newer(mid.max_seq, arrivals.last()) {
            behind(arrivals.last(), mid.max_seq)
        } else {
            0
        };
        assert(w.advance(arrivals) == w.advance(before) + step);
        assert(0 <= step);
        lemma_remembered(w, seq, before);
        lemma_remembers(mid, seq, arrivals.last());
        after_keeps_wf(mid, arrivals.last());
    }
}

/// Once accepted, a sequence number is dropped on every later arrival, in
/// whatever order other packets come in, as long as the stream has not moved
/// more than half the 16-bit circle past it.
pub proof fn accepted_once(w: WindowModel, seq: u16, arrivals: Seq<u16>)
    requires
        w.wf(),
        w.seen.contains(seq),
        behind(w.max_seq, seq) + w.advance(arrivals) <= 0x8000,
    ensures
        w.after_all(arrivals).rejects(seq),
{
    lemma_remembered(w, seq, arrivals);
}

/// Distances around the 16-bit circle, and which numbers count as newer: those
/// that are reached by less than half the circle forward.
pub proof fn distances_go_around_the_circle(max_seq: u16, seq: u16)
    ensures
        behind(max_seq, seq) == if seq <= max_seq {
            max_seq - seq
        } else {
            max_seq + 0x10000 - seq
        },
        newer(max_seq, seq) <==> {
            ||| max_seq < seq && seq - max_seq <= 0x7fff
            ||| seq < max_seq && seq + 0x10000 - max_seq <= 0x7fff
        },
{
}

/// What a window drops and what it remembers, by how far a number lies behind the
/// highest one: up to 63 it is accepted once; from 64 to half the circle it is
/// dropped; and beyond that it is ahead, is accepted, and takes the window with
/// it.
pub proof fn windows_remember_64_numbers(w: WindowModel, seq: u16, back: int)
    requires
        w.wf(),
        0 <= back < 0x10000,
        seq + back == w.max_seq || seq + back == w.max_seq + 0x10000,
    ensures
        w.rejects(seq) <==> w.seen.contains(seq) || 64 <= back <= 0x8000,
        w.rejects(seq) ==> w.after(seq) == w,
        back < 64 && !w.seen.contains(seq) ==> w.after(seq).max_seq == w.max_seq && w.after(
            seq,
        ).seen == w.seen.insert(seq),
        back > 0x8000 ==> w.after(seq).max_seq == seq && forall|s: u16| #[trigger]
            w.after(seq).seen.contains(s) <==> s == seq || (w.seen.contains(s) && (seq - s) % 0x10000
                < 64),
        WindowModel::first(seq).max_seq == seq,
        forall|s: u16| #[trigger] WindowModel::first(seq).seen.contains(s) <==> s == seq,
{
    assert(behind(w.max_seq, seq) == back);
}

/// The first packet of an SSRC is never dropped, and a packet changes the window
/// of its own SSRC alone.
pub proof fn streams_start_with_their_first_packet(
    windows: Map<u32, WindowModel>,
    ssrc: u32,
    seq: u16,
)
    ensures
        ({
            let after = windows_after(windows, ssrc, seq);
            &&& !windows.contains_key(ssrc) ==> !drops(windows, ssrc, seq) && after[ssrc]
                == WindowModel::first(seq)
            &&& windows.contains_key(ssrc) ==> drops(windows, ssrc, seq)
                == windows[ssrc].rejects(seq) && after[ssrc] == windows[ssrc].after(seq)
            &&& after.contains_key(ssrc)
            &&& after.remove(ssrc) == windows.remove(ssrc)
        }),
{
    assert(windows_after(windows, ssrc, seq).remove(ssrc) =~= windows.remove(ssrc));
}

} // verus!
