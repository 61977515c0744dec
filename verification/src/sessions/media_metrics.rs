//! Media quality of one session, in bins of five seconds.
//!
//! Only downlink packets count.  Small ones are audio, the others video.  Every
//! distinct RTP timestamp of a video stream is one video frame.

use super::network_metrics::is_server_ip;
#[allow(unused_imports)]
use super::network_metrics::{
    lemma_wrapped_add, lemma_wrapped_small, server_ip, total_len, wrapped,
};
use crate::models::rtp_record::RtpRecord;
#[allow(unused_imports)]
use crate::models::rtp_record::RecordModel;
use std::collections::{HashMap, HashSet};
use vstd::prelude::*;

verus! {

/// The largest UDP length of an audio packet.
pub const MAX_AUDIO_LEN: u16 = 400;

/// The shortest gap between two video frames, in ticks of the 90 kHz video
/// clock (60 frames per second).
pub const MIN_GAP: u32 = 1_500;

/// The longest gap between two video frames (1 frame per second).
pub const MAX_GAP: u32 = 90_000;

/// The video packets of one SSRC in this bin.
struct StreamState {
    frame_arrivals: HashMap<u32, u64>,
    total_bytes: u64,
}

/// Mathematical model of the video packets of one SSRC in a bin.
#[verifier::ext_equal]
pub struct StreamModel {
    /// The arrival of the first packet of every frame, by RTP timestamp.
    pub frames: Map<u32, u64>,
    /// Bytes of all packets.
    pub total_bytes: u64,
}

impl StreamModel {
    /// A stream without packets.
    pub open spec fn empty() -> StreamModel {
        StreamModel { frames: Map::empty(), total_bytes: 0 }
    }

    /// The stream after a packet.  Only the first packet of a frame decides when
    /// the frame arrived.
    pub open spec fn after(self, r: RecordModel) -> StreamModel {
        StreamModel {
            frames: if self.frames.contains_key(r.rtp_timestamp) {
                self.frames
            } else {
                self.frames.insert(r.rtp_timestamp, r.arrival_epoch_ns)
            },
            total_bytes: self.total_bytes.wrapping_add(r.udp_len as u64),
        }
    }
}

impl StreamState {
    spec fn model(self) -> StreamModel {
        StreamModel { frames: self.frame_arrivals@, total_bytes: self.total_bytes }
    }
}

/// Media metrics of one session.
pub struct MediaMetrics {
    streams: HashMap<u32, StreamState>,
    all_ssrcs: HashSet<u32>,
    audio_bytes: u64,
    video_bytes: u64,
}

/// Mathematical model of [`MediaMetrics`].
#[verifier::ext_equal]
pub struct MediaModel {
    /// The video streams seen since the session started.
    pub streams: Map<u32, StreamModel>,
    /// The SSRCs seen in this bin, audio and video.
    pub ssrcs: Set<u32>,
    pub audio_bytes: u64,
    pub video_bytes: u64,
}

impl View for MediaMetrics {
    type V = MediaModel;

    closed spec fn view(&self) -> MediaModel {
        MediaModel {
            streams: self.streams@.map_values(|s: StreamState| s.model()),
            ssrcs: self.all_ssrcs@,
            audio_bytes: self.audio_bytes,
            video_bytes: self.video_bytes,
        }
    }
}

impl MediaModel {
    /// Metrics that have seen nothing.
    pub open spec fn empty() -> MediaModel {
        MediaModel {
            streams: Map::empty(),
            ssrcs: Set::empty(),
            audio_bytes: 0,
            video_bytes: 0,
        }
    }

    /// The video stream of an SSRC.
    pub open spec fn stream(self, ssrc: u32) -> StreamModel {
        if self.streams.contains_key(ssrc) {
            self.streams[ssrc]
        } else {
            StreamModel::empty()
        }
    }

    /// The metrics after a packet.
    pub open spec fn after(self, r: RecordModel) -> MediaModel {
        if !server_ip(r.src_ip) {
            self
        } else if r.udp_len <= MAX_AUDIO_LEN {
            MediaModel {
                ssrcs: self.ssrcs.insert(r.ssrc),
                audio_bytes: self.audio_bytes.wrapping_add(r.udp_len as u64),
                ..self
            }
        } else {
            MediaModel {
                streams: self.streams.insert(r.ssrc, self.stream(r.ssrc).after(r)),
                ssrcs: self.ssrcs.insert(r.ssrc),
                audio_bytes: self.audio_bytes,
                video_bytes: self.video_bytes.wrapping_add(r.udp_len as u64),
            }
        }
    }

    /// The metrics at the start of the next bin: the known streams, all empty.
    pub open spec fn next_bin(self) -> MediaModel {
        MediaModel {
            streams: self.streams.map_values(|s: StreamModel| StreamModel::empty()),
            ssrcs: Set::empty(),
            audio_bytes: 0,
            video_bytes: 0,
        }
    }
}

/// One more element of a sequence is one more element of the set.
proof fn lemma_take_to_set(s: Seq<u32>, i: int)
    requires
        0 <= i < s.len(),
    ensures
        s.take(i + 1).to_set() == s.take(i).to_set().insert(s[i]),
{
    broadcast use vstd::seq_lib::group_seq_properties;

    assert(s.take(i + 1) =~= s.take(i).push(s[i]));
    assert(s.take(i + 1).to_set() =~= s.take(i).to_set().insert(s[i]));
}

impl MediaMetrics {
    /// Metrics that have seen nothing.
    pub fn new() -> (r: MediaMetrics)
        ensures
            r@ == MediaModel::empty(),
    {
        let r = MediaMetrics {
            streams: HashMap::new(),
            all_ssrcs: HashSet::new(),
            audio_bytes: 0,
            video_bytes: 0,
        };
        assert(r@ =~= MediaModel::empty());
        r
    }

    /// Account for a packet.
    pub fn process_packet(&mut self, record: &RtpRecord)
        ensures
            final(self)@ == old(self)@.after(record@),
    {
        if !is_server_ip(record.src_ip.as_str()) {
            return;
        }
        self.all_ssrcs.insert(record.ssrc);
        if record.udp_len <= MAX_AUDIO_LEN {
            self.audio_bytes = self.audio_bytes.wrapping_add(record.udp_len as u64);
        } else {
            self.video_bytes = self.video_bytes.wrapping_add(record.udp_len as u64);
            let mut stream = match self.streams.remove(&record.ssrc) {
                Some(stream) => stream,
                None => StreamState { frame_arrivals: HashMap::new(), total_bytes: 0 },
            };
            assert(stream.model() == old(self)@.stream(record.ssrc));
            if !stream.frame_arrivals.contains_key(&record.rtp_timestamp) {
                stream.frame_arrivals.insert(record.rtp_timestamp, record.arrival_epoch_ns);
            }
            stream.total_bytes = stream.total_bytes.wrapping_add(record.udp_len as u64);
            self.streams.insert(record.ssrc, stream);
        }
        assert(self@ =~= old(self)@.after(record@));
    }

    /// Start the next bin.
    pub fn reset_bin(&mut self)
        ensures
            final(self)@ == old(self)@.next_bin(),
    {
        let mut streams: HashMap<u32, StreamState> = HashMap::new();
        for ssrc in it: self.streams.keys()
            invariant
                it.seq().unref().to_set() == self.streams@.dom(),
                streams@.dom() == it.seq().unref().take(it.index()).to_set(),
                it.index() == it.seq().len() ==> streams@.dom() == self.streams@.dom(),
                forall|k: u32| #[trigger]
                    streams@.contains_key(k) ==> streams@[k].model() == StreamModel::empty(),
        {
            let ghost keys = it.seq().unref();
            proof {
                lemma_take_to_set(keys, it.index());
            }
            streams.insert(*ssrc, StreamState { frame_arrivals: HashMap::new(), total_bytes: 0 });
            assert(keys.take(keys.len() as int) =~= keys);
        }
        self.streams = streams;
        self.all_ssrcs.clear();
        self.audio_bytes = 0;
        self.video_bytes = 0;
        assert(self@ =~= old(self)@.next_bin());
    }
}


/// Whether `a` and `b` are frames with no other frame between them.
pub open spec fn consecutive(frames: Map<u32, u64>, a: u32, b: u32) -> bool {
    &&& frames.contains_key(a)
    &&& frames.contains_key(b)
    &&& a < b
    &&& forall|c: u32| #[trigger] frames.contains_key(c) ==> c <= a || b <= c
}

/// Whether the frames are those of a video stream: at least two of them follow
/// each other at the pace of a video.
pub open spec fn is_video(frames: Map<u32, u64>) -> bool {
    exists|a: u32, b: u32| #[trigger]
        consecutive(frames, a, b) && MIN_GAP <= b - a <= MAX_GAP
}

/// Whether `s` lists RTP timestamps in ascending order.
pub open spec fn ascending(s: Seq<(u32, u64)>) -> bool {
    forall|i: int, j: int| 0 <= i < j < s.len() ==> s[i].0 < s[j].0
}

/// Whether `s` holds the frame with timestamp `ts`.
pub open spec fn lists(s: Seq<(u32, u64)>, ts: u32) -> bool {
    exists|i: int| 0 <= i < s.len() && #[trigger] s[i].0 == ts
}

/// Whether `s` lists exactly the given frames, each with its arrival, by
/// ascending RTP timestamp.
pub open spec fn in_order(frames: Map<u32, u64>, s: Seq<(u32, u64)>) -> bool {
    &&& ascending(s)
    &&& forall|i: int|
        0 <= i < s.len() ==> frames.contains_key((#[trigger] s[i]).0) && frames[s[i].0] == s[i].1
    &&& forall|ts: u32| #[trigger] frames.contains_key(ts) ==> lists(s, ts)
}

/// Neighbours in the list are the frames with no other frame between them.
proof fn lemma_neighbours(frames: Map<u32, u64>, s: Seq<(u32, u64)>)
    requires
        in_order(frames, s),
    ensures
        forall|i: int| 0 < i < s.len() ==> #[trigger] consecutive(frames, s[i - 1].0, s[i].0),
        forall|a: u32, b: u32| #[trigger]
            consecutive(frames, a, b) ==> exists|i: int|
                0 < i < s.len() && s[i - 1].0 == a && #[trigger] s[i].0 == b,
{
    assert forall|i: int| 0 < i < s.len() implies #[trigger] consecutive(
        frames,
        s[i - 1].0,
        s[i].0,
    ) by {
        assert forall|c: u32| #[trigger] frames.contains_key(c) implies c <= s[i - 1].0 || s[i].0
            <= c by {
            assert(lists(s, c));
        }
    }
    assert forall|a: u32, b: u32| #[trigger] consecutive(frames, a, b) implies exists|i: int|
        0 < i < s.len() && s[i - 1].0 == a && #[trigger] s[i].0 == b by {
        assert(lists(s, a) && lists(s, b));
        let i = choose|i: int| 0 <= i < s.len() && #[trigger] s[i].0 == a;
        let j = choose|j: int| 0 <= j < s.len() && #[trigger] s[j].0 == b;
        assert(i < j);
        if i + 1 < j {
            assert(frames.contains_key(s[i + 1].0));
            assert(s[i].0 < s[i + 1].0 < s[j].0);
        }
        assert(s[j - 1].0 == a);
    }
}

/// Add a frame to a list that does not hold it yet.
fn insert_frame(frames: &mut Vec<(u32, u64)>, ts: u32, arrival: u64)
    requires
        ascending(old(frames)@),
        !lists(old(frames)@, ts),
    ensures
        ascending(final(frames)@),
        exists|k: int|
            0 <= k <= old(frames)@.len() && final(frames)@ == #[trigger] old(frames)@.insert(
                k,
                (ts, arrival),
            ),
{
    let mut k: usize = frames.len();
    while k > 0 && frames[k - 1].0 > ts
        invariant
            k <= frames@.len(),
            frames@ == old(frames)@,
            forall|i: int| k <= i < frames@.len() ==> frames@[i].0 > ts,
        decreases k,
    {
        k -= 1;
    }
    assert forall|i: int| 0 <= i < k implies frames@[i].0 < ts by {
        assert(frames@[i].0 != ts);
        assert(frames@[k - 1].0 != ts);
    }
    frames.insert(k, (ts, arrival));
}

/// The frames of a stream, by ascending RTP timestamp.
fn sorted_frames(arrivals: &HashMap<u32, u64>) -> (r: Vec<(u32, u64)>)
    ensures
        in_order(arrivals@, r@),
{
    let mut frames: Vec<(u32, u64)> = Vec::new();
    for entry in it: arrivals.iter()
        invariant
            it.seq().no_duplicates(),
            forall|j: int|
                0 <= j < it.seq().len() ==> arrivals@.contains_key(*(#[trigger] it.seq()[j]).0)
                    && arrivals@[*it.seq()[j].0] == *it.seq()[j].1,
            forall|ts: u32| #[trigger]
                arrivals@.contains_key(ts) ==> it.seq().contains((&ts, &arrivals@[ts])),
            ascending(frames@),
            forall|i: int|
                0 <= i < frames@.len() ==> arrivals@.contains_key((#[trigger] frames@[i]).0)
                    && arrivals@[frames@[i].0] == frames@[i].1 && exists|j: int|
                    0 <= j < it.index() && *(#[trigger] it.seq()[j]).0 == frames@[i].0,
            forall|j: int|
                0 <= j < it.index() ==> lists(frames@, *(#[trigger] it.seq()[j]).0),
            it.index() == it.seq().len() ==> in_order(arrivals@, frames@),
    {
        let ts = *entry.0;
        let arrival = *entry.1;
        let ghost before = frames@;
        let ghost n = it.index();
        proof {
            if lists(before, ts) {
                let i = choose|i: int| 0 <= i < before.len() && #[trigger] before[i].0 == ts;
                let j = choose|j: int|
                    0 <= j < n && *(#[trigger] it.seq()[j]).0 == before[i].0;
                assert(it.seq()[j] == it.seq()[n]);
            }
        }
        insert_frame(&mut frames, ts, arrival);
        proof {
            let k = choose|k: int|
                0 <= k <= before.len() && frames@ == #[trigger] before.insert(k, (ts, arrival));
            assert(frames@[k] == (ts, arrival));
            assert forall|i: int| 0 <= i < before.len() implies lists(
                frames@,
                (#[trigger] before[i]).0,
            ) by {
                assert(frames@[if i < k { i } else { i + 1 }] == before[i]);
            }
            assert forall|i: int| 0 <= i < frames@.len() implies arrivals@.contains_key(
                (#[trigger] frames@[i]).0,
            ) && arrivals@[frames@[i].0] == frames@[i].1 && exists|j: int|
                0 <= j < n + 1 && *(#[trigger] it.seq()[j]).0 == frames@[i].0 by {
                if i == k {
                    assert(*it.seq()[n].0 == frames@[i].0);
                } else {
                    assert(frames@[i] == before[if i < k { i } else { i - 1 }]);
                }
            }
            assert forall|j: int| 0 <= j < n + 1 implies lists(
                frames@,
                *(#[trigger] it.seq()[j]).0,
            ) by {
                if j < n {
                    assert(lists(before, *it.seq()[j].0));
                }
            }
            assert forall|t: u32|
                n + 1 == it.seq().len() && #[trigger] arrivals@.contains_key(t) implies lists(
                frames@,
                t,
            ) by {
                assert(it.seq().contains((&t, &arrivals@[t])));
            }
        }
    }
    frames
}

/// Whether listed frames are those of a video stream.
fn has_video_gap(frames: &Vec<(u32, u64)>) -> (r: bool)
    requires
        ascending(frames@),
    ensures
        r <==> exists|i: int|
            0 < i < frames@.len() && MIN_GAP <= (#[trigger] frames@[i]).0 - frames@[i - 1].0
                <= MAX_GAP,
{
    let mut i: usize = 1;
    while i < frames.len()
        invariant
            ascending(frames@),
            1 <= i,
            forall|j: int|
                0 < j < i && j < frames@.len() ==> !(MIN_GAP <= (#[trigger] frames@[j]).0
                    - frames@[j - 1].0 <= MAX_GAP),
        decreases frames@.len() - i,
    {
        let gap = frames[i].0 - frames[i - 1].0;
        if MIN_GAP <= gap && gap <= MAX_GAP {
            return true;
        }
        i += 1;
    }
    false
}


/// What a bin says about one video stream.
pub struct StreamReport {
    pub ssrc: u32,
    /// RTP timestamp and arrival of every frame, by ascending RTP timestamp.
    pub frames: Vec<(u32, u64)>,
    /// Bytes of all video packets of the stream.
    pub total_bytes: u64,
}

impl StreamReport {
    /// Whether the report describes the given stream.
    pub open spec fn describes(self, stream: StreamModel) -> bool {
        &&& in_order(stream.frames, self.frames@)
        &&& self.total_bytes == stream.total_bytes
    }

    /// The time from the first frame to the last, in ticks of the video clock.
    pub fn span_ticks(&self) -> (r: u32)
        requires
            self.frames@.len() > 0,
            ascending(self.frames@),
        ensures
            r == self.frames@.last().0 - self.frames@[0].0,
    {
        let last = self.frames.len() - 1;
        assert(last > 0 ==> self.frames@[0].0 < self.frames@[last as int].0);
        self.frames[last].0 - self.frames[0].0
    }

    /// The time between the arrivals of neighbouring frames, in nanoseconds;
    /// zero where the later frame arrived first.
    pub fn arrival_gaps_ns(&self) -> (r: Vec<u64>)
        requires
            self.frames@.len() > 0,
        ensures
            r@ == Seq::new(
                (self.frames@.len() - 1) as nat,
                |i: int| self.frames@[i + 1].1.saturating_sub(self.frames@[i].1),
            ),
    {
        let mut gaps: Vec<u64> = Vec::new();
        let mut i: usize = 1;
        while i < self.frames.len()
            invariant
                1 <= i <= self.frames@.len(),
                gaps@ == Seq::new(
                    (i - 1) as nat,
                    |j: int| self.frames@[j + 1].1.saturating_sub(self.frames@[j].1),
                ),
            decreases self.frames@.len() - i,
        {
            gaps.push(self.frames[i].1.saturating_sub(self.frames[i - 1].1));
            i += 1;
        }
        gaps
    }
}

/// What a bin says about the media of a session.
pub struct MediaReport {
    /// The streams that carried video.
    pub streams: Vec<StreamReport>,
    /// The number of SSRCs seen, audio and video.
    pub active_total_streams: usize,
    pub audio_bytes: u64,
    pub video_bytes: u64,
}

/// Whether a list of reports holds one on the given SSRC.
pub open spec fn reports_on(streams: Seq<StreamReport>, ssrc: u32) -> bool {
    exists|i: int| 0 <= i < streams.len() && (#[trigger] streams[i]).ssrc == ssrc
}

impl MediaReport {
    /// Whether the report describes the given metrics: it has one entry for
    /// every stream that carried video, in no particular order.
    pub open spec fn describes(self, m: MediaModel) -> bool {
        &&& forall|i: int, j: int|
            0 <= i < j < self.streams@.len() ==> self.streams@[i].ssrc != self.streams@[j].ssrc
        &&& forall|i: int|
            0 <= i < self.streams@.len() ==> m.streams.contains_key(
                (#[trigger] self.streams@[i]).ssrc,
            ) && is_video(m.streams[self.streams@[i].ssrc].frames) && self.streams@[i].describes(
                m.streams[self.streams@[i].ssrc],
            )
        &&& forall|ssrc: u32| #[trigger]
            m.streams.contains_key(ssrc) && is_video(m.streams[ssrc].frames) ==> reports_on(
                self.streams@,
                ssrc,
            )
        &&& self.active_total_streams == m.ssrcs.len()
        &&& self.audio_bytes == m.audio_bytes
        &&& self.video_bytes == m.video_bytes
    }

    /// The number of streams that carried video.
    pub fn active_video_streams(&self) -> (r: usize)
        ensures
            r == self.streams@.len(),
    {
        self.streams.len()
    }

    /// The number of SSRCs that carried no video.
    pub fn active_audio_streams(&self) -> (r: usize)
        ensures
            r == self.active_total_streams.saturating_sub(self.streams@.len() as usize),
    {
        self.active_total_streams.saturating_sub(self.streams.len())
    }
}

impl MediaMetrics {
    /// What this bin says about the media of the session.
    pub fn report(&self) -> (r: MediaReport)
        ensures
            r.describes(self@),
    {
        let mut streams: Vec<StreamReport> = Vec::new();
        for entry in it: self.streams.iter()
            invariant
                it.seq().no_duplicates(),
                forall|j: int|
                    0 <= j < it.seq().len() ==> self.streams@.contains_key(
                        *(#[trigger] it.seq()[j]).0,
                    ) && self.streams@[*it.seq()[j].0] == *it.seq()[j].1,
                forall|k: u32| #[trigger]
                    self.streams@.contains_key(k) ==> it.seq().contains((&k, &self.streams@[k])),
                forall|i: int, j: int|
                    0 <= i < j < streams@.len() ==> streams@[i].ssrc != streams@[j].ssrc,
                forall|i: int|
                    0 <= i < streams@.len() ==> self@.streams.contains_key(
                        (#[trigger] streams@[i]).ssrc,
                    ) && is_video(self@.streams[streams@[i].ssrc].frames) && streams@[i].describes(
                        self@.streams[streams@[i].ssrc],
                    ) && exists|j: int|
                        0 <= j < it.index() && *(#[trigger] it.seq()[j]).0 == streams@[i].ssrc,
                forall|j: int|
                    0 <= j < it.index() && is_video((*(#[trigger] it.seq()[j]).1).model().frames)
                        ==> reports_on(streams@, *it.seq()[j].0),
                it.index() == it.seq().len() ==> forall|k: u32| #[trigger]
                    self@.streams.contains_key(k) && is_video(self@.streams[k].frames)
                        ==> reports_on(streams@, k),
        {
            let ssrc = *entry.0;
            let stream = entry.1;
            let frames = sorted_frames(&stream.frame_arrivals);
            let ghost before = streams@;
            let ghost n = it.index();
            let ghost model = stream.model();
            proof {
                lemma_neighbours(model.frames, frames@);
                assert(self@.streams[ssrc] == model);
            }
            let video = has_video_gap(&frames);
            assert(video <==> is_video(model.frames)) by {
                if video {
                    let i = choose|i: int|
                        0 < i < frames@.len() && MIN_GAP <= (#[trigger] frames@[i]).0 - frames@[i
                            - 1].0 <= MAX_GAP;
                    assert(consecutive(model.frames, frames@[i - 1].0, frames@[i].0));
                }
                if is_video(model.frames) {
                    let (a, b) = choose|a: u32, b: u32| #[trigger]
                        consecutive(model.frames, a, b) && MIN_GAP <= b - a <= MAX_GAP;
                    let i = choose|i: int|
                        0 < i < frames@.len() && frames@[i - 1].0 == a && #[trigger] frames@[i].0
                            == b;
                    assert(MIN_GAP <= frames@[i].0 - frames@[i - 1].0 <= MAX_GAP);
                }
            }
            proof {
                if reports_on(before, ssrc) {
                    let i = choose|i: int|
                        0 <= i < before.len() && (#[trigger] before[i]).ssrc == ssrc;
                    let j = choose|j: int|
                        0 <= j < n && *(#[trigger] it.seq()[j]).0 == before[i].ssrc;
                    assert(it.seq()[j] == it.seq()[n]);
                }
            }
            if video {
                streams.push(StreamReport { ssrc, frames, total_bytes: stream.total_bytes });
                assert(streams@[before.len() as int].ssrc == ssrc);
            }
            proof {
                assert forall|k: u32| #[trigger] reports_on(before, k) implies reports_on(
                    streams@,
                    k,
                ) by {
                    let i = choose|i: int| 0 <= i < before.len() && (#[trigger] before[i]).ssrc == k;
                    assert(streams@[i].ssrc == k);
                }
                assert(*it.seq()[n].0 == ssrc);
                assert forall|j: int|
                    0 <= j < n + 1 && is_video(
                        (*(#[trigger] it.seq()[j]).1).model().frames,
                    ) implies reports_on(streams@, *it.seq()[j].0) by {
                    if j < n {
                        assert(reports_on(before, *it.seq()[j].0));
                    }
                }
                assert forall|k: u32|
                    n + 1 == it.seq().len() && #[trigger] self@.streams.contains_key(k) && is_video(
                        self@.streams[k].frames,
                    ) implies reports_on(streams@, k) by {
                    assert(self.streams@.contains_key(k));
                    assert(it.seq().contains((&k, &self.streams@[k])));
                }
            }
        }
        MediaReport {
            streams,
            active_total_streams: self.all_ssrcs.len(),
            audio_bytes: self.audio_bytes,
            video_bytes: self.video_bytes,
        }
    }
}


impl MediaModel {
    /// Whether every stream with a frame in this bin is among the SSRCs of the
    /// bin.
    pub open spec fn wf(self) -> bool {
        &&& self.ssrcs.finite()
        &&& forall|ssrc: u32, ts: u32|
            self.streams.contains_key(ssrc) && #[trigger] self.streams[ssrc].frames.contains_key(ts)
                ==> self.ssrcs.contains(ssrc)
    }
}

/// Every operation keeps the metrics well-formed.
pub proof fn media_stays_wf(m: MediaModel, r: RecordModel)
    requires
        m.wf(),
    ensures
        MediaModel::empty().wf(),
        m.after(r).wf(),
        m.next_bin().wf(),
{
}

/// The streams of a bin add up: every one of them is counted once, either as
/// audio or as video.
pub proof fn active_streams_add_up(m: MediaModel, r: MediaReport)
    requires
        m.wf(),
        r.describes(m),
    ensures
        r.streams@.len() <= r.active_total_streams,
        r.active_total_streams.saturating_sub(r.streams@.len() as usize) + r.streams@.len()
            == r.active_total_streams,
{
    let ssrcs = r.streams@.map_values(|s: StreamReport| s.ssrc);
    assert(ssrcs.no_duplicates());
    ssrcs.unique_seq_to_set();
    assert forall|ssrc: u32| ssrcs.to_set().contains(ssrc) implies m.ssrcs.contains(ssrc) by {
        let i = choose|i: int| 0 <= i < ssrcs.len() && ssrcs[i] == ssrc;
        assert(r.streams@[i].ssrc == ssrc);
        let (a, b) = choose|a: u32, b: u32| #[trigger]
            consecutive(m.streams[ssrc].frames, a, b) && MIN_GAP <= b - a <= MAX_GAP;
        assert(m.streams[ssrc].frames.contains_key(a));
    }
    vstd::set_lib::lemma_len_subset(ssrcs.to_set(), m.ssrcs);
}

/// A stream that carried video lasted for a while: it has at least two frames,
/// and its last frame is later than its first.  So its frame rate and bit rate
/// are defined.
pub proof fn video_streams_have_duration(m: MediaModel, r: MediaReport, i: int)
    requires
        r.describes(m),
        0 <= i < r.streams@.len(),
    ensures
        r.streams@[i].frames@.len() >= 2,
        r.streams@[i].frames@[0].0 < r.streams@[i].frames@.last().0,
{
    let frames = m.streams[r.streams@[i].ssrc].frames;
    let s = r.streams@[i].frames@;
    let (a, b) = choose|a: u32, b: u32| #[trigger]
        consecutive(frames, a, b) && MIN_GAP <= b - a <= MAX_GAP;
    assert(lists(s, a) && lists(s, b));
}

/// The first packet of a frame decides when the frame arrived: later packets
/// with the same RTP timestamp leave it unchanged.
pub proof fn first_packet_dates_the_frame(s: StreamModel, first: RecordModel, later: RecordModel)
    requires
        later.rtp_timestamp == first.rtp_timestamp,
    ensures
        s.after(first).after(later).frames == s.after(first).frames,
        !s.frames.contains_key(first.rtp_timestamp) ==> s.after(first).frames[first.rtp_timestamp]
            == first.arrival_epoch_ns,
{
}

impl MediaModel {
    /// The metrics after a run of packets.
    pub open spec fn after_all(self, packets: Seq<RecordModel>) -> MediaModel
        decreases packets.len(),
    {
        if packets.len() == 0 {
            self
        } else {
            self.after_all(packets.drop_last()).after(packets.last())
        }
    }

    /// Whether nothing is counted: no SSRC, no byte, and no frame or byte of any
    /// known stream.
    pub open spec fn silent(self) -> bool {
        &&& self.ssrcs == Set::<u32>::empty()
        &&& self.audio_bytes == 0
        &&& self.video_bytes == 0
        &&& forall|ssrc: u32| #[trigger]
            self.streams.contains_key(ssrc) ==> {
                &&& self.streams[ssrc].total_bytes == 0
                &&& self.streams[ssrc].frames == Map::<u32, u64>::empty()
            }
    }
}

/// New metrics, and metrics at the start of a bin, count nothing.  The streams
/// stay known.
pub proof fn bins_start_silent(m: MediaModel)
    ensures
        MediaModel::empty().silent(),
        MediaModel::empty().streams == Map::<u32, StreamModel>::empty(),
        m.next_bin().silent(),
        m.next_bin().streams.dom() == m.streams.dom(),
{
    assert(m.next_bin().streams.dom() =~= m.streams.dom());
}

/// The packets from a server.
pub open spec fn heard(packets: Seq<RecordModel>) -> Seq<RecordModel> {
    packets.filter(|r: RecordModel| server_ip(r.src_ip))
}

/// The audio packets from a server: those of at most 400 bytes.
pub open spec fn audio_of(packets: Seq<RecordModel>) -> Seq<RecordModel> {
    packets.filter(|r: RecordModel| server_ip(r.src_ip) && r.udp_len <= 400)
}

/// The video packets from a server: those of more than 400 bytes.
pub open spec fn video_of(packets: Seq<RecordModel>) -> Seq<RecordModel> {
    packets.filter(|r: RecordModel| server_ip(r.src_ip) && r.udp_len > 400)
}

/// Whether a packet carries video of an SSRC from a server.
pub open spec fn carries(r: RecordModel, ssrc: u32) -> bool {
    server_ip(r.src_ip) && r.udp_len > 400 && r.ssrc == ssrc
}

/// The video packets of one SSRC from a server.
pub open spec fn stream_of(packets: Seq<RecordModel>, ssrc: u32) -> Seq<RecordModel> {
    packets.filter(|r: RecordModel| carries(r, ssrc))
}

/// Over a bin, the audio bytes are those of all audio packets from a server, and
/// the video bytes those of all its video packets; an SSRC is active exactly if a
/// packet of it came from a server.
pub proof fn media_adds_up(m: MediaModel, packets: Seq<RecordModel>)
    requires
        m.silent(),
    ensures
        ({
            let after = m.after_all(packets);
            &&& after.audio_bytes == wrapped(total_len(audio_of(packets)))
            &&& after.video_bytes == wrapped(total_len(video_of(packets)))
            &&& after.ssrcs == heard(packets).map_values(|r: RecordModel| r.ssrc).to_set()
        }),
    decreases packets.len(),
{
    reveal(Seq::filter);
    let ssrc_of = |r: RecordModel| r.ssrc;
    let all = heard(packets).map_values(ssrc_of);
    if packets.len() == 0 {
        lemma_wrapped_small(0);
        assert(m.ssrcs =~= all.to_set());
    } else {
        let before = packets.drop_last();
        let r = packets.last();
        media_adds_up(m, before);
        let known = heard(before).map_values(ssrc_of);
        lemma_wrapped_add(total_len(audio_of(before)), r.udp_len as u64);
        lemma_wrapped_add(total_len(video_of(before)), r.udp_len as u64);
        if server_ip(r.src_ip) {
            if r.udp_len <= 400 {
                assert(audio_of(packets).drop_last() =~= audio_of(before));
            } else {
                assert(video_of(packets).drop_last() =~= video_of(before));
            }
            assert(all =~= known.push(r.ssrc));
            assert forall|ssrc: u32| all.to_set().contains(ssrc) <==> known.to_set().insert(
                r.ssrc,
            ).contains(ssrc) by {
                if known.contains(ssrc) {
                    let i = choose|i: int| 0 <= i < known.len() && known[i] == ssrc;
                    assert(all[i] == ssrc);
                }
                if ssrc == r.ssrc {
                    assert(all[known.len() as int] == ssrc);
                }
                if all.contains(ssrc) {
                    let i = choose|i: int| 0 <= i < all.len() && all[i] == ssrc;
                    if i < known.len() {
                        assert(known[i] == ssrc);
                    }
                }
            }
            assert(all.to_set() =~= known.to_set().insert(r.ssrc));
        }
    }
}

/// Whether packet `i` is the first of its frame among the video packets of an
/// SSRC.
pub open spec fn opens_frame(packets: Seq<RecordModel>, ssrc: u32, i: int) -> bool {
    &&& 0 <= i < packets.len()
    &&& carries(packets[i], ssrc)
    &&& forall|j: int|
        0 <= j < i && carries(#[trigger] packets[j], ssrc) ==> packets[j].rtp_timestamp
            != packets[i].rtp_timestamp
}

/// Whether a video packet of an SSRC has the given RTP timestamp.
pub open spec fn shows(packets: Seq<RecordModel>, ssrc: u32, ts: u32) -> bool {
    exists|i: int|
        0 <= i < packets.len() && carries(#[trigger] packets[i], ssrc) && packets[i].rtp_timestamp
            == ts
}

/// Over a bin, the bytes of a stream are those of the video packets of its SSRC
/// alone.  A stream is known from its first video packet on.
pub proof fn streams_add_up(m: MediaModel, packets: Seq<RecordModel>, ssrc: u32)
    requires
        m.silent(),
    ensures
        ({
            let after = m.after_all(packets);
            let own = stream_of(packets, ssrc);
            &&& after.streams.contains_key(ssrc) <==> m.streams.contains_key(ssrc) || own.len() > 0
            &&& after.streams.contains_key(ssrc) ==> after.streams[ssrc].total_bytes == wrapped(
                total_len(own),
            )
        }),
    decreases packets.len(),
{
    reveal(Seq::filter);
    lemma_wrapped_small(0);
    let own = stream_of(packets, ssrc);
    if packets.len() > 0 {
        let before = packets.drop_last();
        let r = packets.last();
        streams_add_up(m, before, ssrc);
        lemma_wrapped_add(total_len(stream_of(before, ssrc)), r.udp_len as u64);
        if carries(r, ssrc) {
            assert(own.drop_last() =~= stream_of(before, ssrc));
            if !m.after_all(before).streams.contains_key(ssrc) {
                assert(stream_of(before, ssrc) =~= Seq::empty());
            }
        } else {
            assert(own == stream_of(before, ssrc));
        }
    }
}

/// Over a bin, a stream has one frame for every RTP timestamp among the video
/// packets of its SSRC, and a frame arrived with the first packet that had its
/// timestamp.
pub proof fn frames_arrive_with_their_first_packet(
    m: MediaModel,
    packets: Seq<RecordModel>,
    ssrc: u32,
)
    requires
        m.silent(),
    ensures
        ({
            let streams = m.after_all(packets).streams;
            &&& forall|ts: u32| #[trigger]
                shows(packets, ssrc, ts) <==> streams.contains_key(ssrc)
                    && streams[ssrc].frames.contains_key(ts)
            &&& forall|i: int| #[trigger]
                opens_frame(packets, ssrc, i) ==> streams[ssrc].frames[packets[i].rtp_timestamp]
                    == packets[i].arrival_epoch_ns
        }),
    decreases packets.len(),
{
    let streams = m.after_all(packets).streams;
    if packets.len() > 0 {
        let n = packets.len() - 1;
        let before = packets.drop_last();
        let r = packets.last();
        let prev = m.after_all(before).streams;
        frames_arrive_with_their_first_packet(m, before, ssrc);
        assert forall|ts: u32| #[trigger] shows(packets, ssrc, ts) == (shows(before, ssrc, ts) || (
        carries(r, ssrc) && r.rtp_timestamp == ts)) by {
            if shows(before, ssrc, ts) {
                let i = choose|i: int|
                    0 <= i < before.len() && carries(#[trigger] before[i], ssrc)
                        && before[i].rtp_timestamp == ts;
                assert(packets[i] == before[i]);
            }
            if carries(r, ssrc) && r.rtp_timestamp == ts {
                assert(packets[n as int] == r);
            }
            if shows(packets, ssrc, ts) {
                let i = choose|i: int|
                    0 <= i < packets.len() && carries(#[trigger] packets[i], ssrc)
                        && packets[i].rtp_timestamp == ts;
                if i < n {
                    assert(packets[i] == before[i]);
                }
            }
        }
        if !carries(r, ssrc) {
            assert(streams.contains_key(ssrc) == prev.contains_key(ssrc));
            assert(streams.contains_key(ssrc) ==> streams[ssrc] == prev[ssrc]);
        }
        assert forall|ts: u32| #[trigger] shows(packets, ssrc, ts) <==> streams.contains_key(ssrc)
            && streams[ssrc].frames.contains_key(ts) by {
            assert(shows(before, ssrc, ts) <==> prev.contains_key(ssrc)
                && prev[ssrc].frames.contains_key(ts));
        }
        assert forall|i: int| #[trigger] opens_frame(packets, ssrc, i) implies
            streams[ssrc].frames[packets[i].rtp_timestamp] == packets[i].arrival_epoch_ns by {
            let ts = packets[i].rtp_timestamp;
            if i < n {
                assert(before[i] == packets[i]);
                assert forall|j: int| 0 <= j < i && carries(#[trigger] before[j], ssrc) implies
                    before[j].rtp_timestamp != before[i].rtp_timestamp by {
                    assert(before[j] == packets[j]);
                }
                assert(opens_frame(before, ssrc, i));
                assert(shows(before, ssrc, ts));
            } else {
                assert(!shows(before, ssrc, ts)) by {
                    if shows(before, ssrc, ts) {
                        let j = choose|j: int|
                            0 <= j < before.len() && carries(#[trigger] before[j], ssrc)
                                && before[j].rtp_timestamp == ts;
                        assert(packets[j] == before[j]);
                    }
                }
            }
        }
    }
}

/// A report shows an SSRC as video exactly if two of its frames that follow each
/// other, by RTP timestamp, are at least 1/60 and at most 1 second apart: 1500 to
/// 90000 ticks.
pub proof fn video_is_told_by_its_pace(m: MediaModel, r: MediaReport, ssrc: u32)
    requires
        r.describes(m),
    ensures
        (exists|i: int| 0 <= i < r.streams@.len() && (#[trigger] r.streams@[i]).ssrc == ssrc)
            <==> m.streams.contains_key(ssrc) && exists|a: u32, b: u32|
            {
                &&& #[trigger] m.streams[ssrc].frames.contains_key(a)
                &&& #[trigger] m.streams[ssrc].frames.contains_key(b)
                &&& a + 1500 <= b <= a + 90000
                &&& forall|c: u32| a < c < b ==> !(#[trigger] m.streams[ssrc].frames.contains_key(c))
            },
{
    if exists|i: int| 0 <= i < r.streams@.len() && (#[trigger] r.streams@[i]).ssrc == ssrc {
        let frames = m.streams[ssrc].frames;
        let (a, b) = choose|a: u32, b: u32| #[trigger]
            consecutive(frames, a, b) && MIN_GAP <= b - a <= MAX_GAP;
        assert(frames.contains_key(a) && frames.contains_key(b));
    }
    if m.streams.contains_key(ssrc) {
        let frames = m.streams[ssrc].frames;
        if exists|a: u32, b: u32|
            {
                &&& #[trigger] frames.contains_key(a)
                &&& #[trigger] frames.contains_key(b)
                &&& a + 1500 <= b <= a + 90000
                &&& forall|c: u32| a < c < b ==> !(#[trigger] frames.contains_key(c))
            } {
            let (a, b) = choose|a: u32, b: u32|
                {
                    &&& #[trigger] frames.contains_key(a)
                    &&& #[trigger] frames.contains_key(b)
                    &&& a + 1500 <= b <= a + 90000
                    &&& forall|c: u32| a < c < b ==> !(#[trigger] frames.contains_key(c))
                };
            assert(consecutive(frames, a, b));
            assert(reports_on(r.streams@, ssrc));
        }
    }
}

/// What a report says of a stream: all frames of the stream in ascending order,
/// each with its arrival, and the bytes of the stream.  No stream is shown twice.
pub proof fn reports_show_their_streams(m: MediaModel, r: MediaReport, i: int)
    requires
        r.describes(m),
        0 <= i < r.streams@.len(),
    ensures
        ({
            let shown = r.streams@[i];
            let stream = m.streams[shown.ssrc];
            &&& m.streams.contains_key(shown.ssrc)
            &&& shown.total_bytes == stream.total_bytes
            &&& forall|j: int, k: int|
                0 <= j < k < shown.frames@.len() ==> (#[trigger] shown.frames@[j]).0 < (
                #[trigger] shown.frames@[k]).0
            &&& forall|j: int|
                0 <= j < shown.frames@.len() ==> stream.frames.contains_key(
                    (#[trigger] shown.frames@[j]).0,
                ) && stream.frames[shown.frames@[j].0] == shown.frames@[j].1
            &&& forall|ts: u32| #[trigger]
                stream.frames.contains_key(ts) ==> exists|j: int|
                    0 <= j < shown.frames@.len() && (#[trigger] shown.frames@[j]).0 == ts
            &&& forall|j: int|
                0 <= j < r.streams@.len() && j != i ==> (#[trigger] r.streams@[j]).ssrc
                    != shown.ssrc
        }),
{
    let shown = r.streams@[i];
    assert forall|ts: u32| #[trigger]
        m.streams[shown.ssrc].frames.contains_key(ts) implies exists|j: int|
        0 <= j < shown.frames@.len() && (#[trigger] shown.frames@[j]).0 == ts by {
        assert(lists(shown.frames@, ts));
    }
    assert forall|j: int| 0 <= j < r.streams@.len() && j != i implies (
    #[trigger] r.streams@[j]).ssrc != shown.ssrc by {
        assert(r.streams@[i].ssrc == shown.ssrc);
    }
}

/// What a report says of the whole bin.
pub proof fn reports_show_the_totals(m: MediaModel, r: MediaReport)
    requires
        r.describes(m),
    ensures
        r.audio_bytes == m.audio_bytes,
        r.video_bytes == m.video_bytes,
        r.active_total_streams == m.ssrcs.len(),
{
}

} // verus!
