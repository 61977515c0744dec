//! The RTP-record sink of a platform.
//!
//! The sink writes each record as a CSV row, drops retransmissions, and groups
//! the surviving records into batches for the session layer:
//!
//!   - a record is written and added to the pending batch, which is flushed
//!     when it is full,
//!   - when a partial batch has waited for the batch window, it is flushed,
//!   - on shutdown, the partial batch is flushed and the sink stops.
//!
//! A stopping sink sends an empty batch as a sentinel.  No flush produces an
//! empty batch.

use super::csv::csv_row;
#[allow(unused_imports)]
use super::csv::csv_line;
use super::dedup::Dedup;
#[allow(unused_imports)]
use super::dedup::{drops, windows_after, windows_wf, WindowModel};
#[allow(unused_imports)]
use super::queue::{fate_of, logs, Attempt, Fate};
use super::queue::{Outbox, Refusal};
use crate::models::rtp_record::RtpRecord;
#[allow(unused_imports)]
use crate::models::rtp_record::RecordModel;
use crossbeam_channel::Sender;
use vstd::prelude::*;

verus! {

/// Records per full batch.
pub const BATCH_SIZE: usize = 5_000;

/// The longest that a partial batch waits for more records, in nanoseconds.
pub const BATCH_WINDOW_NS: u64 = 5_000_000_000;

/// A unit of work for a session engine.  Without records it is the shutdown
/// sentinel.
pub struct Batch {
    pub records: Vec<RtpRecord>,
    pub seq: u64,
}

/// The models of a list of records.
pub open spec fn models(records: Seq<RtpRecord>) -> Seq<RecordModel> {
    records.map_values(|r: RtpRecord| r@)
}

impl Batch {
    /// The records of the batch.
    pub open spec fn model(&self) -> Seq<RecordModel> {
        models(self.records@)
    }

    /// The batch that tells the session layer to stop.
    pub fn sentinel() -> (r: Batch)
        ensures
            r.model() == Seq::<RecordModel>::empty(),
            r.seq == 0,
    {
        let r = Batch { records: Vec::new(), seq: 0 };
        assert(r.model() =~= Seq::<RecordModel>::empty());
        r
    }

    /// Whether this batch tells the session layer to stop.
    pub fn is_sentinel(&self) -> (r: bool)
        ensures
            r <==> self.model().len() == 0,
    {
        self.records.len() == 0
    }
}

/// Counters of one record sink.  They wrap around.
pub struct RecordStats {
    csv_records: usize,
    record_drops: usize,
    batch_drops: usize,
    duplicate_records: usize,
}

/// Mathematical model of [`RecordStats`].
pub struct RecordCounts {
    /// Rows written to the CSV file.
    pub csv_records: usize,
    /// Records lost because the sink's queue was full.
    pub record_drops: usize,
    /// Batches lost because the session queue was full.
    pub batch_drops: usize,
    /// Retransmissions dropped.
    pub duplicate_records: usize,
}

impl View for RecordStats {
    type V = RecordCounts;

    closed spec fn view(&self) -> RecordCounts {
        RecordCounts {
            csv_records: self.csv_records,
            record_drops: self.record_drops,
            batch_drops: self.batch_drops,
            duplicate_records: self.duplicate_records,
        }
    }
}

impl RecordStats {
    /// Counters at zero.
    pub fn new() -> (r: RecordStats)
        ensures
            r@ == (RecordCounts {
                csv_records: 0,
                record_drops: 0,
                batch_drops: 0,
                duplicate_records: 0,
            }),
    {
        RecordStats { csv_records: 0, record_drops: 0, batch_drops: 0, duplicate_records: 0 }
    }

    /// Rows written to the CSV file.
    pub fn csv_records(&self) -> (r: usize)
        ensures
            r == self@.csv_records,
    {
        self.csv_records
    }

    /// Records lost because the sink's queue was full.
    pub fn record_drops(&self) -> (r: usize)
        ensures
            r == self@.record_drops,
    {
        self.record_drops
    }

    /// Batches lost because the session queue was full.
    pub fn batch_drops(&self) -> (r: usize)
        ensures
            r == self@.batch_drops,
    {
        self.batch_drops
    }

    /// Retransmissions dropped.
    pub fn duplicate_records(&self) -> (r: usize)
        ensures
            r == self@.duplicate_records,
    {
        self.duplicate_records
    }

    /// Count a record that the sink's queue did not take.
    pub fn inc_record_drops(&mut self)
        ensures
            final(self)@ == (RecordCounts {
                record_drops: old(self)@.record_drops.wrapping_add(1),
                ..old(self)@
            }),
    {
        self.record_drops = self.record_drops.wrapping_add(1);
    }

    /// Take over what a record sink has counted.  Records that never reached the
    /// sink are counted on this side.
    pub fn take_over(&mut self, sink: &RecordStats)
        ensures
            final(self)@ == (RecordCounts { record_drops: old(self)@.record_drops, ..sink@ }),
    {
        self.csv_records = sink.csv_records;
        self.batch_drops = sink.batch_drops;
        self.duplicate_records = sink.duplicate_records;
    }

    fn inc_csv_records(&mut self)
        ensures
            final(self)@ == (RecordCounts {
                csv_records: old(self)@.csv_records.wrapping_add(1),
                ..old(self)@
            }),
    {
        self.csv_records = self.csv_records.wrapping_add(1);
    }

    fn inc_batch_drops(&mut self)
        ensures
            final(self)@ == (RecordCounts {
                batch_drops: old(self)@.batch_drops.wrapping_add(1),
                ..old(self)@
            }),
    {
        self.batch_drops = self.batch_drops.wrapping_add(1);
    }

    fn inc_duplicate_records(&mut self)
        ensures
            final(self)@ == (RecordCounts {
                duplicate_records: old(self)@.duplicate_records.wrapping_add(1),
                ..old(self)@
            }),
    {
        self.duplicate_records = self.duplicate_records.wrapping_add(1);
    }
}

/// Messages from the capture cores to a record sink.
pub enum RecordMessage {
    /// One parsed RTP record.
    Record(RtpRecord),
    /// Flush and exit.
    Shutdown,
}

/// What a record sink is woken up by.
pub enum RecordEvent {
    /// A message arrived.
    Message(RecordMessage),
    /// The pending batch has waited for the batch window.
    Timeout,
    /// Every sender is gone.
    Disconnected,
}

/// Why a batch was flushed.
#[derive(Clone, Copy, Debug, PartialEq, Eq, Structural)]
pub enum FlushReason {
    SizeLimit,
    Timeout,
    Shutdown,
    Disconnected,
}

impl FlushReason {
    /// The wording used in log lines.
    pub fn as_str(self) -> (r: &'static str)
        ensures
            r@ == match self {
                FlushReason::SizeLimit => "size limit"@,
                FlushReason::Timeout => "5s timeout"@,
                FlushReason::Shutdown => "shutdown"@,
                FlushReason::Disconnected => "disconnected"@,
            },
    {
        match self {
            FlushReason::SizeLimit => "size limit",
            FlushReason::Timeout => "5s timeout",
            FlushReason::Shutdown => "shutdown",
            FlushReason::Disconnected => "disconnected",
        }
    }
}

/// A batch that was taken from the pending records and offered to the session
/// queue.
pub struct Flush {
    /// Number of the batch.
    pub seq: u64,
    /// How many records it held.
    pub count: usize,
    pub reason: FlushReason,
    /// Whether the session queue took the batch; if not, the batch itself.
    pub outcome: Result<(), Refusal<Batch>>,
}

/// Whether `batch` is what a flush takes from the pending records.
pub open spec fn takes(pending: Seq<RecordModel>, seq: u64, batch: Option<Batch>) -> bool {
    match batch {
        Some(b) => pending.len() > 0 && b.model() == pending && b.seq == seq.wrapping_add(1),
        None => pending.len() == 0,
    }
}

/// The number of the last batch after a flush of the pending records.
pub open spec fn seq_after_flush(pending: Seq<RecordModel>, seq: u64) -> u64 {
    if pending.len() == 0 {
        seq
    } else {
        seq.wrapping_add(1)
    }
}

/// Whether `flush` reports a flush of the pending records, which leads from one
/// log of the session queue to the next.  Without pending records nothing is
/// offered, else one batch with all of them, which comes back if it was refused.
pub open spec fn flushes(
    pending: Seq<RecordModel>,
    seq: u64,
    reason: FlushReason,
    sent: Seq<Attempt<Batch>>,
    flush: Option<Flush>,
    sent_after: Seq<Attempt<Batch>>,
) -> bool {
    match flush {
        Some(f) => {
            &&& pending.len() > 0
            &&& f.seq == seq.wrapping_add(1)
            &&& f.count == pending.len()
            &&& f.reason == reason
            &&& exists|batch: Batch| #[trigger]
                takes(pending, seq, Some(batch)) && logs(sent, batch, f.outcome, sent_after)
        },
        None => pending.len() == 0 && sent_after == sent,
    }
}

/// Whether putting the sentinel into the session queue leads from one log of the
/// queue to the next.  Only a queue without a receiver refuses it.
pub open spec fn sends_sentinel(
    sent: Seq<Attempt<Batch>>,
    outcome: Result<(), Refusal<Batch>>,
    sent_after: Seq<Attempt<Batch>>,
) -> bool {
    &&& exists|batch: Batch| #[trigger]
        batch.model().len() == 0 && batch.seq == 0 && logs(sent, batch, outcome, sent_after)
    &&& fate_of(outcome) != Fate::Full
}

/// The counters after a flush: a batch that was refused is counted.
pub open spec fn counts_after_flush(counts: RecordCounts, flush: Option<Flush>) -> RecordCounts {
    match flush {
        Some(f) => if f.outcome is Err {
            RecordCounts { batch_drops: counts.batch_drops.wrapping_add(1), ..counts }
        } else {
            counts
        },
        None => counts,
    }
}

/// Move the pending records into a new batch, if there are any.
pub fn take_batch(pending: &mut Vec<RtpRecord>, seq: &mut u64) -> (r: Option<Batch>)
    ensures
        takes(models(old(pending)@), *old(seq), r),
        final(pending)@.len() == 0,
        *final(seq) == seq_after_flush(models(old(pending)@), *old(seq)),
{
    if pending.len() == 0 {
        return None;
    }
    *seq = seq.wrapping_add(1);
    let mut records: Vec<RtpRecord> = Vec::with_capacity(BATCH_SIZE);
    records.append(pending);
    assert(records@ =~= old(pending)@);
    Some(Batch { records, seq: *seq })
}

/// Account for the outcome of offering `batch` to the session queue.
pub fn settle_flush(
    seq: u64,
    count: usize,
    reason: FlushReason,
    outcome: Result<(), Refusal<Batch>>,
    stats: &mut RecordStats,
) -> (r: Flush)
    ensures
        r.seq == seq,
        r.count == count,
        r.reason == reason,
        r.outcome == outcome,
        final(stats)@ == counts_after_flush(old(stats)@, Some(r)),
{
    if outcome.is_err() {
        stats.inc_batch_drops();
    }
    Flush { seq, count, reason, outcome }
}

/// Move the pending records into a batch and offer it to the session queue.
/// Without pending records, nothing happens.
pub fn flush_batch(
    pending: &mut Vec<RtpRecord>,
    seq: &mut u64,
    reason: FlushReason,
    batch_tx: &mut Outbox<Batch>,
    stats: &mut RecordStats,
) -> (r: Option<Flush>)
    ensures
        flushes(
            models(old(pending)@),
            *old(seq),
            reason,
            old(batch_tx).log(),
            r,
            final(batch_tx).log(),
        ),
        final(batch_tx).queue() == old(batch_tx).queue(),
        final(pending)@.len() == 0,
        *final(seq) == seq_after_flush(models(old(pending)@), *old(seq)),
        final(stats)@ == counts_after_flush(old(stats)@, r),
{
    match take_batch(pending, seq) {
        None => None,
        Some(batch) => {
            let number = batch.seq;
            let count = batch.records.len();
            let ghost offered = batch;
            let outcome = batch_tx.offer(batch);
            assert(takes(models(old(pending)@), *old(seq), Some(offered)));
            Some(settle_flush(number, count, reason, outcome, stats))
        },
    }
}

/// Tell the session layer to stop.  Waits where the session queue is full.
pub fn send_sentinel(batch_tx: &mut Outbox<Batch>) -> (r: Result<(), Refusal<Batch>>)
    ensures
        sends_sentinel(old(batch_tx).log(), r, final(batch_tx).log()),
        final(batch_tx).queue() == old(batch_tx).queue(),
{
    let sentinel = Batch::sentinel();
    let ghost offered = sentinel;
    let r = batch_tx.send(sentinel);
    assert(offered.model().len() == 0);
    r
}

/// How long the pending batch may still wait at the given time, going by the
/// arrival of its oldest record.  Without records nothing waits.
pub open spec fn window_left(pending: Seq<RecordModel>, now_ns: u64) -> Option<u64> {
    if pending.len() == 0 {
        None
    } else if now_ns <= pending[0].arrival_epoch_ns {
        Some(BATCH_WINDOW_NS)
    } else if now_ns - pending[0].arrival_epoch_ns >= BATCH_WINDOW_NS {
        Some(0)
    } else {
        Some((BATCH_WINDOW_NS - (now_ns - pending[0].arrival_epoch_ns)) as u64)
    }
}

/// The state of a record sink: the duplicate filter, the pending batch, the
/// number of the last one, and the session queue.
pub struct RecordSink {
    dedup: Dedup,
    pending: Vec<RtpRecord>,
    seq: u64,
    batch_tx: Outbox<Batch>,
}

/// Mathematical model of a [`RecordSink`].
#[verifier::ext_equal]
pub struct SinkModel {
    pub windows: Map<u32, WindowModel>,
    pub pending: Seq<RecordModel>,
    pub seq: u64,
    /// The session queue.
    pub batch_tx: Sender<Batch>,
    /// All batches that were offered to the session queue.
    pub sent: Seq<Attempt<Batch>>,
}

impl SinkModel {
    /// The windows are well-formed and the pending batch is not full.
    pub open spec fn wf(self) -> bool {
        &&& windows_wf(self.windows)
        &&& self.pending.len() < BATCH_SIZE
    }
}

impl View for RecordSink {
    type V = SinkModel;

    closed spec fn view(&self) -> SinkModel {
        SinkModel {
            windows: self.dedup@,
            pending: models(self.pending@),
            seq: self.seq,
            batch_tx: self.batch_tx.queue(),
            sent: self.batch_tx.log(),
        }
    }
}

/// A sink that has seen nothing.
pub open spec fn fresh_sink(batch_tx: Sender<Batch>) -> SinkModel {
    SinkModel {
        windows: Map::empty(),
        pending: Seq::empty(),
        seq: 0,
        batch_tx,
        sent: Seq::empty(),
    }
}

/// What follows from an event.
pub struct RecordStep {
    /// The row to append to the CSV file.
    pub row: Option<String>,
    /// The batch that was flushed.
    pub flush: Option<Flush>,
    /// Whether the sink stops, and the CSV file is closed.
    pub stop: bool,
    /// Whether the session queue took the sentinel of a sink that stops.
    pub sentinel: Option<Result<(), Refusal<Batch>>>,
}

/// What the sink does with a record that is not a retransmission: a CSV row,
/// and a flush if the batch is full.
pub open spec fn accepts(
    before: SinkModel,
    counts: RecordCounts,
    r: RecordModel,
    step: RecordStep,
    after: SinkModel,
    counts_after: RecordCounts,
) -> bool {
    let pending = before.pending.push(r);
    let counted = RecordCounts { csv_records: counts.csv_records.wrapping_add(1), ..counts };
    &&& step.row matches Some(row) && row@ == csv_line(r)
    &&& !step.stop
    &&& step.sentinel is None
    &&& after.batch_tx == before.batch_tx
    &&& after.windows == windows_after(before.windows, r.ssrc, r.seq_num)
    &&& if pending.len() >= BATCH_SIZE {
        &&& flushes(
            pending,
            before.seq,
            FlushReason::SizeLimit,
            before.sent,
            step.flush,
            after.sent,
        )
        &&& after.pending == Seq::<RecordModel>::empty()
        &&& after.seq == seq_after_flush(pending, before.seq)
        &&& counts_after == counts_after_flush(counted, step.flush)
    } else {
        &&& step.flush is None
        &&& after.sent == before.sent
        &&& after.pending == pending
        &&& after.seq == before.seq
        &&& counts_after == counted
    }
}

/// What the sink does with a retransmission: it is counted and forgotten.
pub open spec fn suppresses(
    before: SinkModel,
    counts: RecordCounts,
    step: RecordStep,
    after: SinkModel,
    counts_after: RecordCounts,
) -> bool {
    &&& step.row is None
    &&& step.flush is None
    &&& !step.stop
    &&& step.sentinel is None
    &&& after == before
    &&& counts_after == (RecordCounts {
        duplicate_records: counts.duplicate_records.wrapping_add(1),
        ..counts
    })
}

/// What the sink does when no record comes: the pending batch is flushed.  A sink
/// that stops sends the sentinel after it.
pub open spec fn drains(
    before: SinkModel,
    counts: RecordCounts,
    reason: FlushReason,
    step: RecordStep,
    after: SinkModel,
    counts_after: RecordCounts,
) -> bool {
    let flushed = if step.stop {
        after.sent.drop_last()
    } else {
        after.sent
    };
    &&& step.row is None
    &&& flushes(before.pending, before.seq, reason, before.sent, step.flush, flushed)
    &&& step.stop == (reason != FlushReason::Timeout)
    &&& match step.sentinel {
        Some(outcome) => step.stop && sends_sentinel(flushed, outcome, after.sent),
        None => !step.stop,
    }
    &&& after.batch_tx == before.batch_tx
    &&& after.windows == before.windows
    &&& after.pending == Seq::<RecordModel>::empty()
    &&& after.seq == seq_after_flush(before.pending, before.seq)
    &&& counts_after == counts_after_flush(counts, step.flush)
}

/// The transition of a sink on an event.
pub open spec fn steps(
    before: SinkModel,
    counts: RecordCounts,
    event: RecordEvent,
    step: RecordStep,
    after: SinkModel,
    counts_after: RecordCounts,
) -> bool {
    match event {
        RecordEvent::Message(RecordMessage::Record(r)) => if drops(
            before.windows,
            r.ssrc,
            r.seq_num,
        ) {
            suppresses(before, counts, step, after, counts_after)
        } else {
            accepts(before, counts, r@, step, after, counts_after)
        },
        RecordEvent::Message(RecordMessage::Shutdown) => drains(
            before,
            counts,
            FlushReason::Shutdown,
            step,
            after,
            counts_after,
        ),
        RecordEvent::Timeout => drains(
            before,
            counts,
            FlushReason::Timeout,
            step,
            after,
            counts_after,
        ),
        RecordEvent::Disconnected => drains(
            before,
            counts,
            FlushReason::Disconnected,
            step,
            after,
            counts_after,
        ),
    }
}

impl RecordSink {
    /// A sink that has seen nothing, in front of a session queue.
    pub fn new(batch_tx: Sender<Batch>) -> (r: RecordSink)
        ensures
            r@.wf(),
            r@ == fresh_sink(batch_tx),
    {
        let r = RecordSink {
            dedup: Dedup::new(),
            pending: Vec::with_capacity(BATCH_SIZE),
            seq: 0,
            batch_tx: Outbox::new(batch_tx),
        };
        assert(r@.pending =~= Seq::<RecordModel>::empty());
        r
    }

    /// The number of batches flushed so far.
    pub fn batches(&self) -> (r: u64)
        ensures
            r == self@.seq,
    {
        self.seq
    }

    /// How long the pending batch may still wait for more records, if there is
    /// one.
    pub fn time_left(&self, now_ns: u64) -> (r: Option<u64>)
        ensures
            r == window_left(self@.pending, now_ns),
    {
        if self.pending.len() == 0 {
            return None;
        }
        assert(self@.pending[0] == self.pending@[0]@);
        let waited: u64 = now_ns.saturating_sub(self.pending[0].arrival_epoch_ns);
        Some(BATCH_WINDOW_NS.saturating_sub(waited))
    }

    fn drain(&mut self, reason: FlushReason, stats: &mut RecordStats) -> (step: RecordStep)
        requires
            old(self)@.wf(),
        ensures
            final(self)@.wf(),
            drains(old(self)@, old(stats)@, reason, step, final(self)@, final(stats)@),
    {
        let flush = flush_batch(
            &mut self.pending,
            &mut self.seq,
            reason,
            &mut self.batch_tx,
            stats,
        );
        assert(self@.pending =~= Seq::<RecordModel>::empty());
        let stop = reason != FlushReason::Timeout;
        let ghost flushed = self@.sent;
        let sentinel = if stop {
            Some(send_sentinel(&mut self.batch_tx))
        } else {
            None
        };
        assert(stop ==> self@.sent.drop_last() =~= flushed);
        RecordStep { row: None, flush, stop, sentinel }
    }

    /// Handle one event.
    pub fn handle(&mut self, event: RecordEvent, stats: &mut RecordStats) -> (step: RecordStep)
        requires
            old(self)@.wf(),
        ensures
            final(self)@.wf(),
            steps(old(self)@, old(stats)@, event, step, final(self)@, final(stats)@),
    {
        let ghost before = self@;
        match event {
            RecordEvent::Message(RecordMessage::Record(r)) => {
                if self.dedup.check(r.ssrc, r.seq_num) {
                    stats.inc_duplicate_records();
                    assert(self@ =~= before);
                    return RecordStep { row: None, flush: None, stop: false, sentinel: None };
                }
                let row = csv_row(&r);
                stats.inc_csv_records();
                self.pending.push(r);
                assert(self@.pending =~= before.pending.push(r@));
                let flush = if self.pending.len() >= BATCH_SIZE {
                    flush_batch(
                        &mut self.pending,
                        &mut self.seq,
                        FlushReason::SizeLimit,
                        &mut self.batch_tx,
                        stats,
                    )
                } else {
                    None
                };
                assert(before.pending.len() + 1 >= BATCH_SIZE ==> self@.pending =~= Seq::<
                    RecordModel,
                >::empty());
                RecordStep { row: Some(row), flush, stop: false, sentinel: None }
            },
            RecordEvent::Message(RecordMessage::Shutdown) => self.drain(
                FlushReason::Shutdown,
                stats,
            ),
            RecordEvent::Timeout => self.drain(FlushReason::Timeout, stats),
            RecordEvent::Disconnected => self.drain(FlushReason::Disconnected, stats),
        }
    }
}

/// What a step offers to the session queue: the flushed batch, if there is one,
/// with at least one record and no more than the size limit; and after it the
/// sentinel, exactly if the sink stops.  So an empty batch is a sentinel beyond
/// doubt.
pub proof fn flushed_batches_hold_records(
    before: SinkModel,
    counts: RecordCounts,
    event: RecordEvent,
    step: RecordStep,
    after: SinkModel,
    counts_after: RecordCounts,
)
    requires
        before.wf(),
        steps(before, counts, event, step, after, counts_after),
    ensures
        ({
            let n = before.sent.len() as int;
            let flushed = if step.flush is Some {
                1int
            } else {
                0
            };
            let stopped = if step.stop {
                1int
            } else {
                0
            };
            &&& after.sent.len() == n + flushed + stopped
            &&& after.sent.take(n) == before.sent
            &&& step.flush matches Some(f) ==> {
                &&& 0 < f.count <= BATCH_SIZE
                &&& after.sent[n].message.model().len() == f.count
                &&& after.sent[n].message.seq == f.seq
                &&& after.sent[n].fate == fate_of(f.outcome)
            }
            &&& step.stop ==> {
                &&& after.sent.last().message.model().len() == 0
                &&& after.sent.last().message.seq == 0
                &&& after.sent.last().fate != Fate::Full
            }
        }),
{
    assert(after.sent.take(before.sent.len() as int) =~= before.sent);
}

/// The records of all batches that were offered to a session queue, end to end.
pub open spec fn contents(sent: Seq<Attempt<Batch>>) -> Seq<RecordModel>
    decreases sent.len(),
{
    if sent.len() == 0 {
        Seq::empty()
    } else {
        contents(sent.drop_last()) + sent.last().message.model()
    }
}

/// The records a step flushes or leaves pending are those that were pending,
/// followed by the one it accepted; a record is accepted exactly if it gets a
/// CSV row.
pub proof fn records_are_conserved(
    before: SinkModel,
    counts: RecordCounts,
    event: RecordEvent,
    step: RecordStep,
    after: SinkModel,
    counts_after: RecordCounts,
)
    requires
        steps(before, counts, event, step, after, counts_after),
    ensures
        ({
            let accepted = match event {
                RecordEvent::Message(RecordMessage::Record(r)) => if step.row is Some {
                    seq![r@]
                } else {
                    Seq::empty()
                },
                _ => Seq::empty(),
            };
            contents(after.sent) + after.pending == contents(before.sent) + (before.pending
                + accepted)
        }),
{
    let accepted = match event {
        RecordEvent::Message(RecordMessage::Record(r)) => if step.row is Some {
            seq![r@]
        } else {
            Seq::empty()
        },
        _ => Seq::empty(),
    };
    if let RecordEvent::Message(RecordMessage::Record(r)) = event {
        assert(before.pending.push(r@) =~= before.pending + seq![r@]);
    }
    assert(before.pending + Seq::<RecordModel>::empty() =~= before.pending);
    let flushed = if step.stop {
        after.sent.drop_last()
    } else {
        after.sent
    };
    if step.stop {
        assert(contents(after.sent) =~= contents(flushed));
    }
    if step.flush is Some {
        assert(flushed.drop_last() =~= before.sent);
        assert(flushed.last().message.model() =~= before.pending + accepted);
        assert(contents(flushed) =~= contents(before.sent) + (before.pending + accepted));
    }
    assert(contents(after.sent) + after.pending =~= contents(before.sent) + (before.pending
        + accepted));
}

/// Batches are numbered in the order of the flushes, without gaps.
pub proof fn batches_are_numbered(
    before: SinkModel,
    counts: RecordCounts,
    event: RecordEvent,
    step: RecordStep,
    after: SinkModel,
    counts_after: RecordCounts,
)
    requires
        steps(before, counts, event, step, after, counts_after),
    ensures
        step.flush is None ==> after.seq == before.seq,
        step.flush matches Some(f) ==> f.seq == after.seq && after.seq == before.seq.wrapping_add(
            1,
        ),
{
}

/// A sink that stops has nothing pending, and it stops exactly when it is told
/// to or when every sender is gone.
pub proof fn stopping_leaves_nothing_pending(
    before: SinkModel,
    counts: RecordCounts,
    event: RecordEvent,
    step: RecordStep,
    after: SinkModel,
    counts_after: RecordCounts,
)
    requires
        steps(before, counts, event, step, after, counts_after),
    ensures
        step.stop ==> after.pending.len() == 0,
        step.stop <==> event is Disconnected || event == RecordEvent::Message(
            RecordMessage::Shutdown,
        ),
{
}

/// A run of a sink: what each event led to.
#[verifier::ext_equal]
pub struct SinkRun {
    pub events: Seq<RecordEvent>,
    pub steps: Seq<RecordStep>,
    /// The states before and after every event.
    pub states: Seq<SinkModel>,
    /// The counters before and after every event.
    pub counts: Seq<RecordCounts>,
}

impl SinkRun {
    /// Every event leads from one state to the next, by the transition of a sink.
    pub open spec fn valid(self) -> bool {
        &&& self.steps.len() == self.events.len()
        &&& self.states.len() == self.events.len() + 1
        &&& self.counts.len() == self.events.len() + 1
        &&& forall|i: int|
            0 <= i < self.events.len() ==> steps(
                self.states[i],
                self.counts[i],
                #[trigger] self.events[i],
                self.steps[i],
                self.states[i + 1],
                self.counts[i + 1],
            )
    }

    /// The run without its last event.
    pub open spec fn shorter(self) -> SinkRun {
        SinkRun {
            events: self.events.drop_last(),
            steps: self.steps.drop_last(),
            states: self.states.drop_last(),
            counts: self.counts.drop_last(),
        }
    }

    /// The records that came in.
    pub open spec fn received(self) -> Seq<RecordModel>
        decreases self.events.len(),
    {
        if self.events.len() == 0 {
            Seq::empty()
        } else {
            self.shorter().received() + match self.events.last() {
                RecordEvent::Message(RecordMessage::Record(r)) => seq![r@],
                _ => Seq::empty(),
            }
        }
    }

    /// The records that got a CSV row.
    pub open spec fn accepted(self) -> Seq<RecordModel>
        decreases self.events.len(),
    {
        if self.events.len() == 0 {
            Seq::empty()
        } else {
            self.shorter().accepted() + match (self.events.last(), self.steps.last().row) {
                (RecordEvent::Message(RecordMessage::Record(r)), Some(_)) => seq![r@],
                _ => Seq::empty(),
            }
        }
    }

    /// The CSV rows, in order.
    pub open spec fn rows(self) -> Seq<Seq<char>>
        decreases self.events.len(),
    {
        if self.events.len() == 0 {
            Seq::empty()
        } else {
            self.shorter().rows() + match self.steps.last().row {
                Some(row) => seq![row@],
                None => Seq::empty(),
            }
        }
    }

    /// Whether the sink has stopped with the last event.
    pub open spec fn stopped(self) -> bool {
        self.steps.len() > 0 && self.steps.last().stop
    }

    /// Whether the sink went on after every event but the last.
    pub open spec fn uninterrupted(self) -> bool {
        forall|i: int| 0 <= i < self.steps.len() - 1 ==> !(#[trigger] self.steps[i]).stop
    }
}

/// Over a whole run of a sink, every record that comes in is either written or
/// counted as a duplicate.  The CSV file holds the lines of the accepted records
/// in order, and so do the batches that were offered to the session queue, put end
/// to end, with what is still pending.
pub proof fn runs_conserve_records(run: SinkRun)
    requires
        run.valid(),
        run.counts[0].csv_records + run.events.len() <= usize::MAX,
        run.counts[0].duplicate_records + run.events.len() <= usize::MAX,
    ensures
        contents(run.states.last().sent) + run.states.last().pending == contents(
            run.states[0].sent,
        ) + (run.states[0].pending + run.accepted()),
        run.rows() == run.accepted().map_values(|r: RecordModel| csv_line(r)),
        run.counts.last().csv_records == run.counts[0].csv_records + run.accepted().len(),
        run.counts.last().duplicate_records - run.counts[0].duplicate_records
            + run.accepted().len() == run.received().len(),
        run.received().len() <= run.events.len(),
        run.accepted().len() <= run.received().len(),
    decreases run.events.len(),
{
    let n = run.events.len() as int;
    if n == 0 {
        assert(run.states[0].pending + run.accepted() =~= run.states[0].pending);
        assert(run.rows() =~= run.accepted().map_values(|r: RecordModel| csv_line(r)));
    } else {
        let prev = run.shorter();
        assert forall|i: int| 0 <= i < prev.events.len() implies steps(
            prev.states[i],
            prev.counts[i],
            #[trigger] prev.events[i],
            prev.steps[i],
            prev.states[i + 1],
            prev.counts[i + 1],
        ) by {
            assert(prev.events[i] == run.events[i]);
        }
        runs_conserve_records(prev);
        let before = run.states[n - 1];
        let event = run.events[n - 1];
        let step = run.steps[n - 1];
        assert(prev.states.last() == before);
        assert(prev.counts.last() == run.counts[n - 1]);
        records_are_conserved(
            before,
            run.counts[n - 1],
            event,
            step,
            run.states[n],
            run.counts[n],
        );
        let new = match (event, step.row) {
            (RecordEvent::Message(RecordMessage::Record(r)), Some(_)) => seq![r@],
            _ => Seq::empty(),
        };
        let first = run.states[0];
        assert(contents(before.sent) + (before.pending + new) =~= (contents(before.sent)
            + before.pending) + new);
        assert((contents(first.sent) + (first.pending + prev.accepted())) + new =~= contents(
            first.sent,
        ) + (first.pending + run.accepted()));
        assert(run.rows() =~= run.accepted().map_values(|r: RecordModel| csv_line(r)));
    }
}

/// The number of messages in a log that were not taken.
pub open spec fn refusals(sent: Seq<Attempt<Batch>>) -> nat
    decreases sent.len(),
{
    if sent.len() == 0 {
        0
    } else {
        refusals(sent.drop_last()) + if sent.last().fate == Fate::Taken {
            0nat
        } else {
            1
        }
    }
}

/// Whether the log holds full or partial batches only, numbered 1, 2, 3 and so on.
pub open spec fn numbered_batches(sent: Seq<Attempt<Batch>>) -> bool {
    forall|i: int|
        0 <= i < sent.len() ==> {
            &&& (#[trigger] sent[i]).message.seq == i + 1
            &&& 0 < sent[i].message.model().len() <= BATCH_SIZE
        }
}

/// From its start on, a sink offers batches of one record up to the size limit,
/// numbered 1, 2, 3 and so on; a batch that is lost uses up its number and is
/// counted.  When the sink stops, one more batch follows: the sentinel, the only
/// one without records.
pub proof fn runs_number_batches(run: SinkRun)
    requires
        run.valid(),
        run.uninterrupted(),
        run.states[0] == fresh_sink(run.states[0].batch_tx),
        run.counts[0].batch_drops + run.events.len() <= usize::MAX,
        run.events.len() <= u64::MAX,
    ensures
        ({
            let last = run.states.last();
            let batches = last.sent.take(last.seq as int);
            &&& last.wf()
            &&& last.batch_tx == run.states[0].batch_tx
            &&& last.seq <= run.events.len()
            &&& last.sent.len() == last.seq + if run.stopped() {
                1int
            } else {
                0
            }
            &&& numbered_batches(batches)
            &&& run.counts.last().batch_drops == run.counts[0].batch_drops + refusals(batches)
            &&& refusals(batches) <= last.seq
            &&& run.stopped() ==> {
                &&& last.sent.last().message.model().len() == 0
                &&& last.sent.last().message.seq == 0
                &&& last.sent.last().fate != Fate::Full
            }
        }),
    decreases run.events.len(),
{
    let n = run.events.len() as int;
    let last = run.states.last();
    let batches = last.sent.take(last.seq as int);
    if n == 0 {
        assert(batches =~= Seq::empty());
    } else {
        let prev = run.shorter();
        assert forall|i: int| 0 <= i < prev.events.len() implies steps(
            prev.states[i],
            prev.counts[i],
            #[trigger] prev.events[i],
            prev.steps[i],
            prev.states[i + 1],
            prev.counts[i + 1],
        ) by {
            assert(prev.events[i] == run.events[i]);
        }
        assert forall|i: int| 0 <= i < prev.steps.len() implies !(
        #[trigger] prev.steps[i]).stop by {
            assert(prev.steps[i] == run.steps[i]);
        }
        runs_number_batches(prev);
        let before = run.states[n - 1];
        let step = run.steps[n - 1];
        assert(prev.states.last() == before);
        assert(prev.counts.last() == run.counts[n - 1]);
        assert(steps(
            before,
            run.counts[n - 1],
            run.events[n - 1],
            step,
            last,
            run.counts[n],
        ));
        flushed_batches_hold_records(
            before,
            run.counts[n - 1],
            run.events[n - 1],
            step,
            last,
            run.counts[n],
        );
        let k = before.seq as int;
        assert(before.sent.take(k) =~= before.sent);
        assert forall|i: int| 0 <= i < k implies last.sent[i] == before.sent[i] by {
            assert(last.sent.take(k)[i] == before.sent[i]);
        }
        if step.flush is Some {
            assert(batches.drop_last() =~= before.sent);
            assert(batches.last() == last.sent[k]);
        } else {
            assert(batches =~= before.sent);
        }
    }
}

/// What a sink counts: a row for every record that gets one, a duplicate for
/// every other record, and a loss for every batch that was not taken.  Records
/// that were lost on the way to the sink are not its concern.
pub proof fn sinks_count_what_they_do(
    before: SinkModel,
    counts: RecordCounts,
    event: RecordEvent,
    step: RecordStep,
    after: SinkModel,
    counts_after: RecordCounts,
)
    requires
        steps(before, counts, event, step, after, counts_after),
    ensures
        ({
            let record = event matches RecordEvent::Message(RecordMessage::Record(_));
            let lost = step.flush matches Some(f) && f.outcome is Err;
            &&& counts_after.csv_records == if step.row is Some {
                counts.csv_records.wrapping_add(1)
            } else {
                counts.csv_records
            }
            &&& counts_after.duplicate_records == if record && step.row is None {
                counts.duplicate_records.wrapping_add(1)
            } else {
                counts.duplicate_records
            }
            &&& counts_after.batch_drops == if lost {
                counts.batch_drops.wrapping_add(1)
            } else {
                counts.batch_drops
            }
            &&& counts_after.record_drops == counts.record_drops
            &&& step.row is Some ==> record
        }),
{
}

/// A record gets a row, the line of its own fields, and joins the pending batch,
/// exactly if the duplicate filter lets it pass.
pub proof fn records_pass_the_filter(
    before: SinkModel,
    counts: RecordCounts,
    r: RtpRecord,
    step: RecordStep,
    after: SinkModel,
    counts_after: RecordCounts,
)
    requires
        steps(
            before,
            counts,
            RecordEvent::Message(RecordMessage::Record(r)),
            step,
            after,
            counts_after,
        ),
    ensures
        ({
            let known = before.windows.contains_key(r.ssrc);
            let duplicate = known && before.windows[r.ssrc].rejects(r.seq_num);
            &&& step.row is None <==> duplicate
            &&& step.row matches Some(row) ==> row@ == csv_line(r@)
            &&& duplicate ==> after == before
            &&& !duplicate ==> after.windows == windows_after(before.windows, r.ssrc, r.seq_num)
            &&& !step.stop
        }),
{
}

/// When a batch is flushed: with its 5000th record, when the batch window has
/// passed or when the sink stops, and never empty.
pub proof fn batches_hold_up_to_5000_records(
    before: SinkModel,
    counts: RecordCounts,
    event: RecordEvent,
    step: RecordStep,
    after: SinkModel,
    counts_after: RecordCounts,
)
    requires
        before.wf(),
        steps(before, counts, event, step, after, counts_after),
    ensures
        before.pending.len() < 5000,
        after.pending.len() < 5000,
        event matches RecordEvent::Message(RecordMessage::Record(_)) ==> (step.flush is Some
            <==> step.row is Some && before.pending.len() == 4999),
        !(event matches RecordEvent::Message(RecordMessage::Record(_))) ==> (step.flush is Some
            <==> before.pending.len() > 0),
        step.flush matches Some(f) ==> f.reason == match event {
            RecordEvent::Message(RecordMessage::Record(_)) => FlushReason::SizeLimit,
            RecordEvent::Message(RecordMessage::Shutdown) => FlushReason::Shutdown,
            RecordEvent::Timeout => FlushReason::Timeout,
            RecordEvent::Disconnected => FlushReason::Disconnected,
        },
{
}

/// A partial batch waits for 5 seconds from the arrival of its first record on:
/// the time that it has waited and the time that is left make up the window.
pub proof fn batches_wait_five_seconds(pending: Seq<RecordModel>, now_ns: u64)
    ensures
        window_left(pending, now_ns) is None <==> pending.len() == 0,
        window_left(pending, now_ns) matches Some(left) ==> {
            let first = pending[0].arrival_epoch_ns;
            &&& first <= now_ns && now_ns - first <= 5_000_000_000 ==> left + (now_ns - first)
                == 5_000_000_000
            &&& first <= now_ns && now_ns - first > 5_000_000_000 ==> left == 0
            &&& now_ns < first ==> left == 5_000_000_000
        },
{
}

/// The models of a list of records stand for the records one by one.
pub proof fn batches_list_their_records(batch: Batch, i: int)
    requires
        0 <= i < batch.records@.len(),
    ensures
        batch.model().len() == batch.records@.len(),
        batch.model()[i] == batch.records@[i]@,
{
}

} // verus!
