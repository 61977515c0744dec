//! The session engine: folds batches of RTP records into one session per client
//! and hands out what the sessions report.

use super::client::get_client_ip;
#[allow(unused_imports)]
use super::client::client_ip;
#[allow(unused_imports)]
use super::network_metrics::{no_counts, server_ip, NetworkCounts};
use super::state::{flush_session, BinReport, SessionState};
#[allow(unused_imports)]
use super::state::{report_at, session_after, SessionModel};
#[allow(unused_imports)]
use crate::channels::queue::logs;
use crate::channels::queue::{Outbox, Refusal};
#[allow(unused_imports)]
use crate::channels::record::sends_sentinel;
use crate::channels::record::{send_sentinel, Batch};
use crate::models::rtp_record::RtpRecord;
#[allow(unused_imports)]
use crate::models::rtp_record::RecordModel;
use vstd::prelude::*;

verus! {

/// Hand a batch to the session layer without waiting, if its queue exists.  A
/// batch that the queue does not take comes back; without a queue the batch is
/// dropped.
pub fn push_batch(batch_tx: &mut Option<Outbox<Batch>>, batch: Batch) -> (r: Option<
    Result<(), Refusal<Batch>>,
>)
    ensures
        match (*old(batch_tx), *final(batch_tx), r) {
            (Some(before), Some(after), Some(sent)) => {
                &&& logs(before.log(), batch, sent, after.log())
                &&& after.queue() == before.queue()
            },
            (None, None, None) => true,
            _ => false,
        },
{
    match batch_tx {
        Some(tx) => Some(tx.offer(batch)),
        None => None,
    }
}

/// Tell the session layer to stop, if its queue exists.  Waits where the queue
/// is full.
pub fn push_shutdown_batch(batch_tx: &mut Option<Outbox<Batch>>) -> (r: Option<
    Result<(), Refusal<Batch>>,
>)
    ensures
        match (*old(batch_tx), *final(batch_tx), r) {
            (Some(before), Some(after), Some(sent)) => {
                &&& sends_sentinel(before.log(), sent, after.log())
                &&& after.queue() == before.queue()
            },
            (None, None, None) => true,
            _ => false,
        },
{
    match batch_tx {
        Some(tx) => Some(send_sentinel(tx)),
        None => None,
    }
}

/// Whether a batch went into a queue.
pub fn was_taken(sent: &Option<Result<(), Refusal<Batch>>>) -> (r: bool)
    ensures
        r == (sent matches Some(outcome) && outcome is Ok),
{
    match sent {
        Some(Ok(_)) => true,
        _ => false,
    }
}

/// The sessions by client.
pub open spec fn by_client(sessions: Seq<SessionModel>) -> Map<Seq<char>, SessionModel>
    decreases sessions.len(),
{
    if sessions.len() == 0 {
        Map::empty()
    } else {
        by_client(sessions.drop_last()).insert(sessions.last().client_ip, sessions.last())
    }
}

/// Whether no client has two sessions.
pub open spec fn one_per_client(sessions: Seq<SessionModel>) -> bool {
    forall|i: int, j: int|
        0 <= i < j < sessions.len() ==> (#[trigger] sessions[i]).client_ip != (
        #[trigger] sessions[j]).client_ip
}

/// The sessions that are over at the given time.
pub open spec fn stale(sessions: Map<Seq<char>, SessionModel>, now_ns: u64) -> Map<
    Seq<char>,
    SessionModel,
> {
    sessions.restrict(
        Set::new(|ip: Seq<char>| sessions.contains_key(ip) && sessions[ip].expired(now_ns)),
    )
}

/// The sessions that are not over at the given time.
pub open spec fn live(sessions: Map<Seq<char>, SessionModel>, now_ns: u64) -> Map<
    Seq<char>,
    SessionModel,
> {
    sessions.restrict(
        Set::new(|ip: Seq<char>| sessions.contains_key(ip) && !sessions[ip].expired(now_ns)),
    )
}

/// Whether a list holds a report on the given client.
pub open spec fn reports_on(reports: Seq<BinReport>, ip: Seq<char>) -> bool {
    exists|i: int| 0 <= i < reports.len() && (#[trigger] reports[i]).client_ip@ == ip
}

/// Whether the list holds one report on every session with traffic in its
/// current bin, in no particular order.
pub open spec fn final_reports(
    reports: Seq<BinReport>,
    sessions: Map<Seq<char>, SessionModel>,
) -> bool {
    &&& forall|i: int, j: int|
        0 <= i < j < reports.len() ==> (#[trigger] reports[i]).client_ip@ != (
        #[trigger] reports[j]).client_ip@
    &&& forall|i: int|
        0 <= i < reports.len() ==> {
            &&& sessions.contains_key((#[trigger] reports[i]).client_ip@)
            &&& sessions[reports[i].client_ip@].network.has_data()
            &&& reports[i].describes(sessions[reports[i].client_ip@])
        }
    &&& forall|ip: Seq<char>| #[trigger]
        sessions.contains_key(ip) && sessions[ip].network.has_data() ==> reports_on(reports, ip)
}

/// The session of a client, if there is one.
pub open spec fn session_of(sessions: Map<Seq<char>, SessionModel>, ip: Seq<char>) -> Option<
    SessionModel,
> {
    if sessions.contains_key(ip) {
        Some(sessions[ip])
    } else {
        None
    }
}

/// Whether a record leads from one state of the engine to another, with this
/// report.  Only the client's session changes.
pub open spec fn record_step(
    before: Map<Seq<char>, SessionModel>,
    r: RecordModel,
    after: Map<Seq<char>, SessionModel>,
    out: Option<BinReport>,
) -> bool {
    let client = client_ip(r);
    &&& after == before.insert(client, session_after(session_of(before, client), r))
    &&& report_at(session_of(before, client), r, out)
}

/// The reports among the outcomes of several records.
pub open spec fn given(outcomes: Seq<Option<BinReport>>) -> Seq<BinReport>
    decreases outcomes.len(),
{
    if outcomes.len() == 0 {
        Seq::empty()
    } else {
        match outcomes.last() {
            Some(report) => given(outcomes.drop_last()).push(report),
            None => given(outcomes.drop_last()),
        }
    }
}

/// Whether every record leads from one state of the engine to the next, with
/// its outcome.
pub open spec fn records_trace(
    records: Seq<RecordModel>,
    states: Seq<Map<Seq<char>, SessionModel>>,
    outcomes: Seq<Option<BinReport>>,
) -> bool {
    &&& states.len() == records.len() + 1
    &&& outcomes.len() == records.len()
    &&& forall|i: int|
        0 <= i < records.len() ==> record_step(
            states[i],
            #[trigger] records[i],
            states[i + 1],
            outcomes[i],
        )
}

/// Whether records, one after the other, lead from one state of the engine to
/// another, with these reports.
pub open spec fn records_run(
    before: Map<Seq<char>, SessionModel>,
    records: Seq<RecordModel>,
    after: Map<Seq<char>, SessionModel>,
    out: Seq<BinReport>,
) -> bool {
    exists|states: Seq<Map<Seq<char>, SessionModel>>, outcomes: Seq<Option<BinReport>>|
        {
            &&& #[trigger] records_trace(records, states, outcomes)
            &&& states[0] == before
            &&& states.last() == after
            &&& out == given(outcomes)
        }
}

/// One session per client.
pub struct SessionEngine {
    sessions: Vec<SessionState>,
}

spec fn session_models(sessions: Seq<SessionState>) -> Seq<SessionModel> {
    sessions.map_values(|s: SessionState| s@)
}

impl View for SessionEngine {
    type V = Map<Seq<char>, SessionModel>;

    closed spec fn view(&self) -> Map<Seq<char>, SessionModel> {
        by_client(session_models(self.sessions@))
    }
}

/// The sessions by client hold the given sessions and no others.
proof fn lemma_by_client(s: Seq<SessionModel>)
    requires
        one_per_client(s),
    ensures
        forall|i: int|
            0 <= i < s.len() ==> by_client(s).contains_key((#[trigger] s[i]).client_ip)
                && by_client(s)[s[i].client_ip] == s[i],
        forall|ip: Seq<char>| #[trigger]
            by_client(s).contains_key(ip) ==> exists|i: int|
                0 <= i < s.len() && (#[trigger] s[i]).client_ip == ip,
    decreases s.len(),
{
    if s.len() > 0 {
        let shorter = s.drop_last();
        lemma_by_client(shorter);
        assert forall|i: int| 0 <= i < s.len() implies by_client(s).contains_key(
            (#[trigger] s[i]).client_ip,
        ) && by_client(s)[s[i].client_ip] == s[i] by {
            if i < shorter.len() {
                assert(shorter[i] == s[i]);
            }
        }
        assert forall|ip: Seq<char>| #[trigger] by_client(s).contains_key(ip) implies exists|i: int|
            0 <= i < s.len() && (#[trigger] s[i]).client_ip == ip by {
            if ip == s.last().client_ip {
                assert(s[s.len() - 1].client_ip == ip);
            } else {
                assert(by_client(shorter).contains_key(ip));
                let i = choose|i: int| 0 <= i < shorter.len() && (#[trigger] shorter[i]).client_ip == ip;
                assert(s[i].client_ip == ip);
            }
        }
    }
}

/// Replacing the session of a client replaces it by client.
proof fn lemma_update(s: Seq<SessionModel>, i: int, new: SessionModel)
    requires
        one_per_client(s),
        0 <= i < s.len(),
        new.client_ip == s[i].client_ip,
    ensures
        one_per_client(s.update(i, new)),
        by_client(s.update(i, new)) == by_client(s).insert(new.client_ip, new),
{
    let t = s.update(i, new);
    assert forall|a: int, b: int| 0 <= a < b < t.len() implies (#[trigger] t[a]).client_ip != (
    #[trigger] t[b]).client_ip by {
        assert(s[a].client_ip != s[b].client_ip);
    }
    lemma_by_client(s);
    lemma_by_client(t);
    let want = by_client(s).insert(new.client_ip, new);
    assert forall|ip: Seq<char>| by_client(t).contains_key(ip) <==> #[trigger] want.contains_key(
        ip,
    ) by {
        if by_client(t).contains_key(ip) {
            let k = choose|k: int| 0 <= k < t.len() && (#[trigger] t[k]).client_ip == ip;
            assert(s[k].client_ip == ip);
        }
        if want.contains_key(ip) {
            if ip == new.client_ip {
                assert(t[i].client_ip == ip);
            } else {
                let k = choose|k: int| 0 <= k < s.len() && (#[trigger] s[k]).client_ip == ip;
                assert(t[k].client_ip == ip);
            }
        }
    }
    assert forall|ip: Seq<char>| #[trigger] want.contains_key(ip) implies by_client(t)[ip]
        == want[ip] by {
        if ip == new.client_ip {
            assert(t[i] == new);
        } else {
            let k = choose|k: int| 0 <= k < s.len() && (#[trigger] s[k]).client_ip == ip;
            assert(t[k] == s[k]);
        }
    }
    assert(by_client(t) =~= want);
}

/// Adding the session of a new client.
proof fn lemma_push(s: Seq<SessionModel>, new: SessionModel)
    requires
        one_per_client(s),
        forall|i: int| 0 <= i < s.len() ==> (#[trigger] s[i]).client_ip != new.client_ip,
    ensures
        one_per_client(s.push(new)),
        by_client(s.push(new)) == by_client(s).insert(new.client_ip, new),
{
    assert(s.push(new).drop_last() =~= s);
}

impl SessionEngine {
    /// The engine's invariant: no client has two sessions.
    pub closed spec fn wf(&self) -> bool {
        one_per_client(session_models(self.sessions@))
    }

    /// An engine without sessions.
    pub fn new() -> (r: SessionEngine)
        ensures
            r.wf(),
            r@ == Map::<Seq<char>, SessionModel>::empty(),
    {
        SessionEngine { sessions: Vec::new() }
    }

    /// Where the session of a client is.
    fn find(&self, client: &String) -> (r: Option<usize>)
        requires
            self.wf(),
        ensures
            match r {
                Some(i) => i < self.sessions@.len() && self.sessions@[i as int]@.client_ip
                    == client@ && session_of(self@, client@) == Some(self.sessions@[i as int]@),
                None => session_of(self@, client@) is None && forall|i: int|
                    0 <= i < self.sessions@.len() ==> (#[trigger] self.sessions@[i])@.client_ip
                        != client@,
            },
    {
        let ghost s = session_models(self.sessions@);
        proof {
            lemma_by_client(s);
        }
        let mut i: usize = 0;
        while i < self.sessions.len()
            invariant
                i <= self.sessions@.len(),
                s == session_models(self.sessions@),
                self@ == by_client(s),
                forall|k: int|
                    0 <= k < s.len() ==> by_client(s).contains_key((#[trigger] s[k]).client_ip)
                        && by_client(s)[s[k].client_ip] == s[k],
                forall|k: int|
                    0 <= k < i ==> (#[trigger] self.sessions@[k])@.client_ip != client@,
            decreases self.sessions@.len() - i,
        {
            if self.sessions[i].belongs_to(client) {
                assert(s[i as int] == self.sessions@[i as int]@);
                return Some(i);
            }
            i += 1;
        }
        proof {
            if by_client(s).contains_key(client@) {
                let k = choose|k: int| 0 <= k < s.len() && (#[trigger] s[k]).client_ip == client@;
                assert(self.sessions@[k]@ == s[k]);
            }
        }
        None
    }

    /// Fold a record into the session of its client.
    pub fn process_record(&mut self, record: &RtpRecord) -> (r: Option<BinReport>)
        requires
            old(self).wf(),
        ensures
            final(self).wf(),
            record_step(old(self)@, record@, final(self)@, r),
    {
        let client = get_client_ip(record);
        let ghost before = session_models(self.sessions@);
        match self.find(&client) {
            Some(i) => {
                let report = self.sessions[i].accept(record);
                proof {
                    let new = self.sessions@[i as int]@;
                    assert(session_models(self.sessions@) =~= before.update(i as int, new));
                    assert(new.client_ip == client@);
                    lemma_update(before, i as int, new);
                }
                report
            },
            None => {
                let mut state = SessionState::new(client, record.arrival_epoch_ns);
                let report = state.accept(record);
                self.sessions.push(state);
                proof {
                    assert(session_models(self.sessions@) =~= before.push(state@));
                    assert(state@ == session_after(None, record@));
                    lemma_push(before, state@);
                }
                report
            },
        }
    }
}

/// The sessions that are left when one is taken out of a list.
proof fn lemma_pop(s: Seq<SessionModel>)
    requires
        one_per_client(s),
        s.len() > 0,
    ensures
        one_per_client(s.drop_last()),
        !by_client(s.drop_last()).contains_key(s.last().client_ip),
{
    let shorter = s.drop_last();
    assert forall|i: int, j: int| 0 <= i < j < shorter.len() implies (
    #[trigger] shorter[i]).client_ip != (#[trigger] shorter[j]).client_ip by {
        assert(s[i].client_ip != s[j].client_ip);
    }
    lemma_by_client(shorter);
}

/// The report on one more session completes the reports.
proof fn lemma_final_reports(
    reports: Seq<BinReport>,
    sessions: Map<Seq<char>, SessionModel>,
    s: SessionModel,
    report: Option<BinReport>,
)
    requires
        final_reports(reports, sessions),
        !sessions.contains_key(s.client_ip),
        match report {
            Some(report) => s.network.has_data() && report.describes(s),
            None => !s.network.has_data(),
        },
    ensures
        final_reports(
            match report {
                Some(report) => reports.push(report),
                None => reports,
            },
            sessions.insert(s.client_ip, s),
        ),
{
    let all = match report {
        Some(report) => reports.push(report),
        None => reports,
    };
    let more = sessions.insert(s.client_ip, s);
    assert forall|ip: Seq<char>| #[trigger]
        more.contains_key(ip) && more[ip].network.has_data() implies reports_on(all, ip) by {
        if ip == s.client_ip {
            assert(all[reports.len() as int].client_ip@ == ip);
        } else {
            assert(sessions.contains_key(ip));
            let i = choose|i: int| 0 <= i < reports.len() && (#[trigger] reports[i]).client_ip@ == ip;
            assert(all[i].client_ip@ == ip);
        }
    }
}

impl SessionEngine {
    /// Fold a batch of records into the sessions.
    pub fn process_batch(&mut self, batch: Batch) -> (r: Vec<BinReport>)
        requires
            old(self).wf(),
        ensures
            final(self).wf(),
            records_run(old(self)@, batch.model(), final(self)@, r@),
    {
        let mut reports: Vec<BinReport> = Vec::new();
        let ghost mut states: Seq<Map<Seq<char>, SessionModel>> = seq![self@];
        let ghost mut outcomes: Seq<Option<BinReport>> = Seq::empty();
        let mut i: usize = 0;
        while i < batch.records.len()
            invariant
                i <= batch.records@.len(),
                self.wf(),
                records_trace(batch.model().take(i as int), states, outcomes),
                states[0] == old(self)@,
                states.last() == self@,
                reports@ == given(outcomes),
            decreases batch.records@.len() - i,
        {
            let ghost done = batch.model().take(i as int);
            let ghost records = batch.model().take(i + 1);
            let outcome = self.process_record(&batch.records[i]);
            proof {
                let more_states = states.push(self@);
                let more_outcomes = outcomes.push(outcome);
                assert(more_outcomes.drop_last() =~= outcomes);
                assert forall|k: int| 0 <= k < records.len() implies record_step(
                    more_states[k],
                    #[trigger] records[k],
                    more_states[k + 1],
                    more_outcomes[k],
                ) by {
                    if k < i {
                        assert(records[k] == done[k]);
                    }
                }
                states = more_states;
                outcomes = more_outcomes;
            }
            if let Some(report) = outcome {
                reports.push(report);
            }
            i += 1;
        }
        assert(batch.model().take(i as int) =~= batch.model());
        reports
    }

    /// Drop the sessions that are over, each with a last report.
    pub fn cleanup_stale_sessions(&mut self, now_ns: u64) -> (r: Vec<BinReport>)
        requires
            old(self).wf(),
        ensures
            final(self).wf(),
            final(self)@ == live(old(self)@, now_ns),
            final_reports(r@, stale(old(self)@, now_ns)),
    {
        let mut reports: Vec<BinReport> = Vec::new();
        let mut kept: Vec<SessionState> = Vec::new();
        let ghost mut seen: Map<Seq<char>, SessionModel> = Map::empty();
        assert(stale(seen, now_ns) =~= Map::empty());
        assert(live(seen, now_ns) =~= Map::empty());
        assert(session_models(kept@) =~= Seq::empty());
        assert(old(self)@ =~= seen.union_prefer_right(self@));
        while self.sessions.len() > 0
            invariant
                self.wf(),
                one_per_client(session_models(kept@)),
                by_client(session_models(kept@)) == live(seen, now_ns),
                final_reports(reports@, stale(seen, now_ns)),
                forall|ip: Seq<char>|
                    !(#[trigger] seen.contains_key(ip) && self@.contains_key(ip)),
                old(self)@ == seen.union_prefer_right(self@),
            decreases self.sessions@.len(),
        {
            let ghost s = session_models(self.sessions@);
            let ghost last = s.last();
            proof {
                lemma_pop(s);
                lemma_by_client(session_models(kept@));
                assert(self@.contains_key(last.client_ip));
                assert(!seen.contains_key(last.client_ip));
            }
            if let Some(popped) = self.sessions.pop() {
                let mut state = popped;
                assert(state@ == last);
                assert(session_models(self.sessions@) =~= s.drop_last());
                let ghost more = seen.insert(last.client_ip, last);
                if state.is_expired(now_ns) {
                    let ghost earlier = reports@;
                    let report = flush_session(&mut state);
                    proof {
                        lemma_final_reports(earlier, stale(seen, now_ns), last, report);
                        assert(stale(more, now_ns) =~= stale(seen, now_ns).insert(
                            last.client_ip,
                            last,
                        ));
                        assert(live(more, now_ns) =~= live(seen, now_ns));
                    }
                    if let Some(report) = report {
                        reports.push(report);
                    }
                } else {
                    let ghost before = session_models(kept@);
                    kept.push(state);
                    proof {
                        assert forall|i: int| 0 <= i < before.len() implies (
                        #[trigger] before[i]).client_ip != last.client_ip by {
                            assert(live(seen, now_ns).contains_key(before[i].client_ip));
                        }
                        lemma_push(before, last);
                        assert(session_models(kept@) =~= before.push(last));
                        assert(live(more, now_ns) =~= live(seen, now_ns).insert(
                            last.client_ip,
                            last,
                        ));
                        assert(stale(more, now_ns) =~= stale(seen, now_ns));
                    }
                }
                proof {
                    assert(more.union_prefer_right(self@) =~= seen.union_prefer_right(
                        by_client(s),
                    ));
                    seen = more;
                }
            }
        }
        assert(self@ =~= Map::empty());
        assert(seen =~= old(self)@);
        self.sessions = kept;
        reports
    }

    /// Take the last report of every session.
    pub fn shutdown(self) -> (r: Vec<BinReport>)
        requires
            self.wf(),
        ensures
            final_reports(r@, self@),
    {
        let mut sessions = self.sessions;
        let mut reports: Vec<BinReport> = Vec::new();
        let mut i: usize = 0;
        let ghost s = session_models(self.sessions@);
        assert(by_client(s.take(0)) =~= Map::empty());
        while i < sessions.len()
            invariant
                i <= sessions@.len(),
                sessions@.len() == s.len(),
                one_per_client(s),
                forall|k: int| i <= k < s.len() ==> (#[trigger] sessions@[k])@ == s[k],
                final_reports(reports@, by_client(s.take(i as int))),
            decreases sessions@.len() - i,
        {
            let ghost earlier = reports@;
            let report = flush_session(&mut sessions[i]);
            proof {
                let next = s.take(i + 1);
                assert(next.drop_last() =~= s.take(i as int));
                lemma_pop(next);
                lemma_final_reports(earlier, by_client(s.take(i as int)), s[i as int], report);
            }
            if let Some(report) = report {
                reports.push(report);
            }
            i += 1;
        }
        assert(s.take(i as int) =~= s);
        reports
    }
}

/// What came of waiting for a batch.
pub enum BatchEvent {
    Batch(Batch),
    Timeout,
    Disconnected,
}

/// What a session worker does next.
pub enum WorkerAction {
    /// Fold the batch into the sessions, then drop those that are over.
    Process(Batch),
    /// Drop the sessions that are over.
    Cleanup,
    /// Take the last reports and stop.
    Stop,
}

/// What a session worker does next.  It stops when the sentinel comes or nobody
/// sends batches any more.
pub fn next_action(event: BatchEvent) -> (r: WorkerAction)
    ensures
        r == match event {
            BatchEvent::Batch(batch) => if batch.model().len() == 0 {
                WorkerAction::Stop
            } else {
                WorkerAction::Process(batch)
            },
            BatchEvent::Timeout => WorkerAction::Cleanup,
            BatchEvent::Disconnected => WorkerAction::Stop,
        },
{
    match event {
        BatchEvent::Batch(batch) => if batch.is_sentinel() {
            WorkerAction::Stop
        } else {
            WorkerAction::Process(batch)
        },
        BatchEvent::Timeout => WorkerAction::Cleanup,
        BatchEvent::Disconnected => WorkerAction::Stop,
    }
}

/// Whether every session is filed under its client.
pub open spec fn filed_by_client(sessions: Map<Seq<char>, SessionModel>) -> bool {
    forall|ip: Seq<char>| #[trigger]
        sessions.contains_key(ip) ==> sessions[ip].client_ip == ip
}

/// An engine files its sessions under their clients.
pub proof fn engines_file_by_client(engine: SessionEngine)
    requires
        engine.wf(),
    ensures
        filed_by_client(engine@),
{
    let s = session_models(engine.sessions@);
    lemma_by_client(s);
    assert forall|ip: Seq<char>| #[trigger]
        engine@.contains_key(ip) implies engine@[ip].client_ip == ip by {
        let i = choose|i: int| 0 <= i < s.len() && (#[trigger] s[i]).client_ip == ip;
        assert(by_client(s)[s[i].client_ip] == s[i]);
    }
}

/// Sessions stay filed under their clients, whatever the engine does.
pub proof fn sessions_stay_filed(
    before: Map<Seq<char>, SessionModel>,
    r: RecordModel,
    after: Map<Seq<char>, SessionModel>,
    out: Option<BinReport>,
    now_ns: u64,
)
    requires
        filed_by_client(before),
        record_step(before, r, after, out),
    ensures
        filed_by_client(Map::empty()),
        filed_by_client(after),
        filed_by_client(live(before, now_ns)),
        filed_by_client(stale(before, now_ns)),
{
}

/// Clients do not disturb each other: a record changes only the session of its
/// own client, which exists afterwards.
pub proof fn clients_are_independent(
    before: Map<Seq<char>, SessionModel>,
    r: RecordModel,
    after: Map<Seq<char>, SessionModel>,
    out: Option<BinReport>,
    ip: Seq<char>,
)
    requires
        record_step(before, r, after, out),
    ensures
        ip != client_ip(r) ==> session_of(after, ip) == session_of(before, ip),
        after.contains_key(client_ip(r)),
{
}

/// No traffic goes missing when stale sessions are dropped: a session with data
/// in its current bin is either kept or reported, never both.
pub proof fn sessions_are_kept_or_reported(
    sessions: Map<Seq<char>, SessionModel>,
    now_ns: u64,
    reports: Seq<BinReport>,
    ip: Seq<char>,
)
    requires
        final_reports(reports, stale(sessions, now_ns)),
        sessions.contains_key(ip),
        sessions[ip].network.has_data(),
    ensures
        live(sessions, now_ns).contains_key(ip) <==> !reports_on(reports, ip),
        live(sessions, now_ns).contains_key(ip) ==> live(sessions, now_ns)[ip] == sessions[ip],
{
    if !live(sessions, now_ns).contains_key(ip) {
        assert(stale(sessions, now_ns).contains_key(ip));
    }
}

/// What a session has counted and not reported when a record comes.
pub open spec fn unreported(s: Option<SessionModel>, r: RecordModel) -> NetworkCounts {
    match s {
        Some(s) => if s.reports_at(r.arrival_epoch_ns) {
            no_counts()
        } else {
            s.network.counts
        },
        None => no_counts(),
    }
}

/// All traffic is reported once: a record adds one packet and its bytes to what
/// the session has not reported yet, and nothing is dropped when a bin or a
/// session ends.
pub proof fn traffic_is_reported_once(s: Option<SessionModel>, r: RecordModel)
    requires
        s matches Some(s) ==> s.network.wf(),
    ensures
        ({
            let due = unreported(s, r);
            let counts = session_after(s, r).network.counts;
            let len = r.udp_len as u64;
            if server_ip(r.dst_ip) {
                &&& counts.uplink_bytes == due.uplink_bytes.wrapping_add(len)
                &&& counts.uplink_packets == due.uplink_packets.wrapping_add(1)
                &&& counts.downlink_bytes == due.downlink_bytes
                &&& counts.downlink_packets == due.downlink_packets
                &&& counts.downlink_lost_packets == due.downlink_lost_packets
            } else if server_ip(r.src_ip) {
                &&& counts.downlink_bytes == due.downlink_bytes.wrapping_add(len)
                &&& counts.downlink_packets == due.downlink_packets.wrapping_add(1)
                &&& counts.uplink_bytes == due.uplink_bytes
                &&& counts.uplink_packets == due.uplink_packets
                &&& counts.uplink_lost_packets == due.uplink_lost_packets
            } else {
                counts == due
            }
        }),
{
}

/// Which sessions are dropped and which are kept: those whose client was silent
/// for more than 120 seconds, and all others, unchanged.
pub proof fn sessions_are_dropped_after_two_minutes(
    sessions: Map<Seq<char>, SessionModel>,
    now_ns: u64,
    ip: Seq<char>,
)
    ensures
        stale(sessions, now_ns).contains_key(ip) <==> sessions.contains_key(ip) && now_ns
            > sessions[ip].last_seen_ns + 120_000_000_000,
        live(sessions, now_ns).contains_key(ip) <==> sessions.contains_key(ip) && now_ns
            <= sessions[ip].last_seen_ns + 120_000_000_000,
        stale(sessions, now_ns).contains_key(ip) ==> stale(sessions, now_ns)[ip] == sessions[ip],
        live(sessions, now_ns).contains_key(ip) ==> live(sessions, now_ns)[ip] == sessions[ip],
{
    super::state::sessions_last_two_minutes(sessions[ip], now_ns);
}

/// The last reports: one for every session that has counted a packet in its bin,
/// none for any other, and each describes its session.
pub proof fn sessions_with_traffic_are_reported(
    reports: Seq<BinReport>,
    sessions: Map<Seq<char>, SessionModel>,
    ip: Seq<char>,
)
    requires
        final_reports(reports, sessions),
    ensures
        (exists|i: int| 0 <= i < reports.len() && (#[trigger] reports[i]).client_ip@ == ip) <==> {
            &&& sessions.contains_key(ip)
            &&& sessions[ip].network.counts.uplink_packets > 0
                || sessions[ip].network.counts.downlink_packets > 0
        },
        forall|i: int|
            0 <= i < reports.len() && (#[trigger] reports[i]).client_ip@ == ip
                ==> reports[i].describes(sessions[ip]),
        forall|i: int, j: int|
            0 <= i < reports.len() && 0 <= j < reports.len() && (
            #[trigger] reports[i]).client_ip@ == ip && (#[trigger] reports[j]).client_ip@ == ip ==> i
                == j,
{
    if sessions.contains_key(ip) && sessions[ip].network.has_data() {
        assert(reports_on(reports, ip));
    }
}

/// The reports of several records come in the order of the records, and none is
/// left out.
pub proof fn reports_come_in_order(outcomes: Seq<Option<BinReport>>, next: Option<BinReport>)
    ensures
        given(Seq::empty()) == Seq::<BinReport>::empty(),
        given(outcomes.push(next)) == match next {
            Some(report) => given(outcomes).push(report),
            None => given(outcomes),
        },
{
    assert(outcomes.push(next).drop_last() =~= outcomes);
}

/// The records of one client.
pub open spec fn of_client(records: Seq<RecordModel>, ip: Seq<char>) -> Seq<RecordModel> {
    records.filter(|r: RecordModel| client_ip(r) == ip)
}

/// The session of a client after a run of its records.
pub open spec fn session_after_run(
    s: Option<SessionModel>,
    records: Seq<RecordModel>,
) -> Option<SessionModel>
    decreases records.len(),
{
    if records.len() == 0 {
        s
    } else {
        Some(session_after(session_after_run(s, records.drop_last()), records.last()))
    }
}

/// However the records of several clients are interleaved, the session of each
/// client is made of its own records alone, in their order.
pub proof fn sessions_are_made_of_their_own_records(
    records: Seq<RecordModel>,
    states: Seq<Map<Seq<char>, SessionModel>>,
    outcomes: Seq<Option<BinReport>>,
    ip: Seq<char>,
)
    requires
        records_trace(records, states, outcomes),
    ensures
        session_of(states.last(), ip) == session_after_run(
            session_of(states[0], ip),
            of_client(records, ip),
        ),
    decreases records.len(),
{
    reveal(Seq::filter);
    if records.len() > 0 {
        let n = records.len() - 1;
        let before = records.drop_last();
        let r = records.last();
        assert forall|i: int| 0 <= i < before.len() implies record_step(
            states.drop_last()[i],
            #[trigger] before[i],
            states.drop_last()[i + 1],
            outcomes.drop_last()[i],
        ) by {
            assert(before[i] == records[i]);
        }
        sessions_are_made_of_their_own_records(
            before,
            states.drop_last(),
            outcomes.drop_last(),
            ip,
        );
        assert(record_step(states[n as int], records[n as int], states[n + 1], outcomes[n as int]));
        if client_ip(r) == ip {
            assert(of_client(records, ip).drop_last() =~= of_client(before, ip));
        }
    }
}

/// A session is what the engine knows of a client, and an engine that knows
/// nothing of a client has no session of it.
pub proof fn sessions_are_found_by_client(
    sessions: Map<Seq<char>, SessionModel>,
    r: RecordModel,
    after: Map<Seq<char>, SessionModel>,
    out: Option<BinReport>,
)
    requires
        record_step(sessions, r, after, out),
    ensures
        ({
            let ip = client_ip(r);
            let s = if sessions.contains_key(ip) {
                Some(sessions[ip])
            } else {
                None
            };
            &&& after[ip] == session_after(s, r)
            &&& report_at(s, r, out)
            &&& after.remove(ip) == sessions.remove(ip)
        }),
{
    assert(after.remove(client_ip(r)) =~= sessions.remove(client_ip(r)));
}

/// Without records nothing changes and nothing is reported.
pub proof fn empty_batches_change_nothing(
    before: Map<Seq<char>, SessionModel>,
    after: Map<Seq<char>, SessionModel>,
    out: Seq<BinReport>,
)
    requires
        records_run(before, Seq::empty(), after, out),
    ensures
        after == before,
        out == Seq::<BinReport>::empty(),
{
    let (states, outcomes) = choose|
        states: Seq<Map<Seq<char>, SessionModel>>,
        outcomes: Seq<Option<BinReport>>,
    |
        {
            &&& #[trigger] records_trace(Seq::empty(), states, outcomes)
            &&& states[0] == before
            &&& states.last() == after
            &&& out == given(outcomes)
        };
    assert(outcomes =~= Seq::empty());
}

/// A batch is taken record by record: the last record meets the sessions as those
/// before it left them, and its report, if there is one, comes after theirs.
pub proof fn batches_are_taken_record_by_record(
    before: Map<Seq<char>, SessionModel>,
    records: Seq<RecordModel>,
    r: RecordModel,
    after: Map<Seq<char>, SessionModel>,
    out: Seq<BinReport>,
) -> (parts: (Map<Seq<char>, SessionModel>, Seq<BinReport>, Option<BinReport>))
    requires
        records_run(before, records.push(r), after, out),
    ensures
        records_run(before, records, parts.0, parts.1),
        record_step(parts.0, r, after, parts.2),
        out == match parts.2 {
            Some(report) => parts.1.push(report),
            None => parts.1,
        },
{
    let all = records.push(r);
    let (states, outcomes) = choose|
        states: Seq<Map<Seq<char>, SessionModel>>,
        outcomes: Seq<Option<BinReport>>,
    |
        {
            &&& #[trigger] records_trace(all, states, outcomes)
            &&& states[0] == before
            &&& states.last() == after
            &&& out == given(outcomes)
        };
    let n = records.len() as int;
    let (s, o) = (states.drop_last(), outcomes.drop_last());
    assert forall|i: int| 0 <= i < records.len() implies record_step(
        s[i],
        #[trigger] records[i],
        s[i + 1],
        o[i],
    ) by {
        assert(all[i] == records[i]);
    }
    assert(records_trace(records, s, o));
    assert(record_step(states[n], all[n], states[n + 1], outcomes[n]));
    (states[n], given(o), outcomes[n])
}

} // verus!
