//! Asking for a compaction: one fenced entry in the log, unless its end shows that there is
//! nothing to ask for.
use crate::interrupt::FencedAppend;
use crate::nats_event_sink::{last_durable_seq, last_seq};
use crate::session_log::{outcome_view, CompactOutcome, OutcomeView, SessionLogEntry};
use crate::text::opt_text;
use vstd::prelude::*;
use vstd::string::*;

verus! {

/// How often the fenced append is tried while the tail of the log moves.
pub const MAX_CAS_ATTEMPTS: usize = 16;

/// What became of a request to compact.
#[derive(Debug, PartialEq, Eq)]
pub enum CompactSubmit {
    /// The request stands in the log.
    Submitted { compaction_id: String },
    /// Another request is not answered yet.
    AlreadyInFlight { compaction_id: String },
    /// The last request was answered, and nothing has happened since.
    NothingToDo { outcome: CompactOutcome },
}

/// A request to compact a session.
#[derive(Debug)]
pub struct CompactionRequest {
    /// The key under which the session is stored.
    pub session_id: String,
    pub cluster: String,
    pub replicas: usize,
    pub compaction_id: String,
    pub requested_by: Option<String>,
}

/// What became of a request, without the strings around the text.
pub enum SubmitView {
    Submitted(Seq<char>),
    AlreadyInFlight(Seq<char>),
    NothingToDo(OutcomeView),
}

/// What became of a request.
pub open spec fn submit_view(submit: CompactSubmit) -> SubmitView {
    match submit {
        CompactSubmit::Submitted { compaction_id } => SubmitView::Submitted(compaction_id@),
        CompactSubmit::AlreadyInFlight { compaction_id } => SubmitView::AlreadyInFlight(
            compaction_id@,
        ),
        CompactSubmit::NothingToDo { outcome } => SubmitView::NothingToDo(outcome_view(outcome)),
    }
}

/// What the last entry of the log says of a request; nothing means that it is appended. A
/// compaction that failed may be asked for again.
pub open spec fn submit_decision(entries: Seq<(u64, SessionLogEntry)>) -> Option<SubmitView> {
    if entries.len() == 0 {
        None
    } else {
        match entries.last().1 {
            SessionLogEntry::CompactRequest { compaction_id, .. } => Some(
                SubmitView::AlreadyInFlight(compaction_id@),
            ),
            SessionLogEntry::CompactResult { outcome, .. } => match outcome {
                CompactOutcome::Failed(_) => None,
                _ => Some(SubmitView::NothingToDo(outcome_view(outcome))),
            },
            _ => None,
        }
    }
}

/// What the last entry of the log says of a request; nothing means that it is appended.
pub fn decide_compact_submit(entries: &[(u64, SessionLogEntry)]) -> (r: Option<CompactSubmit>)
    ensures
        match r {
            Some(submit) => submit_decision(entries@) == Some(submit_view(submit)),
            None => submit_decision(entries@) is None,
        },
{
    if entries.len() == 0 {
        return None;
    }
    match &entries[entries.len() - 1].1 {
        SessionLogEntry::CompactRequest { compaction_id, .. } => Some(
            CompactSubmit::AlreadyInFlight { compaction_id: compaction_id.clone() },
        ),
        SessionLogEntry::CompactResult { outcome, .. } => match outcome {
            CompactOutcome::Compacted => Some(
                CompactSubmit::NothingToDo { outcome: CompactOutcome::Compacted },
            ),
            CompactOutcome::Unchanged(reason) => Some(
                CompactSubmit::NothingToDo { outcome: CompactOutcome::Unchanged(*reason) },
            ),
            CompactOutcome::Failed(_) => None,
        },
        _ => None,
    }
}

/// What the caller does next for a request to compact.
#[derive(Debug)]
pub enum CompactionStep {
    /// Append this entry if the log still ends at `tail`.
    Append { tail: u64, entry: SessionLogEntry },
    /// The request is settled.
    Done(CompactSubmit),
    /// The end of the log kept moving.
    Exhausted,
}

/// Whether an entry is the request with this identifier.
pub open spec fn is_own_request(e: SessionLogEntry, id: Seq<char>) -> bool {
    e matches SessionLogEntry::CompactRequest { compaction_id, .. } && compaction_id@ == id
}

/// Whether the request with this identifier is among the entries.
pub open spec fn has_own_request(entries: Seq<(u64, SessionLogEntry)>, id: Seq<char>) -> bool {
    exists|i: int| 0 <= i < entries.len() && is_own_request((#[trigger] entries[i]).1, id)
}

fn find_own_request(entries: &[(u64, SessionLogEntry)], id: &String) -> (r: bool)
    ensures
        r == has_own_request(entries@, id@),
{
    let mut i: usize = 0;
    while i < entries.len()
        invariant
            i <= entries@.len(),
            forall|k: int| 0 <= k < i ==> !is_own_request((#[trigger] entries@[k]).1, id@),
        decreases entries@.len() - i,
    {
        if let SessionLogEntry::CompactRequest { compaction_id, .. } = &entries[i].1 {
            if *compaction_id == *id {
                assert(is_own_request(entries@[i as int].1, id@));
                return true;
            }
        }
        i += 1;
    }
    false
}

/// What an announcement of an accepted request needs.
#[derive(Debug)]
pub struct AcceptedCompaction {
    pub session_id: String,
    pub cluster: String,
    pub replicas: usize,
    pub compaction_id: String,
    pub request_seq: u64,
}

impl AcceptedCompaction {
    pub fn new(request: &CompactionRequest, request_seq: u64) -> (r: Self)
        ensures
            r == (AcceptedCompaction {
                session_id: request.session_id,
                cluster: request.cluster,
                replicas: request.replicas,
                compaction_id: request.compaction_id,
                request_seq,
            }),
    {
        AcceptedCompaction {
            session_id: request.session_id.clone(),
            cluster: request.cluster.clone(),
            replicas: request.replicas,
            compaction_id: request.compaction_id.clone(),
            request_seq,
        }
    }
}

/// A request to compact in progress: the end of the log as far as it is known, and the appends
/// that are left.
#[derive(Debug)]
pub struct CompactionSubmission {
    request: CompactionRequest,
    entries: Vec<(u64, SessionLogEntry)>,
    attempts: usize,
}

impl CompactionSubmission {
    pub closed spec fn known(&self) -> Seq<(u64, SessionLogEntry)> {
        self.entries@
    }

    /// Appends that were tried and lost.
    pub closed spec fn attempts(&self) -> nat {
        self.attempts as nat
    }

    pub closed spec fn request(&self) -> CompactionRequest {
        self.request
    }

    /// Starts from the last entry of the log.
    pub fn start(request: CompactionRequest, entries: Vec<(u64, SessionLogEntry)>) -> (r: Self)
        ensures
            r.known() == entries@,
            r.attempts() == 0,
            r.request() == request,
    {
        CompactionSubmission { request, entries, attempts: 0 }
    }

    /// What to do next.
    pub fn next(&self) -> (r: CompactionStep)
        ensures
            match r {
                CompactionStep::Exhausted => self.attempts() >= MAX_CAS_ATTEMPTS,
                CompactionStep::Done(submit) => self.attempts() < MAX_CAS_ATTEMPTS
                    && submit_decision(self.known()) == Some(submit_view(submit)),
                CompactionStep::Append { tail, entry } => {
                    &&& self.attempts() < MAX_CAS_ATTEMPTS
                    &&& submit_decision(self.known()) is None
                    &&& tail == last_seq(self.known())
                    &&& entry matches SessionLogEntry::CompactRequest {
                        compaction_id,
                        requested_by,
                    } && compaction_id@ == self.request().compaction_id@ && opt_text(requested_by)
                        == opt_text(self.request().requested_by)
                },
            },
    {
        if self.attempts >= MAX_CAS_ATTEMPTS {
            return CompactionStep::Exhausted;
        }
        match decide_compact_submit(self.entries.as_slice()) {
            Some(submit) => CompactionStep::Done(submit),
            None => CompactionStep::Append {
                tail: last_durable_seq(self.entries.as_slice()),
                entry: SessionLogEntry::compact_request(
                    self.request.compaction_id.clone(),
                    self.request.requested_by.clone(),
                ),
            },
        }
    }

    /// Takes the result of an append. The answer, once there is one, and what to announce. A
    /// request with this identifier among the newer entries is the own append, whose answer was
    /// lost; it is not announced again.
    pub fn appended(&mut self, result: FencedAppend) -> (r: Option<
        (CompactSubmit, Option<AcceptedCompaction>),
    >)
        requires
            old(self).attempts() < MAX_CAS_ATTEMPTS,
        ensures
            final(self).request() == old(self).request(),
            match result {
                FencedAppend::Appended(seq) => {
                    let request = old(self).request();
                    &&& r matches Some((submit, Some(accepted))) && submit_view(submit)
                        == SubmitView::Submitted(request.compaction_id@) && accepted == (
                    AcceptedCompaction {
                        session_id: request.session_id,
                        cluster: request.cluster,
                        replicas: request.replicas,
                        compaction_id: request.compaction_id,
                        request_seq: seq,
                    })
                    &&& final(self).known() == old(self).known()
                    &&& final(self).attempts() == old(self).attempts()
                },
                FencedAppend::Conflict { entries } => if has_own_request(
                    entries@,
                    old(self).request().compaction_id@,
                ) {
                    &&& r matches Some((submit, None)) && submit_view(submit)
                        == SubmitView::Submitted(old(self).request().compaction_id@)
                    &&& final(self).known() == old(self).known()
                    &&& final(self).attempts() == old(self).attempts()
                } else {
                    &&& r is None
                    &&& final(self).known() == old(self).known() + entries@
                    &&& final(self).attempts() == old(self).attempts() + 1
                },
            },
    {
        match result {
            FencedAppend::Appended(seq) => Some(
                (
                    CompactSubmit::Submitted {
                        compaction_id: self.request.compaction_id.clone(),
                    },
                    Some(AcceptedCompaction::new(&self.request, seq)),
                ),
            ),
            FencedAppend::Conflict { entries } => {
                if find_own_request(entries.as_slice(), &self.request.compaction_id) {
                    Some(
                        (
                            CompactSubmit::Submitted {
                                compaction_id: self.request.compaction_id.clone(),
                            },
                            None,
                        ),
                    )
                } else {
                    let mut newer = entries;
                    self.entries.append(&mut newer);
                    self.attempts = self.attempts + 1;
                    None
                }
            },
        }
    }
}

/// What to tell of a request whose append never landed.
pub fn exhausted_message() -> (r: String)
    ensures
        r@ == "session log tail kept moving; compaction request not appended after 16 attempts"@,
{
    String::from_str(
        "session log tail kept moving; compaction request not appended after 16 attempts",
    )
}

/// A request that stands at the end of the log keeps every other one out, until it is answered.
pub proof fn law_pending_request_blocks(
    entries: Seq<(u64, SessionLogEntry)>,
    seq: u64,
    request: SessionLogEntry,
)
    requires
        request is CompactRequest,
    ensures
        submit_decision(entries.push((seq, request))) is Some,
{
    assert(entries.push((seq, request)).last() == (seq, request));
}

/// After a compaction that failed, or any other entry, the request goes through.
pub proof fn law_anything_else_lets_a_request_through(
    entries: Seq<(u64, SessionLogEntry)>,
    seq: u64,
    entry: SessionLogEntry,
)
    requires
        !(entry is CompactRequest),
        entry matches SessionLogEntry::CompactResult { outcome, .. } ==> outcome is Failed,
    ensures
        submit_decision(entries.push((seq, entry))) is None,
{
    assert(entries.push((seq, entry)).last() == (seq, entry));
}

/// A request that is not answered yet is named to whoever asks again.
pub proof fn law_pending_request_is_named(
    entries: Seq<(u64, SessionLogEntry)>,
    seq: u64,
    compaction_id: String,
    requested_by: Option<String>,
)
    ensures
        submit_decision(
            entries.push((seq, SessionLogEntry::CompactRequest { compaction_id, requested_by })),
        ) == Some(SubmitView::AlreadyInFlight(compaction_id@)),
{
    let more = entries.push((seq, SessionLogEntry::CompactRequest { compaction_id, requested_by }));
    assert(more.last() == (seq, SessionLogEntry::CompactRequest { compaction_id, requested_by }));
}

/// Right after a compaction that ended well there is nothing to do, for the reason that it gave.
pub proof fn law_settled_compaction_leaves_nothing_to_do(
    entries: Seq<(u64, SessionLogEntry)>,
    seq: u64,
    compaction_id: String,
    outcome: CompactOutcome,
)
    requires
        !(outcome is Failed),
    ensures
        ({
            let more = entries.push((seq, SessionLogEntry::CompactResult { compaction_id, outcome }));
            &&& outcome is Compacted ==> submit_decision(more) == Some(
                SubmitView::NothingToDo(OutcomeView::Compacted),
            )
            &&& outcome matches CompactOutcome::Unchanged(reason) ==> submit_decision(more) == Some(
                SubmitView::NothingToDo(OutcomeView::Unchanged(reason)),
            )
        }),
        submit_decision(Seq::<(u64, SessionLogEntry)>::empty()) is None,
{
    let more = entries.push((seq, SessionLogEntry::CompactResult { compaction_id, outcome }));
    assert(more.last() == (seq, SessionLogEntry::CompactResult { compaction_id, outcome }));
}

/// The own request is known by its identifier alone, wherever it stands among the entries.
pub proof fn law_own_request_is_known_by_its_identifier(
    entries: Seq<(u64, SessionLogEntry)>,
    id: Seq<char>,
)
    ensures
        has_own_request(entries, id) <==> exists|i: int|
            0 <= i < entries.len() && ((
            #[trigger] entries[i]).1 matches SessionLogEntry::CompactRequest {
                compaction_id,
                ..
            } && compaction_id@ == id),
{
    if has_own_request(entries, id) {
        let i = choose|i: int|
            0 <= i < entries.len() && is_own_request((#[trigger] entries[i]).1, id);
        assert(entries[i].1 is CompactRequest);
    } else {
        assert forall|i: int| 0 <= i < entries.len() implies !((
        #[trigger] entries[i]).1 matches SessionLogEntry::CompactRequest { compaction_id, .. }
            && compaction_id@ == id) by {
            assert(!is_own_request(entries[i].1, id));
        }
    }
}

/// What became of a request is told with all that it says.
pub proof fn law_submissions_are_told_in_full(submit: CompactSubmit)
    ensures
        submit matches CompactSubmit::Submitted { compaction_id } ==> submit_view(submit)
            == SubmitView::Submitted(compaction_id@),
        submit matches CompactSubmit::AlreadyInFlight { compaction_id } ==> submit_view(submit)
            == SubmitView::AlreadyInFlight(compaction_id@),
        submit matches CompactSubmit::NothingToDo { outcome } ==> submit_view(submit)
            == SubmitView::NothingToDo(outcome_view(outcome)),
{
}

} // verus!
