//! Committed decisions as entries of the log: each once, in the order in which they were made.
use crate::execution_fence::{CommitAction, CommitReceipt, GateAction};
use crate::nats_event_sink::{last_durable_seq, last_seq};
use crate::session_log::SessionLogEntry;
use crate::text::{decimal, decimal_of};
use vstd::prelude::*;
use vstd::string::*;

verus! {

/// The log as a projector finds it: where it ends, and which commits it holds already.
#[derive(Debug)]
pub struct ProjectionSnapshot {
    pub tail: u64,
    /// The identifiers of messages, with their sequence numbers, in the order of the log.
    pub committed: Vec<(String, u64)>,
}

/// Where the message with this identifier stands. Of several the last one counts.
pub open spec fn committed_at(committed: Seq<(String, u64)>, id: Seq<char>) -> Option<u64>
    decreases committed.len(),
{
    if committed.len() == 0 {
        None
    } else if committed.last().0@ == id {
        Some(committed.last().1)
    } else {
        committed_at(committed.drop_last(), id)
    }
}

impl ProjectionSnapshot {
    /// Where the message with this identifier stands.
    pub fn sequence(&self, id: &str) -> (r: Option<u64>)
        ensures
            r == committed_at(self.committed@, id@),
    {
        let mut i: usize = self.committed.len();
        assert(self.committed@.take(i as int) =~= self.committed@);
        while i > 0
            invariant
                i <= self.committed@.len(),
                committed_at(self.committed@, id@) == committed_at(
                    self.committed@.take(i as int),
                    id@,
                ),
            decreases i,
        {
            assert(self.committed@.take(i as int).drop_last() =~= self.committed@.take(i - 1));
            assert(self.committed@.take(i as int).last() == self.committed@[i - 1]);
            if *self.committed[i - 1].0.as_str() == *id {
                return Some(self.committed[i - 1].1);
            }
            i -= 1;
        }
        None
    }
}

/// What a projector does with an entry.
#[derive(Clone, Copy, Debug, PartialEq, Eq, Structural)]
pub enum ProjectEntry {
    /// The log holds the commit already. Its content must be the same.
    Compare { seq: u64 },
    /// The log has moved on from where the decision was made: the entry is left out.
    TailMoved,
    /// Append the entry if the log still ends here; otherwise look again.
    Append { tail: u64 },
}

/// What a projector does with an entry.
pub open spec fn projected(snapshot: ProjectionSnapshot, id: Seq<char>, expected: Option<u64>)
    -> ProjectEntry {
    match committed_at(snapshot.committed@, id) {
        Some(seq) => ProjectEntry::Compare { seq },
        None => if expected matches Some(tail) && tail != snapshot.tail {
            ProjectEntry::TailMoved
        } else {
            ProjectEntry::Append { tail: snapshot.tail }
        },
    }
}

/// What a projector does with an entry.
pub fn project_entry(snapshot: &ProjectionSnapshot, id: &str, expected: Option<u64>) -> (r:
    ProjectEntry)
    ensures
        r == projected(*snapshot, id@, expected),
{
    match snapshot.sequence(id) {
        Some(seq) => ProjectEntry::Compare { seq },
        None => {
            match expected {
                Some(tail) => {
                    if tail != snapshot.tail {
                        return ProjectEntry::TailMoved;
                    }
                },
                None => {},
            }
            ProjectEntry::Append { tail: snapshot.tail }
        },
    }
}

/// The decisions that are still to be projected, first and last, up to `target`. Nothing where
/// the cursor has passed it.
pub fn projection_range(cursor: Option<u64>, target: u64) -> (r: Option<(u64, u64)>)
    requires
        cursor matches Some(c) ==> c < u64::MAX,
    ensures
        r == {
            let start = match cursor {
                Some(c) => (c + 1) as u64,
                None => 1,
            };
            if start > target {
                None
            } else {
                Some((start, target))
            }
        },
{
    let start: u64 = match cursor {
        Some(c) => c + 1,
        None => 1,
    };
    if start > target {
        None
    } else {
        Some((start, target))
    }
}

/// The kind of an output.
#[derive(Clone, Copy, Debug, PartialEq, Eq, Structural)]
pub enum OutputKind {
    Transcript,
    SessionMetadata,
    Progress,
}

/// A decision that was admitted.
#[derive(Clone, Copy, Debug, PartialEq, Eq, Structural)]
pub enum CommittedAction {
    /// An output of a worker.
    CommitOutput { kind: OutputKind },
    /// A cancellation that covers the log through `through_seq`.
    RecordCancellation { through_seq: u64, fence_token: u64 },
    /// Anything that leaves no trace in the log.
    Other,
}

/// Where a decision is projected to.
#[derive(Clone, Copy, Debug, PartialEq, Eq, Structural)]
pub enum ProjectionTarget {
    /// Nowhere.
    Nothing,
    /// The log: the entry that the output holds.
    Transcript,
    /// The log: an interrupt under this fence, if the log still ends at `expected_tail`. It must
    /// not cover a prompt that came later.
    Cancel { fence_token: u64, expected_tail: u64 },
    /// The metadata of the session.
    Metadata,
}

/// Where a decision of one session is projected to by the projector of another.
pub fn projection_target(decided_for: &str, session_id: &str, action: CommittedAction) -> (r:
    ProjectionTarget)
    ensures
        r == if decided_for@ != session_id@ {
            ProjectionTarget::Nothing
        } else {
            match action {
                CommittedAction::CommitOutput { kind } => match kind {
                    OutputKind::Transcript => ProjectionTarget::Transcript,
                    OutputKind::SessionMetadata => ProjectionTarget::Metadata,
                    OutputKind::Progress => ProjectionTarget::Nothing,
                },
                CommittedAction::RecordCancellation { through_seq, fence_token } =>
                ProjectionTarget::Cancel { fence_token, expected_tail: through_seq },
                CommittedAction::Other => ProjectionTarget::Nothing,
            }
        },
{
    if !(*decided_for == *session_id) {
        return ProjectionTarget::Nothing;
    }
    match action {
        CommittedAction::CommitOutput { kind } => match kind {
            OutputKind::Transcript => ProjectionTarget::Transcript,
            OutputKind::SessionMetadata => ProjectionTarget::Metadata,
            OutputKind::Progress => ProjectionTarget::Nothing,
        },
        CommittedAction::RecordCancellation { through_seq, fence_token } =>
        ProjectionTarget::Cancel { fence_token, expected_tail: through_seq },
        CommittedAction::Other => ProjectionTarget::Nothing,
    }
}

/// Why an entry is no output.
#[derive(Clone, Copy, Debug, PartialEq, Eq, Structural)]
pub enum OutputError {
    /// The execution works on another session.
    SessionMismatch,
    /// An interrupt is control, not output.
    CancelIsControl,
    /// The execution that was cancelled works on another session.
    CancelSessionMismatch,
    /// An output that was committed holds an interrupt.
    CancelNeedsControl,
    /// The decision was made at another root.
    RootMismatch,
    /// The log holds something else under the identifier of a commit.
    ContentDiffers,
}

impl OutputError {
    pub fn message(&self) -> (r: String)
        ensures
            r@ == match *self {
                OutputError::SessionMismatch => "transcript generation session mismatch"@,
                OutputError::CancelIsControl => "Cancel is control, not output"@,
                OutputError::CancelSessionMismatch => "cancel generation session mismatch"@,
                OutputError::CancelNeedsControl => "Cancel requires control projection"@,
                OutputError::RootMismatch => "projector gate mismatch"@,
                OutputError::ContentDiffers =>
                "projection commit ID has different transcript content"@,
            },
    {
        match self {
            OutputError::SessionMismatch => String::from_str(
                "transcript generation session mismatch",
            ),
            OutputError::CancelIsControl => String::from_str("Cancel is control, not output"),
            OutputError::CancelSessionMismatch => String::from_str(
                "cancel generation session mismatch",
            ),
            OutputError::CancelNeedsControl => String::from_str(
                "Cancel requires control projection",
            ),
            OutputError::RootMismatch => String::from_str("projector gate mismatch"),
            OutputError::ContentDiffers => String::from_str(
                "projection commit ID has different transcript content",
            ),
        }
    }
}

/// Whether an entry may be appended as the output of an execution.
pub fn check_output(generation_session: &str, session_id: &str, entry: &SessionLogEntry) -> (r:
    Result<(), OutputError>)
    ensures
        r == if generation_session@ != session_id@ {
            Err(OutputError::SessionMismatch)
        } else if entry is Cancel {
            Err(OutputError::CancelIsControl)
        } else {
            Ok::<(), OutputError>(())
        },
{
    if !(*generation_session == *session_id) {
        return Err(OutputError::SessionMismatch);
    }
    match entry {
        SessionLogEntry::Cancel { .. } => Err(OutputError::CancelIsControl),
        _ => Ok(()),
    }
}

/// Whether an execution may record that it was cancelled, in the log of a session.
pub fn check_cancellation(generation_session: &str, session_id: &str) -> (r: Result<(), OutputError>)
    ensures
        r == if generation_session@ != session_id@ {
            Err(OutputError::CancelSessionMismatch)
        } else {
            Ok::<(), OutputError>(())
        },
{
    if *generation_session == *session_id {
        Ok(())
    } else {
        Err(OutputError::CancelSessionMismatch)
    }
}

/// Whether an entry that was committed as an output goes into the log.
pub fn check_projected(entry: &SessionLogEntry) -> (r: Result<(), OutputError>)
    ensures
        r == if entry is Cancel {
            Err(OutputError::CancelNeedsControl)
        } else {
            Ok::<(), OutputError>(())
        },
{
    match entry {
        SessionLogEntry::Cancel { .. } => Err(OutputError::CancelNeedsControl),
        _ => Ok(()),
    }
}

/// Whether a projector may go through a decision: both belong to the same root.
pub fn check_root(decided_at: &str, own_root: &str) -> (r: Result<(), OutputError>)
    ensures
        r == if decided_at@ != own_root@ {
            Err(OutputError::RootMismatch)
        } else {
            Ok::<(), OutputError>(())
        },
{
    if *decided_at == *own_root {
        Ok(())
    } else {
        Err(OutputError::RootMismatch)
    }
}

/// Whether the log holds what was committed, where it holds the commit already.
pub fn check_compared(same: bool) -> (r: Result<(), OutputError>)
    ensures
        r == if same {
            Ok::<(), OutputError>(())
        } else {
            Err(OutputError::ContentDiffers)
        },
{
    if same {
        Ok(())
    } else {
        Err(OutputError::ContentDiffers)
    }
}

/// The interrupt that a cancellation leaves in the log. It tells the fence alone: who asked for it
/// stands where it was decided.
pub fn projected_cancel(fence_token: u64) -> (r: SessionLogEntry)
    ensures
        r == (SessionLogEntry::Cancel { fence_token, cancellation_id: None, requested_by: None }),
{
    SessionLogEntry::Cancel { fence_token, cancellation_id: None, requested_by: None }
}

/// The identifier of the commit that moves a projector past a commit.
pub fn cursor_commit_id(projector: &str, commit_id: &str) -> (r: String)
    ensures
        r@ == projector@ + "-"@ + commit_id@,
{
    let mut r = String::from_str(projector);
    r.append("-");
    r.append(commit_id);
    r
}

/// The question whether a projector may be moved past a commit, from where it stands. Moving it
/// past the same commit again is the same question.
pub fn cursor_action(
    commit: &CommitReceipt,
    projector: &str,
    expected_cursor: &Option<CommitReceipt>,
) -> (r: CommitAction)
    ensures
        r.id@ == projector@ + "-"@ + commit.commit_id@,
        r.kind matches GateAction::ProjectCommitted { commit: c, projector: p, expected_cursor: e }
            && c == *commit && p@ == projector@ && e == *expected_cursor,
{
    CommitAction {
        id: cursor_commit_id(projector, commit.commit_id.as_str()),
        kind: GateAction::ProjectCommitted {
            commit: commit.copy(),
            projector: String::from_str(projector),
            expected_cursor: match expected_cursor {
                Some(at) => Some(at.copy()),
                None => None,
            },
        },
    }
}

/// The identifier of the message that carries a commit.
pub fn projection_id(commit_id: &str) -> (r: String)
    ensures
        r@ == "gate-"@ + commit_id@,
{
    let mut r = String::from_str("gate-");
    r.append(commit_id);
    r
}

/// The name of the projector of a session, by the digest of its identifier.
pub fn projector_name(session_digest: &str) -> (r: String)
    ensures
        r@ == "transcript-"@ + session_digest@,
{
    let mut r = String::from_str("transcript-");
    r.append(session_digest);
    r
}

/// The identifier of the decision that a cancellation covers the log through `through_seq`.
pub fn cancel_coverage_id(through_seq: u64, fence_token: u64) -> (r: String)
    ensures
        r@ == "cancel-coverage-"@ + decimal(through_seq as nat) + "-"@ + decimal(
            fence_token as nat,
        ),
{
    let mut r = String::from_str("cancel-coverage-");
    r.append(decimal_of(through_seq).as_str());
    r.append("-");
    r.append(decimal_of(fence_token).as_str());
    r
}

/// The question whether an execution may write down that it was cancelled. To write down the same
/// again is the same question.
pub fn cancellation_action(through_seq: u64, fence_token: u64) -> (r: CommitAction)
    ensures
        r.id@ == "cancel-coverage-"@ + decimal(through_seq as nat) + "-"@ + decimal(
            fence_token as nat,
        ),
        r.kind == (GateAction::RecordCancellation { through_seq, fence_token }),
{
    CommitAction {
        id: cancel_coverage_id(through_seq, fence_token),
        kind: GateAction::RecordCancellation { through_seq, fence_token },
    }
}

/// Whether two cursors stand at the same commit.
pub open spec fn same_cursor(a: Option<CommitReceipt>, b: Option<CommitReceipt>) -> bool {
    match (a, b) {
        (Some(x), Some(y)) => x.names(&y),
        (None, None) => true,
        _ => false,
    }
}

/// What a projector does when its cursor could not be moved: another one may have moved it.
#[derive(Clone, Copy, Debug, PartialEq, Eq, Structural)]
pub enum CursorStep {
    /// The cursor was moved: the step is done.
    Done,
    /// Another projector moved the cursor: look again.
    Again,
    /// The cursor stands where it stood: pass the failure on.
    Fail,
}

/// What a projector does after the attempt to move its cursor.
pub fn cursor_step(
    moved: bool,
    expected: &Option<CommitReceipt>,
    found: &Option<CommitReceipt>,
) -> (r: CursorStep)
    ensures
        r == if moved {
            CursorStep::Done
        } else if same_cursor(*expected, *found) {
            CursorStep::Fail
        } else {
            CursorStep::Again
        },
{
    if moved {
        return CursorStep::Done;
    }
    let same: bool = match (expected, found) {
        (Some(a), Some(b)) => a.same(b),
        (None, None) => true,
        _ => false,
    };
    if same {
        CursorStep::Fail
    } else {
        CursorStep::Again
    }
}

/// How often a recovered cancellation is tried.
pub const MAX_CANCEL_PROJECTIONS: usize = 32;

/// What recovery does about a stop that is not in the log yet.
#[derive(Clone, Copy, Debug, PartialEq, Eq, Structural)]
pub enum RecoveredCancel {
    /// Nothing is left to do.
    Done,
    /// Append a cancellation that covers the log through `through_seq`.
    Append { through_seq: u64 },
    /// Others kept moving the log.
    Busy,
}

/// What recovery does at its `attempt`th look, counted from zero. Another generation, or an
/// interrupt at the end of the log, has settled the matter.
pub fn recovered_cancel(
    attempt: usize,
    generation_is_current: bool,
    entries: &[(u64, SessionLogEntry)],
) -> (r: RecoveredCancel)
    ensures
        r == if attempt >= MAX_CANCEL_PROJECTIONS {
            RecoveredCancel::Busy
        } else if !generation_is_current || (entries@.len() > 0 && entries@.last().1 is Cancel) {
            RecoveredCancel::Done
        } else {
            RecoveredCancel::Append { through_seq: last_seq(entries@) }
        },
{
    if attempt >= MAX_CANCEL_PROJECTIONS {
        return RecoveredCancel::Busy;
    }
    if !generation_is_current {
        return RecoveredCancel::Done;
    }
    if entries.len() > 0 {
        match &entries[entries.len() - 1].1 {
            SessionLogEntry::Cancel { .. } => {
                return RecoveredCancel::Done;
            },
            _ => {},
        }
    }
    RecoveredCancel::Append { through_seq: last_durable_seq(entries) }
}

/// A commit that is in the log is never appended again.
pub proof fn law_commit_is_projected_once(
    snapshot: ProjectionSnapshot,
    later: ProjectionSnapshot,
    id: String,
    seq: u64,
    expected: Option<u64>,
)
    requires
        later.committed@ == snapshot.committed@.push((id, seq)),
    ensures
        projected(later, id@, expected) == (ProjectEntry::Compare { seq }),
{
    assert(later.committed@.last() == (id, seq));
}

/// A cancellation that was decided at one end of the log is not written over a later prompt.
pub proof fn law_cancel_never_covers_a_later_prompt(
    snapshot: ProjectionSnapshot,
    id: Seq<char>,
    through_seq: u64,
)
    requires
        committed_at(snapshot.committed@, id) is None,
        snapshot.tail > through_seq,
    ensures
        projected(snapshot, id, Some(through_seq)) == ProjectEntry::TailMoved,
{
}

/// A commit stands where the last message with its identifier does, and nowhere exactly where no
/// message has it.
#[verifier::spinoff_prover]
#[verifier::rlimit(40)]
pub proof fn law_commit_stands_at_its_last_message(committed: Seq<(String, u64)>, id: Seq<char>)
    ensures
        forall|i: int|
            0 <= i < committed.len() && (#[trigger] committed[i]).0@ == id && (forall|j: int|
                i < j < committed.len() ==> (#[trigger] committed[j]).0@ != id) ==> committed_at(
                committed,
                id,
            ) == Some(committed[i].1),
        committed_at(committed, id) is None <==> forall|i: int|
            0 <= i < committed.len() ==> (#[trigger] committed[i]).0@ != id,
    decreases committed.len(),
{
    if committed.len() > 0 {
        let t = committed.drop_last();
        let last = committed.len() - 1;
        law_commit_stands_at_its_last_message(t, id);
        assert(committed[last] == committed.last());
        if committed.last().0@ != id {
            assert forall|i: int|
                0 <= i < committed.len() && (#[trigger] committed[i]).0@ == id && (forall|j: int|
                    i < j < committed.len() ==> (#[trigger] committed[j]).0@
                        != id) implies committed_at(committed, id) == Some(committed[i].1) by {
                assert(t[i] == committed[i]);
                assert forall|j: int| i < j < t.len() implies (#[trigger] t[j]).0@ != id by {
                    assert(t[j] == committed[j]);
                }
            }
            if committed_at(t, id) is Some {
                let k = choose|k: int| 0 <= k < t.len() && (#[trigger] t[k]).0@ == id;
                assert(committed[k].0@ == id);
            } else {
                assert forall|i: int| 0 <= i < committed.len() implies (
                #[trigger] committed[i]).0@ != id by {
                    if i < last {
                        assert(t[i] == committed[i]);
                    }
                }
            }
        }
    }
}

/// A commit that is missing is appended at the end of the log, where that is asked for at no end
/// or at this one, and left out where the log has moved on.
pub proof fn law_missing_commit_is_appended_where_it_was_decided(
    snapshot: ProjectionSnapshot,
    id: Seq<char>,
    expected: u64,
)
    requires
        committed_at(snapshot.committed@, id) is None,
    ensures
        projected(snapshot, id, None) == (ProjectEntry::Append { tail: snapshot.tail }),
        projected(snapshot, id, Some(snapshot.tail)) == (ProjectEntry::Append {
            tail: snapshot.tail,
        }),
        expected != snapshot.tail ==> projected(snapshot, id, Some(expected))
            == ProjectEntry::TailMoved,
{
}

/// A commit that is there is compared where it stands, whatever end was asked for.
pub proof fn law_present_commit_is_compared(
    snapshot: ProjectionSnapshot,
    id: Seq<char>,
    expected: Option<u64>,
)
    requires
        committed_at(snapshot.committed@, id) is Some,
    ensures
        projected(snapshot, id, expected) == (ProjectEntry::Compare {
            seq: committed_at(snapshot.committed@, id)->0,
        }),
{
}

/// Cursors stand at the same commit where neither has moved yet, or where both name the same
/// commit, root and place.
pub proof fn law_cursors_are_the_same_in_every_part(a: CommitReceipt, b: CommitReceipt)
    ensures
        same_cursor(Some(a), Some(b)) <==> a.commit_id@ == b.commit_id@ && a.gate_root@
            == b.gate_root@ && a.sequence == b.sequence,
        a.names(&b) <==> a.commit_id@ == b.commit_id@ && a.gate_root@ == b.gate_root@ && a.sequence
            == b.sequence,
        same_cursor(None, None),
        !same_cursor(Some(a), None),
        !same_cursor(None, Some(b)),
{
}

} // verus!
