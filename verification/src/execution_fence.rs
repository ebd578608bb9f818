//! The fence of a worker: what it may do is decided where its work is recorded.
use crate::execution::{ExecutionContext, OperationKind, OperationRef, Owner};
use crate::ids::{is_uuid, time_ordered_id};
use crate::projection::OutputKind;
use vstd::prelude::*;
use vstd::string::*;

verus! {

/// Why a worker must not go on.
#[derive(Debug, PartialEq, Eq)]
pub enum FenceError {
    Interrupted,
    /// Its work was not admitted.
    Refused(String),
}

impl FenceError {
    pub fn message(&self) -> (r: String)
        ensures
            r@ == match *self {
                FenceError::Interrupted => "interrupted by user"@,
                FenceError::Refused(e) => e@,
            },
    {
        match self {
            FenceError::Interrupted => String::from_str("interrupted by user"),
            FenceError::Refused(e) => e.clone(),
        }
    }
}

/// Whether a worker may pass a boundary. An interrupt that is seen before or after the decision
/// refuses it; that none is seen admits nothing. Without a fence nothing else is asked.
pub fn check(
    aborted_before: bool,
    admitted: Option<Result<(), String>>,
    aborted_after: bool,
) -> (r: Result<(), FenceError>)
    ensures
        r == if aborted_before {
            Err(FenceError::Interrupted)
        } else {
            match admitted {
                Some(Err(e)) => Err(FenceError::Refused(e)),
                _ => if aborted_after {
                    Err(FenceError::Interrupted)
                } else {
                    Ok::<(), FenceError>(())
                },
            }
        },
{
    if aborted_before {
        return Err(FenceError::Interrupted);
    }
    match admitted {
        Some(Err(e)) => {
            return Err(FenceError::Refused(e));
        },
        _ => {},
    }
    if aborted_after {
        return Err(FenceError::Interrupted);
    }
    Ok(())
}

/// A commit that was admitted: its identifier, the root that admitted it, and its place among the
/// decisions of the root.
#[derive(Debug)]
pub struct CommitReceipt {
    pub commit_id: String,
    pub gate_root: String,
    pub sequence: u64,
}

impl CommitReceipt {
    /// Whether both are receipts of the same commit.
    pub open spec fn names(&self, other: &CommitReceipt) -> bool {
        self.commit_id@ == other.commit_id@ && self.gate_root@ == other.gate_root@
            && self.sequence == other.sequence
    }

    pub fn same(&self, other: &CommitReceipt) -> (r: bool)
        ensures
            r == self.names(other),
    {
        *self.commit_id.as_str() == *other.commit_id.as_str() && *self.gate_root.as_str()
            == *other.gate_root.as_str() && self.sequence == other.sequence
    }

    pub fn copy(&self) -> (r: Self)
        ensures
            r == *self,
    {
        CommitReceipt {
            commit_id: self.commit_id.clone(),
            gate_root: self.gate_root.clone(),
            sequence: self.sequence,
        }
    }
}

/// What a worker asks to be admitted.
#[derive(Debug)]
pub enum GateAction {
    /// To go on past a boundary.
    AdmitWork { boundary: String },
    /// To start a piece of work of its own, on an input that was committed before.
    StartWork {
        operation: OperationRef,
        kind: OperationKind,
        owner: Owner,
        committed_input: CommitReceipt,
    },
    /// To go on with the work of an earlier worker.
    AdmitRecovery { original: ExecutionContext },
    /// To write down that the execution was cancelled, and through where that covers the log.
    RecordCancellation { through_seq: u64, fence_token: u64 },
    /// To move a projector past a commit, from where it stands.
    ProjectCommitted {
        commit: CommitReceipt,
        projector: String,
        expected_cursor: Option<CommitReceipt>,
    },
}

/// A question with its identifier.
#[derive(Debug)]
pub struct CommitAction {
    pub id: String,
    pub kind: GateAction,
}

/// The question whether a worker may go on past a boundary.
pub fn admit_action(boundary: &str) -> (r: CommitAction)
    ensures
        is_uuid(r.id@, '7'),
        r.kind matches GateAction::AdmitWork { boundary: b } && b@ == boundary@,
{
    CommitAction {
        id: time_ordered_id(),
        kind: GateAction::AdmitWork { boundary: String::from_str(boundary) },
    }
}

/// The question whether a worker may start a piece of work: that of a tool, which belongs to the
/// worker. The work has the identifier of the question.
pub fn start_action(session_id: &str, owner: &Owner, committed_input: CommitReceipt) -> (r:
    CommitAction)
    ensures
        is_uuid(r.id@, '7'),
        r.kind matches GateAction::StartWork { operation, kind, owner: o, committed_input: c }
            && operation.session_id@ == session_id@ && operation.execution_id@ == r.id@
            && kind == OperationKind::Tool && o == *owner && c == committed_input,
{
    let id = time_ordered_id();
    CommitAction {
        id: id.clone(),
        kind: GateAction::StartWork {
            operation: OperationRef { session_id: String::from_str(session_id), execution_id: id },
            kind: OperationKind::Tool,
            owner: owner.copy(),
            committed_input,
        },
    }
}

/// The question whether a worker may go on with the work of an earlier one.
pub fn recovery_action(original: ExecutionContext) -> (r: CommitAction)
    ensures
        is_uuid(r.id@, '7'),
        r.kind == (GateAction::AdmitRecovery { original }),
{
    CommitAction { id: time_ordered_id(), kind: GateAction::AdmitRecovery { original } }
}

/// An output that a worker asks to be committed.
#[derive(Debug)]
pub struct CommittedOutput {
    pub id: String,
    pub kind: OutputKind,
    pub payload: serde_json::Value,
}

/// The output of a worker, under a fresh identifier.
pub fn committed_output(kind: OutputKind, payload: serde_json::Value) -> (r: CommittedOutput)
    ensures
        is_uuid(r.id@, '7'),
        r.kind == kind,
        r.payload == payload,
{
    CommittedOutput { id: time_ordered_id(), kind, payload }
}

/// A boundary of a tool call.
#[derive(Clone, Copy, Debug, PartialEq, Eq, Structural)]
pub enum WorkBoundary {
    /// Before the call.
    Start,
    /// Before its output is taken.
    Accept,
}

/// What is asked at a boundary of a tool call: that the call may start, or that the worker may go
/// on past a boundary of this name.
pub fn boundary_question(boundary: WorkBoundary) -> (r: Option<&'static str>)
    ensures
        match boundary {
            WorkBoundary::Start => r is None,
            WorkBoundary::Accept => r matches Some(name) && name@ == "tool-output"@,
        },
{
    match boundary {
        WorkBoundary::Start => None,
        WorkBoundary::Accept => Some("tool-output"),
    }
}

} // verus!
