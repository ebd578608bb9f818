//! Executions: the operations that work on a session, the prompts admitted to them, and which of
//! them owns what.
use crate::completion::{
    request_status, requested_seq_status, requested_seq_status_with_effective, RequestedSeqStatus,
};
use crate::mutations::{
    apply_log_mutations, effective, mutations_readable, unreadable_at, MutationError,
};
use crate::session_log::{rows_view, Row, SessionLogEntry};
use crate::text::{decimal, decimal_of};
use vstd::prelude::*;
use vstd::string::*;

verus! {

/// Which execution of which session.
#[derive(Debug)]
pub struct OperationRef {
    pub session_id: String,
    pub execution_id: String,
}

impl OperationRef {
    /// Whether two references name the same execution.
    pub open spec fn names(&self, other: &OperationRef) -> bool {
        self.session_id@ == other.session_id@ && self.execution_id@ == other.execution_id@
    }

    pub fn same(&self, other: &OperationRef) -> (r: bool)
        ensures
            r == self.names(other),
    {
        self.session_id == other.session_id && self.execution_id == other.execution_id
    }
}

/// Where an operation stands.
#[derive(Clone, Copy, Debug, PartialEq, Eq, Structural)]
pub enum OperationState {
    Running,
    Cancelling,
    Cancelled,
    Finished,
}

impl OperationState {
    pub open spec fn terminal(self) -> bool {
        self == OperationState::Cancelled || self == OperationState::Finished
    }

    pub fn is_terminal(&self) -> (r: bool)
        ensures
            r == self.terminal(),
    {
        match self {
            OperationState::Cancelled | OperationState::Finished => true,
            _ => false,
        }
    }

    pub fn cancelling(&self) -> (r: bool)
        ensures
            r == (*self == OperationState::Cancelling),
    {
        match self {
            OperationState::Cancelling => true,
            _ => false,
        }
    }
}

/// A prompt that an execution took on: its identifier, and where it stands in the log once it
/// does.
#[derive(Debug)]
pub struct Admission {
    pub id: String,
    pub seq: Option<u64>,
}

/// The worker behind an operation.
#[derive(Debug)]
pub struct Owner {
    pub worker_id: String,
    pub fence: u64,
}

impl Owner {
    pub fn copy(&self) -> (r: Self)
        ensures
            r == *self,
    {
        Owner { worker_id: self.worker_id.clone(), fence: self.fence }
    }
}

/// A worker's right to commit for an execution: the execution, the root that admits its work, and
/// the worker.
#[derive(Debug)]
pub struct ExecutionContext {
    pub generation: OperationRef,
    pub gate_root: String,
    pub owner: Owner,
}

impl ExecutionContext {
    /// Whether both belong to the same execution under the same root, whoever works on it.
    pub open spec fn agrees(&self, other: &ExecutionContext) -> bool {
        self.generation.names(&other.generation) && self.gate_root@ == other.gate_root@
    }

    pub fn is_same(&self, other: &ExecutionContext) -> (r: bool)
        ensures
            r == self.agrees(other),
    {
        self.generation.same(&other.generation) && *self.gate_root.as_str()
            == *other.gate_root.as_str()
    }
}

/// What kind of work an operation is.
#[derive(Clone, Copy, Debug, PartialEq, Eq, Structural)]
pub enum OperationKind {
    Session,
    Tool,
}

/// An operation on a session.
#[derive(Debug)]
pub struct Operation {
    pub reference: OperationRef,
    pub state: OperationState,
    pub cancel_recorded: bool,
    pub admissions: Vec<Admission>,
    pub owner: Option<Owner>,
    pub owner_stopped: bool,
    pub covered_through: u64,
    pub gate_registered: bool,
}

/// Whether no two admissions have the same identifier.
pub open spec fn admitted_once(admissions: Seq<Admission>) -> bool {
    forall|i: int, j: int|
        0 <= i < j < admissions.len() ==> (#[trigger] admissions[i]).id@ != (
        #[trigger] admissions[j]).id@
}

impl Operation {
    /// Each prompt was admitted once.
    pub open spec fn well_formed(&self) -> bool {
        admitted_once(self.admissions@)
    }
}

/// Whether some admission stands at this sequence number.
pub open spec fn admitted_at(admissions: Seq<Admission>, seq: u64) -> bool {
    exists|i: int| 0 <= i < admissions.len() && (#[trigger] admissions[i]).seq == Some(seq)
}

/// The admission under an identifier.
pub open spec fn admission_of(admissions: Seq<Admission>, id: Seq<char>) -> Option<Option<u64>>
    decreases admissions.len(),
{
    if admissions.len() == 0 {
        None
    } else {
        match admission_of(admissions.drop_last(), id) {
            Some(seq) => Some(seq),
            None => if admissions.last().id@ == id {
                Some(admissions.last().seq)
            } else {
                None
            },
        }
    }
}

fn has_admission_at(admissions: &Vec<Admission>, seq: u64) -> (r: bool)
    ensures
        r == admitted_at(admissions@, seq),
{
    let mut i: usize = 0;
    while i < admissions.len()
        invariant
            i <= admissions@.len(),
            forall|k: int| 0 <= k < i ==> (#[trigger] admissions@[k]).seq != Some(seq),
        decreases admissions@.len() - i,
    {
        match admissions[i].seq {
            Some(own) => {
                if own == seq {
                    assert(admissions@[i as int].seq == Some(seq));
                    return true;
                }
            },
            None => {},
        }
        i += 1;
    }
    false
}

/// The place of the prompt that was admitted under an identifier, where it was.
pub fn admission_seq(admissions: &Vec<Admission>, id: &String) -> (r: Option<Option<u64>>)
    ensures
        r == admission_of(admissions@, id@),
{
    let mut found: Option<Option<u64>> = None;
    let mut i: usize = 0;
    while i < admissions.len()
        invariant
            i <= admissions@.len(),
            found == admission_of(admissions@.take(i as int), id@),
        decreases admissions@.len() - i,
    {
        assert(admissions@.take(i + 1).drop_last() =~= admissions@.take(i as int));
        if found.is_none() && admissions[i].id == *id {
            found = Some(admissions[i].seq);
        }
        i += 1;
    }
    assert(admissions@.take(i as int) =~= admissions@);
    found
}

/// Whether a cancellation that has ended answers the prompt at `seq`: it was admitted to exactly
/// this operation.
pub open spec fn cancellation_covers(operation: Option<Operation>, seq: u64) -> bool {
    operation matches Some(op) && op.state == OperationState::Cancelled && op.cancel_recorded
        && admitted_at(op.admissions@, seq)
}

/// Whether a cancellation that has ended answers the prompt at `seq`.
pub fn terminal_cancellation_covers(operation: &Option<Operation>, seq: u64) -> (r: bool)
    ensures
        r == cancellation_covers(*operation, seq),
{
    match operation {
        Some(op) => {
            let cancelled: bool = match op.state {
                OperationState::Cancelled => true,
                _ => false,
            };
            cancelled && op.cancel_recorded && has_admission_at(&op.admissions, seq)
        },
        None => false,
    }
}

/// Whether the prompt at `seq` needs no worker any more, by the log or by a cancellation.
pub fn pending_prompt_is_covered(
    entries: &[(u64, SessionLogEntry)],
    previous: &Option<Operation>,
    seq: u64,
) -> (r: Result<bool, MutationError>)
    ensures
        r is Ok <==> mutations_readable(entries@),
        r matches Ok(covered) ==> covered == (request_status(entries@, effective(entries@), seq)
            == RequestedSeqStatus::Covered || cancellation_covers(*previous, seq)),
        r matches Err(MutationError::MalformedReplacement(at)) ==> exists|i: int|
            unreadable_at(entries@, i) && #[trigger] entries@[i].0 == at,
{
    match requested_seq_status(entries, seq) {
        Ok(RequestedSeqStatus::Covered) => Ok(true),
        Ok(RequestedSeqStatus::Pending) => Ok(terminal_cancellation_covers(previous, seq)),
        Err(e) => Err(e),
    }
}

/// The last message of the user in a log, edits not applied.
pub open spec fn raw_prompt(entries: Seq<(u64, SessionLogEntry)>) -> Option<(u64, Option<String>)>
    decreases entries.len(),
{
    if entries.len() == 0 {
        None
    } else if entries.last().1.is_user_message() {
        Some((entries.last().0, entries.last().1->Message_id))
    } else {
        raw_prompt(entries.drop_last())
    }
}

/// What to do about the execution of a session that may have a prompt to answer.
#[derive(Debug)]
pub enum PendingExecution {
    /// There is no prompt: keep what is running, if it is.
    NoPrompt,
    /// The prompt is answered.
    Covered,
    /// Find the execution that the prompt was admitted to.
    FindOwner { seq: u64, message_id: Option<String> },
}

/// What to do about the execution of a session, by its log and its last operation.
pub fn pending_execution(
    entries: &[(u64, SessionLogEntry)],
    previous: &Option<Operation>,
) -> (r: Result<PendingExecution, MutationError>)
    ensures
        match raw_prompt(entries@) {
            None => r matches Ok(PendingExecution::NoPrompt),
            Some((seq, message_id)) => match r {
                Err(_) => !mutations_readable(entries@),
                Ok(next) => mutations_readable(entries@) && if request_status(
                    entries@,
                    effective(entries@),
                    seq,
                ) == RequestedSeqStatus::Covered || cancellation_covers(*previous, seq) {
                    next is Covered
                } else {
                    next == (PendingExecution::FindOwner { seq, message_id })
                },
            },
        },
        r matches Err(MutationError::MalformedReplacement(at)) ==> exists|i: int|
            unreadable_at(entries@, i) && #[trigger] entries@[i].0 == at,
{
    let mut i: usize = entries.len();
    assert(entries@.take(i as int) =~= entries@);
    while i > 0
        invariant
            i <= entries@.len(),
            raw_prompt(entries@) == raw_prompt(entries@.take(i as int)),
        decreases i,
    {
        assert(entries@.take(i as int).drop_last() =~= entries@.take(i - 1));
        assert(entries@.take(i as int).last() == entries@[i - 1]);
        if let SessionLogEntry::Message { id, role, .. } = &entries[i - 1].1 {
            if role.is_user() {
                let seq: u64 = entries[i - 1].0;
                return match pending_prompt_is_covered(entries, previous, seq) {
                    Ok(true) => Ok(PendingExecution::Covered),
                    Ok(false) => Ok(PendingExecution::FindOwner { seq, message_id: id.clone() }),
                    Err(e) => Err(e),
                };
            }
        }
        i -= 1;
    }
    Ok(PendingExecution::NoPrompt)
}

/// The operation that still runs, if the last one does.
pub fn still_running(previous: Option<Operation>) -> (r: Option<Operation>)
    ensures
        r == match previous {
            Some(op) => if op.state.terminal() {
                None
            } else {
                Some(op)
            },
            None => None,
        },
{
    match previous {
        Some(op) => if op.state.is_terminal() {
            None
        } else {
            Some(op)
        },
        None => None,
    }
}

/// Why the owner of a prompt cannot be used.
#[derive(Clone, Copy, Debug, PartialEq, Eq, Structural)]
pub enum OwnedPromptError {
    /// The execution that the prompt was admitted to is no longer on record.
    Retired,
}

/// The operation that goes on with a prompt. One whose owner was stopped goes on only where it
/// is that very operation that is winding up; a closed record never justifies a new one.
pub fn resolve_owned_prompt(
    stopped: bool,
    owner: &OperationRef,
    previous: Option<Operation>,
    recorded: Option<Operation>,
) -> (r: Result<Option<Operation>, OwnedPromptError>)
    ensures
        r == if stopped {
            Ok(
                match previous {
                    Some(op) => if op.reference.names(owner) && !op.state.terminal() {
                        Some(op)
                    } else {
                        None
                    },
                    None => None,
                },
            )
        } else {
            match recorded {
                None => Err(OwnedPromptError::Retired),
                Some(op) => Ok(
                    if op.state.terminal() {
                        None
                    } else {
                        Some(op)
                    },
                ),
            }
        },
{
    if stopped {
        return Ok(
            match previous {
                Some(op) => if op.reference.same(owner) && !op.state.is_terminal() {
                    Some(op)
                } else {
                    None
                },
                None => None,
            },
        );
    }
    match recorded {
        None => Err(OwnedPromptError::Retired),
        Some(op) => Ok(
            if op.state.is_terminal() {
                None
            } else {
                Some(op)
            },
        ),
    }
}

/// The highest sequence number among admissions, or zero.
pub open spec fn admitted_through(admissions: Seq<Admission>) -> u64
    decreases admissions.len(),
{
    if admissions.len() == 0 {
        0
    } else {
        let before = admitted_through(admissions.drop_last());
        match admissions.last().seq {
            Some(seq) => if seq > before {
                seq
            } else {
                before
            },
            None => before,
        }
    }
}

/// The highest sequence number that an operation admitted, or zero.
pub fn last_admission(operation: &Operation) -> (r: u64)
    ensures
        r == admitted_through(operation.admissions@),
{
    let mut top: u64 = 0;
    let mut i: usize = 0;
    while i < operation.admissions.len()
        invariant
            i <= operation.admissions@.len(),
            top == admitted_through(operation.admissions@.take(i as int)),
        decreases operation.admissions@.len() - i,
    {
        assert(operation.admissions@.take(i + 1).drop_last() =~= operation.admissions@.take(
            i as int,
        ));
        match operation.admissions[i].seq {
            Some(seq) => {
                if seq > top {
                    top = seq;
                }
            },
            None => {},
        }
        i += 1;
    }
    assert(operation.admissions@.take(i as int) =~= operation.admissions@);
    top
}

/// Admissions of prompts that stand in the log but are not committed yet.
pub open spec fn open_admissions(
    admissions: Seq<Admission>,
    entries: Seq<(u64, SessionLogEntry)>,
) -> Seq<(String, u64)>
    decreases entries.len(),
{
    if entries.len() == 0 {
        Seq::empty()
    } else {
        let before = open_admissions(admissions, entries.drop_last());
        match entries.last().1 {
            SessionLogEntry::Message { id: Some(id), .. } => if admission_of(admissions, id@)
                == Some(None::<u64>) {
                before.push((id, entries.last().0))
            } else {
                before
            },
            _ => before,
        }
    }
}

/// The admissions to commit: each prompt that stands in the log, with its place.
pub fn reconcile_admissions(
    operation: &Operation,
    entries: &[(u64, SessionLogEntry)],
) -> (r: Vec<(String, u64)>)
    ensures
        r@ == open_admissions(operation.admissions@, entries@),
{
    let mut r: Vec<(String, u64)> = Vec::new();
    let mut i: usize = 0;
    while i < entries.len()
        invariant
            i <= entries@.len(),
            r@ == open_admissions(operation.admissions@, entries@.take(i as int)),
        decreases entries@.len() - i,
    {
        assert(entries@.take(i + 1).drop_last() =~= entries@.take(i as int));
        if let SessionLogEntry::Message { id: Some(id), .. } = &entries[i].1 {
            if let Some(None) = admission_seq(&operation.admissions, id) {
                r.push((id.clone(), entries[i].0));
            }
        }
        i += 1;
    }
    assert(entries@.take(i as int) =~= entries@);
    r
}

/// The last interrupt in the log that was written under this fence or a later one.
pub open spec fn covering_cancel(entries: Seq<(u64, SessionLogEntry)>, fence: u64) -> Option<u64>
    decreases entries.len(),
{
    if entries.len() == 0 {
        None
    } else {
        match entries.last().1 {
            SessionLogEntry::Cancel { fence_token, .. } => if fence_token >= fence {
                Some(entries.last().0)
            } else {
                covering_cancel(entries.drop_last(), fence)
            },
            _ => covering_cancel(entries.drop_last(), fence),
        }
    }
}

/// The last interrupt in the log that was written under this fence or a later one.
pub fn find_covering_cancel(entries: &[(u64, SessionLogEntry)], fence: u64) -> (r: Option<u64>)
    ensures
        r == covering_cancel(entries@, fence),
{
    let mut i: usize = entries.len();
    assert(entries@.take(i as int) =~= entries@);
    while i > 0
        invariant
            i <= entries@.len(),
            covering_cancel(entries@, fence) == covering_cancel(entries@.take(i as int), fence),
        decreases i,
    {
        assert(entries@.take(i as int).drop_last() =~= entries@.take(i - 1));
        assert(entries@.take(i as int).last() == entries@[i - 1]);
        if let SessionLogEntry::Cancel { fence_token, .. } = &entries[i - 1].1 {
            if *fence_token >= fence {
                return Some(entries[i - 1].0);
            }
        }
        i -= 1;
    }
    None
}

/// Whether the log can settle the cancellation of an operation: one that passed no gate, is being
/// cancelled and has an owner.
pub open spec fn settled_by_log(operation: Operation) -> bool {
    !operation.gate_registered && operation.state == OperationState::Cancelling
        && operation.owner is Some
}

/// The interrupt in the log that settles the cancellation of an operation, if one does.
pub fn cancelled_owner_evidence(
    operation: &Operation,
    entries: &[(u64, SessionLogEntry)],
) -> (r: Option<u64>)
    ensures
        r == if settled_by_log(*operation) {
            covering_cancel(entries@, operation.owner->0.fence)
        } else {
            None
        },
{
    if operation.gate_registered || !operation.state.cancelling() {
        return None;
    }
    match &operation.owner {
        Some(owner) => find_covering_cancel(entries, owner.fence),
        None => None,
    }
}

/// Whether two operations have the same owner.
pub open spec fn same_owner(a: Option<Owner>, b: Option<Owner>) -> bool {
    match (a, b) {
        (Some(x), Some(y)) => x.worker_id@ == y.worker_id@ && x.fence == y.fence,
        (None, None) => true,
        _ => false,
    }
}

fn owners_agree(a: &Option<Owner>, b: &Option<Owner>) -> (r: bool)
    ensures
        r == same_owner(*a, *b),
{
    match (a, b) {
        (Some(x), Some(y)) => x.worker_id == y.worker_id && x.fence == y.fence,
        (None, None) => true,
        _ => false,
    }
}

/// Records that the owner has stopped and that the log is covered through `cancel_seq`. Refused
/// where the owner has changed since.
pub fn record_owner_stopped(
    latest: &mut Operation,
    expected_owner: &Option<Owner>,
    cancel_seq: u64,
) -> (r: bool)
    ensures
        old(latest).well_formed() ==> final(latest).well_formed(),
        r == same_owner(old(latest).owner, *expected_owner),
        !r ==> *final(latest) == *old(latest),
        r ==> *final(latest) == (Operation {
            owner_stopped: true,
            covered_through: if cancel_seq > old(latest).covered_through {
                cancel_seq
            } else {
                old(latest).covered_through
            },
            cancel_recorded: true,
            ..*old(latest)
        }),
{
    if !owners_agree(&latest.owner, expected_owner) {
        return false;
    }
    latest.owner_stopped = true;
    if cancel_seq > latest.covered_through {
        latest.covered_through = cancel_seq;
    }
    latest.cancel_recorded = true;
    true
}

/// Whether the stop of an owner may be recorded, and through where: an interrupt stands in the
/// log, it covers all that was admitted, and nobody holds the lease of the session.
pub fn owner_stop_proved(cancel_seq: Option<u64>, admissions_covered: bool, lease_held: bool) -> (r:
    Option<u64>)
    ensures
        r == if admissions_covered && !lease_held {
            cancel_seq
        } else {
            None
        },
{
    if admissions_covered && !lease_held {
        cancel_seq
    } else {
        None
    }
}

/// How a cancellation stands.
#[derive(Clone, Copy, Debug, PartialEq, Eq, Structural)]
pub enum CancelDisposition {
    Idle,
    Requested,
    Cancelling,
    Cancelled,
    Unconfirmed,
}

/// Whether a request to cancel aborts this frontend: at once where it names no execution, and
/// else as far as the answer says that something was cancelled. A request that names an execution
/// may come from a child that is long over.
pub fn cancel_aborts(names_execution: bool, cancelled: Option<bool>) -> (r: bool)
    ensures
        r == match cancelled {
            None => !names_execution,
            Some(answer) => answer,
        },
{
    match cancelled {
        None => !names_execution,
        Some(answer) => answer,
    }
}

/// Whether waiting for a cancellation is over.
pub fn cancel_wait_is_over(disposition: CancelDisposition, deadline_passed: bool) -> (r: bool)
    ensures
        r == (disposition == CancelDisposition::Idle || disposition == CancelDisposition::Cancelled
            || disposition == CancelDisposition::Unconfirmed || deadline_passed),
{
    let settled: bool = match disposition {
        CancelDisposition::Idle
        | CancelDisposition::Cancelled
        | CancelDisposition::Unconfirmed => true,
        _ => false,
    };
    settled || deadline_passed
}

/// What is kept of an execution for recovery.
#[derive(Debug)]
pub struct RecoveryHistory {
    pub reference: OperationRef,
    pub admissions: Vec<Admission>,
    pub owner_fences: Vec<u64>,
    /// What the execution worked on, where that is known.
    pub kind: Option<OperationKind>,
    /// Whether stops of the execution are decided at a gate.
    pub gate_registered: bool,
}

impl RecoveryHistory {
    /// Each prompt was admitted once.
    pub open spec fn well_formed(&self) -> bool {
        admitted_once(self.admissions@)
    }
}

/// Whether a record claims a prompt: by its identifier, or by its place in the log.
pub open spec fn claims(record: RecoveryHistory, id: Option<Seq<char>>, seq: u64) -> bool {
    ||| id matches Some(own) && admission_of(record.admissions@, own) is Some
    ||| admitted_at(record.admissions@, seq)
}

/// Whether a record has the prompt at another place.
pub open spec fn moved(record: RecoveryHistory, id: Option<Seq<char>>, seq: u64) -> bool {
    id matches Some(own) && (admission_of(record.admissions@, own) matches Some(Some(at)) && at
        != seq)
}

/// Why a prompt has no owner that could be named.
#[derive(Clone, Copy, Debug, PartialEq, Eq, Structural)]
pub enum OwnershipError {
    /// A record has the prompt at another place.
    SequenceChanged,
    /// More than one record claims the prompt.
    Ambiguous,
}

impl OwnershipError {
    pub open spec fn text(self) -> Seq<char> {
        match self {
            OwnershipError::SequenceChanged => "prompt admission sequence changed"@,
            OwnershipError::Ambiguous => "ambiguous prompt generation history"@,
        }
    }

    pub fn message(&self) -> (r: String)
        ensures
            r@ == self.text(),
            r@ == match *self {
                OwnershipError::SequenceChanged => "prompt admission sequence changed"@,
                OwnershipError::Ambiguous => "ambiguous prompt generation history"@,
            },
    {
        match self {
            OwnershipError::SequenceChanged => String::from_str(
                "prompt admission sequence changed",
            ),
            OwnershipError::Ambiguous => String::from_str("ambiguous prompt generation history"),
        }
    }
}

/// The record that owns a prompt, after the records were looked at in order.
pub open spec fn owner_of(
    history: Seq<RecoveryHistory>,
    id: Option<Seq<char>>,
    seq: u64,
) -> Result<Option<int>, OwnershipError>
    decreases history.len(),
{
    if history.len() == 0 {
        Ok(None)
    } else {
        match owner_of(history.drop_last(), id, seq) {
            Err(e) => Err(e),
            Ok(found) => if !claims(history.last(), id, seq) {
                Ok(found)
            } else if moved(history.last(), id, seq) {
                Err(OwnershipError::SequenceChanged)
            } else if found is Some {
                Err(OwnershipError::Ambiguous)
            } else {
                Ok(Some(history.len() - 1))
            },
        }
    }
}

/// The text of an optional string.
pub open spec fn id_view(id: Option<&String>) -> Option<Seq<char>> {
    match id {
        Some(own) => Some(own@),
        None => None,
    }
}

/// The place of the record that owns the prompt.
pub fn prompt_owner(history: &[RecoveryHistory], id: Option<&String>, seq: u64) -> (r: Result<
    Option<usize>,
    OwnershipError,
>)
    ensures
        match r {
            Ok(Some(i)) => owner_of(history@, id_view(id), seq) == Ok::<
                Option<int>,
                OwnershipError,
            >(Some(i as int)) && i < history@.len(),
            Ok(None) => owner_of(history@, id_view(id), seq) == Ok::<Option<int>, OwnershipError>(
                None,
            ),
            Err(e) => owner_of(history@, id_view(id), seq) == Err::<Option<int>, OwnershipError>(e),
        },
{
    let ghost own = id_view(id);
    let mut found: Option<usize> = None;
    let mut failed: Option<OwnershipError> = None;
    let mut i: usize = 0;
    while i < history.len()
        invariant
            i <= history@.len(),
            own == id_view(id),
            found matches Some(k) ==> k < history@.len(),
            owner_of(history@.take(i as int), own, seq) == match failed {
                Some(e) => Err(e),
                None => match found {
                    Some(k) => Ok::<Option<int>, OwnershipError>(Some(k as int)),
                    None => Ok(None),
                },
            },
        decreases history@.len() - i,
    {
        assert(history@.take(i + 1).drop_last() =~= history@.take(i as int));
        let record = &history[i];
        let by_id: Option<Option<u64>> = match id {
            Some(text) => admission_seq(&record.admissions, text),
            None => None,
        };
        let claimed: bool = by_id.is_some() || has_admission_at(&record.admissions, seq);
        if failed.is_none() && claimed {
            let elsewhere: bool = match by_id {
                Some(Some(at)) => at != seq,
                _ => false,
            };
            if elsewhere {
                failed = Some(OwnershipError::SequenceChanged);
            } else if found.is_some() {
                failed = Some(OwnershipError::Ambiguous);
            } else {
                found = Some(i);
            }
        }
        i += 1;
    }
    assert(history@.take(i as int) =~= history@);
    match failed {
        Some(e) => Err(e),
        None => Ok(found),
    }
}

/// What to tell of a prompt that no execution took on.
pub fn unknown_owner_message(session_id: &str, seq: u64) -> (r: String)
    ensures
        r@ == "unknown pending prompt generation; automatic adoption refused: session="@
            + session_id@ + " seq="@ + decimal(seq as nat),
{
    let mut r = String::from_str(
        "unknown pending prompt generation; automatic adoption refused: session=",
    );
    r.append(session_id);
    r.append(" seq=");
    r.append(decimal_of(seq).as_str());
    r
}

/// The prompts of the effective rows that still need a worker.
pub open spec fn waiting_prompts(
    log: Seq<(u64, SessionLogEntry)>,
    all: Seq<(u64, SessionLogEntry)>,
    rows: Seq<(u64, SessionLogEntry)>,
) -> Seq<(u64, SessionLogEntry)>
    decreases rows.len(),
{
    if rows.len() == 0 {
        Seq::empty()
    } else {
        let before = waiting_prompts(log, all, rows.drop_last());
        if rows.last().1.is_user_message() && request_status(log, all, rows.last().0)
            == RequestedSeqStatus::Pending {
            before.push(rows.last())
        } else {
            before
        }
    }
}

/// The prompts that still need a worker.
pub fn pending_prompts<'a>(entries: &'a [(u64, SessionLogEntry)]) -> (r: Result<
    Vec<Row<'a>>,
    MutationError,
>)
    ensures
        r is Ok <==> mutations_readable(entries@),
        r matches Ok(rows) ==> rows_view(rows@) == waiting_prompts(
            entries@,
            effective(entries@),
            effective(entries@),
        ),
        r matches Err(MutationError::MalformedReplacement(seq)) ==> exists|i: int|
            unreadable_at(entries@, i) && #[trigger] entries@[i].0 == seq,
{
    let rows = match apply_log_mutations(entries) {
        Ok(rows) => rows,
        Err(e) => {
            return Err(e);
        },
    };
    let ghost all = rows_view(rows@);
    let mut r: Vec<Row<'a>> = Vec::new();
    let mut i: usize = 0;
    assert(rows_view(r@) =~= waiting_prompts(entries@, all, all.take(0)));
    while i < rows.len()
        invariant
            i <= rows@.len(),
            all == rows_view(rows@),
            rows_view(r@) == waiting_prompts(entries@, all, all.take(i as int)),
        decreases rows@.len() - i,
    {
        let ghost before = r@;
        assert(all.take(i + 1).drop_last() =~= all.take(i as int));
        assert(all[i as int] == (rows@[i as int].0, *rows@[i as int].1));
        if rows[i].1.user_message() {
            match requested_seq_status_with_effective(entries, rows.as_slice(), rows[i].0) {
                RequestedSeqStatus::Pending => {
                    r.push(rows[i]);
                    assert(rows_view(r@) =~= rows_view(before).push(all[i as int]));
                },
                RequestedSeqStatus::Covered => {},
            }
        }
        i += 1;
    }
    assert(all.take(i as int) =~= all);
    Ok(r)
}

/// Why a cancellation must not be written over the log.
#[derive(Clone, Copy, Debug, PartialEq, Eq, Structural)]
pub enum CancelOwnershipError {
    /// The log cannot be read.
    Log(MutationError),
    /// The owner of a prompt cannot be named.
    Ownership(OwnershipError),
    /// Nothing is known of a prompt.
    Unknown,
    /// A prompt belongs to another execution.
    Foreign,
}

impl CancelOwnershipError {
    /// What to tell where the log can be read and prompts have owners, but not the right ones.
    pub fn message(&self) -> (r: Option<String>)
        ensures
            match *self {
                CancelOwnershipError::Log(_) => r is None,
                CancelOwnershipError::Ownership(e) => r matches Some(t) && t@ == e.text(),
                CancelOwnershipError::Unknown => r matches Some(t) && t@
                    == "unknown cancellation prompt history"@,
                CancelOwnershipError::Foreign => r matches Some(t) && t@
                    == "cannot project old cancellation over another generation"@,
            },
    {
        match self {
            CancelOwnershipError::Log(_) => None,
            CancelOwnershipError::Ownership(e) => Some(e.message()),
            CancelOwnershipError::Unknown => Some(
                String::from_str("unknown cancellation prompt history"),
            ),
            CancelOwnershipError::Foreign => Some(
                String::from_str("cannot project old cancellation over another generation"),
            ),
        }
    }
}

/// The identifier of a message.
pub open spec fn message_id(e: SessionLogEntry) -> Option<Seq<char>> {
    match e {
        SessionLogEntry::Message { id: Some(own), .. } => Some(own@),
        _ => None,
    }
}

/// What is wrong with writing the cancellation of `reference` over these prompts, in order.
pub open spec fn foreign_prompt(
    history: Seq<RecoveryHistory>,
    reference: OperationRef,
    prompts: Seq<(u64, SessionLogEntry)>,
) -> Option<CancelOwnershipError>
    decreases prompts.len(),
{
    if prompts.len() == 0 {
        None
    } else {
        match foreign_prompt(history, reference, prompts.drop_last()) {
            Some(e) => Some(e),
            None => match owner_of(history, message_id(prompts.last().1), prompts.last().0) {
                Err(e) => Some(CancelOwnershipError::Ownership(e)),
                Ok(None) => Some(CancelOwnershipError::Unknown),
                Ok(Some(i)) => if history[i].reference.names(&reference) {
                    None
                } else {
                    Some(CancelOwnershipError::Foreign)
                },
            },
        }
    }
}

/// Whether the cancellation of `reference` may be written over the log: every prompt that waits
/// belongs to it.
pub fn validate_cancel_ownership(
    history: &[RecoveryHistory],
    reference: &OperationRef,
    entries: &[(u64, SessionLogEntry)],
) -> (r: Result<(), CancelOwnershipError>)
    ensures
        !mutations_readable(entries@) ==> r matches Err(CancelOwnershipError::Log(_)),
        mutations_readable(entries@) ==> match foreign_prompt(
            history@,
            *reference,
            waiting_prompts(entries@, effective(entries@), effective(entries@)),
        ) {
            None => r is Ok,
            Some(e) => r == Err::<(), CancelOwnershipError>(e),
        },
        r matches Err(CancelOwnershipError::Log(MutationError::MalformedReplacement(seq)))
            ==> exists|i: int|
            unreadable_at(entries@, i) && #[trigger] entries@[i].0 == seq,
{
    let prompts = match pending_prompts(entries) {
        Ok(prompts) => prompts,
        Err(e) => {
            return Err(CancelOwnershipError::Log(e));
        },
    };
    let ghost all = rows_view(prompts@);
    let mut failed: Option<CancelOwnershipError> = None;
    let mut i: usize = 0;
    while i < prompts.len()
        invariant
            i <= prompts@.len(),
            all == rows_view(prompts@),
            failed == foreign_prompt(history@, *reference, all.take(i as int)),
            !(failed matches Some(CancelOwnershipError::Log(_))),
        decreases prompts@.len() - i,
    {
        assert(all.take(i + 1).drop_last() =~= all.take(i as int));
        assert(all[i as int] == (prompts@[i as int].0, *prompts@[i as int].1));
        if failed.is_none() {
            let id: Option<&String> = match prompts[i].1 {
                SessionLogEntry::Message { id: Some(own), .. } => Some(own),
                _ => None,
            };
            assert(id_view(id) == message_id(all[i as int].1));
            match prompt_owner(history, id, prompts[i].0) {
                Err(e) => {
                    failed = Some(CancelOwnershipError::Ownership(e));
                },
                Ok(None) => {
                    failed = Some(CancelOwnershipError::Unknown);
                },
                Ok(Some(k)) => {
                    if !history[k].reference.same(reference) {
                        failed = Some(CancelOwnershipError::Foreign);
                    }
                },
            }
        }
        i += 1;
    }
    assert(all.take(i as int) =~= all);
    match failed {
        Some(e) => Err(e),
        None => Ok(()),
    }
}

/// Why the fence of an older worker proves nothing.
#[derive(Clone, Copy, Debug, PartialEq, Eq, Structural)]
pub enum LegacyFenceError {
    /// No session execution ever had this fence.
    Unknown,
    /// More than one had it.
    Ambiguous,
}

impl LegacyFenceError {
    pub fn message(&self) -> (r: String)
        ensures
            r@ == match *self {
                LegacyFenceError::Unknown => "unknown legacy worker fence"@,
                LegacyFenceError::Ambiguous => "ambiguous legacy worker fence"@,
            },
    {
        match self {
            LegacyFenceError::Unknown => String::from_str("unknown legacy worker fence"),
            LegacyFenceError::Ambiguous => String::from_str("ambiguous legacy worker fence"),
        }
    }
}

/// Whether a record is a session execution that had this fence.
pub open spec fn had_fence(record: RecoveryHistory, fence: u64) -> bool {
    record.kind == Some(OperationKind::Session) && record.owner_fences@.contains(fence)
}

/// The only session execution that had this fence.
pub open spec fn legacy_owner(history: Seq<RecoveryHistory>, fence: u64) -> Result<
    int,
    LegacyFenceError,
>
    decreases history.len(),
{
    if history.len() == 0 {
        Err(LegacyFenceError::Unknown)
    } else {
        let before = legacy_owner(history.drop_last(), fence);
        if !had_fence(history.last(), fence) {
            before
        } else if before == Err::<int, LegacyFenceError>(LegacyFenceError::Unknown) {
            Ok(history.len() - 1)
        } else {
            Err(LegacyFenceError::Ambiguous)
        }
    }
}

fn record_had_fence(record: &RecoveryHistory, fence: u64) -> (r: bool)
    ensures
        r == had_fence(*record, fence),
{
    match record.kind {
        Some(OperationKind::Session) => {},
        _ => {
            return false;
        },
    }
    let mut i: usize = 0;
    while i < record.owner_fences.len()
        invariant
            i <= record.owner_fences@.len(),
            record.kind == Some(OperationKind::Session),
            forall|k: int| 0 <= k < i ==> #[trigger] record.owner_fences@[k] != fence,
        decreases record.owner_fences@.len() - i,
    {
        if record.owner_fences[i] == fence {
            assert(record.owner_fences@[i as int] == fence);
            return true;
        }
        i += 1;
    }
    false
}

/// The place of the only session execution that had this fence.
pub fn find_legacy_owner(history: &[RecoveryHistory], fence: u64) -> (r: Result<
    usize,
    LegacyFenceError,
>)
    ensures
        match r {
            Ok(i) => legacy_owner(history@, fence) == Ok::<int, LegacyFenceError>(i as int) && i
                < history@.len(),
            Err(e) => legacy_owner(history@, fence) == Err::<int, LegacyFenceError>(e),
        },
{
    let mut found: Result<usize, LegacyFenceError> = Err(LegacyFenceError::Unknown);
    let mut i: usize = 0;
    while i < history.len()
        invariant
            i <= history@.len(),
            found matches Ok(k) ==> k < history@.len(),
            legacy_owner(history@.take(i as int), fence) == match found {
                Ok(k) => Ok::<int, LegacyFenceError>(k as int),
                Err(e) => Err(e),
            },
        decreases history@.len() - i,
    {
        assert(history@.take(i + 1).drop_last() =~= history@.take(i as int));
        if record_had_fence(&history[i], fence) {
            found = match found {
                Err(LegacyFenceError::Unknown) => Ok(i),
                _ => Err(LegacyFenceError::Ambiguous),
            };
        }
        i += 1;
    }
    assert(history@.take(i as int) =~= history@);
    found
}

/// An owner that is named claims the prompt, and no other record does.
pub proof fn law_owner_is_unique(
    history: Seq<RecoveryHistory>,
    id: Option<Seq<char>>,
    seq: u64,
    owner: int,
)
    requires
        owner_of(history, id, seq) == Ok::<Option<int>, OwnershipError>(Some(owner)),
    ensures
        0 <= owner < history.len(),
        forall|i: int|
            0 <= i < history.len() ==> (claims(#[trigger] history[i], id, seq) <==> i == owner),
        !moved(history[owner], id, seq),
    decreases history.len(),
{
    let t = history.drop_last();
    let last = history.len() - 1;
    if claims(history.last(), id, seq) {
        nobody_claims(t, id, seq);
        assert forall|i: int| 0 <= i < history.len() implies (claims(
            #[trigger] history[i],
            id,
            seq,
        ) <==> i == owner) by {
            if i < last {
                assert(t[i] == history[i]);
            }
        }
    } else {
        law_owner_is_unique(t, id, seq, owner);
        assert forall|i: int| 0 <= i < history.len() implies (claims(
            #[trigger] history[i],
            id,
            seq,
        ) <==> i == owner) by {
            if i < last {
                assert(t[i] == history[i]);
            }
        }
        assert(t[owner] == history[owner]);
    }
}

proof fn nobody_claims(history: Seq<RecoveryHistory>, id: Option<Seq<char>>, seq: u64)
    requires
        owner_of(history, id, seq) == Ok::<Option<int>, OwnershipError>(None),
    ensures
        forall|i: int| 0 <= i < history.len() ==> !claims(#[trigger] history[i], id, seq),
    decreases history.len(),
{
    if history.len() > 0 {
        let t = history.drop_last();
        nobody_claims(t, id, seq);
        assert forall|i: int| 0 <= i < history.len() implies !claims(
            #[trigger] history[i],
            id,
            seq,
        ) by {
            if i < t.len() {
                assert(t[i] == history[i]);
            }
        }
    }
}

/// Where each prompt was admitted once, an identifier leads to its one admission.
pub proof fn law_admission_is_unique(admissions: Seq<Admission>, i: int)
    requires
        admitted_once(admissions),
        0 <= i < admissions.len(),
    ensures
        admission_of(admissions, admissions[i].id@) == Some(admissions[i].seq),
    decreases admissions.len(),
{
    let rest = admissions.drop_last();
    if i < rest.len() {
        assert(rest[i] == admissions[i]);
        law_admission_is_unique(rest, i);
    } else {
        not_admitted(rest, admissions[i].id@);
    }
}

proof fn not_admitted(admissions: Seq<Admission>, id: Seq<char>)
    requires
        forall|k: int| 0 <= k < admissions.len() ==> (#[trigger] admissions[k]).id@ != id,
    ensures
        admission_of(admissions, id) is None,
    decreases admissions.len(),
{
    if admissions.len() > 0 {
        not_admitted(admissions.drop_last(), id);
    }
}

/// The prompt to answer is the last message of the user: a new one takes the place of any before
/// it, and nothing else in the log does.
pub proof fn law_new_prompt_takes_the_place_of_the_last(
    log: Seq<(u64, SessionLogEntry)>,
    row: (u64, SessionLogEntry),
)
    ensures
        row.1.is_user_message() ==> (row.1 matches SessionLogEntry::Message { id, .. }
            && raw_prompt(log.push(row)) == Some((row.0, id))),
        !row.1.is_user_message() ==> raw_prompt(log.push(row)) == raw_prompt(log),
        raw_prompt(Seq::<(u64, SessionLogEntry)>::empty()) is None,
{
    assert(log.push(row).drop_last() =~= log);
    assert(log.push(row).last() == row);
}

/// No message of the user stands behind the one that is the prompt to answer, and there is a
/// prompt to answer wherever the user said anything.
pub proof fn law_prompt_to_answer_is_the_last_of_the_user(log: Seq<(u64, SessionLogEntry)>, at: int)
    requires
        0 <= at < log.len(),
        log[at].1.is_user_message(),
        forall|i: int| at < i < log.len() ==> !(#[trigger] log[i]).1.is_user_message(),
    ensures
        log[at].1 matches SessionLogEntry::Message { id, .. } && raw_prompt(log) == Some(
            (log[at].0, id),
        ),
    decreases log.len(),
{
    let t = log.drop_last();
    if at < log.len() - 1 {
        assert(!log[log.len() - 1].1.is_user_message());
        assert forall|i: int| at < i < t.len() implies !(#[trigger] t[i]).1.is_user_message() by {
            assert(t[i] == log[i]);
        }
        assert(t[at] == log[at]);
        law_prompt_to_answer_is_the_last_of_the_user(t, at);
    }
}

/// Without a message of the user there is no prompt to answer.
pub proof fn law_silent_log_has_no_prompt(log: Seq<(u64, SessionLogEntry)>)
    requires
        forall|i: int| 0 <= i < log.len() ==> !(#[trigger] log[i]).1.is_user_message(),
    ensures
        raw_prompt(log) is None,
    decreases log.len(),
{
    if log.len() > 0 {
        let t = log.drop_last();
        assert(!log[log.len() - 1].1.is_user_message());
        assert forall|i: int| 0 <= i < t.len() implies !(#[trigger] t[i]).1.is_user_message() by {
            assert(t[i] == log[i]);
        }
        law_silent_log_has_no_prompt(t);
    }
}

/// References name the same execution exactly where both parts agree, and two rights to commit
/// agree where the root does too, whoever holds them.
pub proof fn law_references_agree_in_every_part(a: ExecutionContext, b: ExecutionContext)
    ensures
        a.generation.names(&b.generation) <==> a.generation.session_id@ == b.generation.session_id@
            && a.generation.execution_id@ == b.generation.execution_id@,
        a.agrees(&b) <==> a.generation.session_id@ == b.generation.session_id@
            && a.generation.execution_id@ == b.generation.execution_id@ && a.gate_root@
            == b.gate_root@,
{
}

/// Only a cancelled or a finished operation is over.
pub proof fn law_only_cancelled_and_finished_are_over(state: OperationState)
    ensures
        state.terminal() <==> state is Cancelled || state is Finished,
{
}

/// Owners are the same where neither operation has one, or where both have the same worker under
/// the same fence.
pub proof fn law_owners_are_the_same_by_worker_and_fence(a: Owner, b: Owner)
    ensures
        same_owner(Some(a), Some(b)) <==> a.worker_id@ == b.worker_id@ && a.fence == b.fence,
        same_owner(None, None),
        !same_owner(Some(a), None),
        !same_owner(None, Some(b)),
{
}

/// A cancellation answers exactly the prompts that were admitted to the operation, once the
/// operation is cancelled and that is on record.
pub proof fn law_cancellation_answers_what_it_admitted(op: Operation, seq: u64)
    ensures
        cancellation_covers(Some(op), seq) <==> op.state is Cancelled && op.cancel_recorded
            && exists|i: int|
            0 <= i < op.admissions@.len() && (#[trigger] op.admissions@[i]).seq == Some(seq),
        !cancellation_covers(None, seq),
{
}

/// An identifier leads to the first admission under it, and to none exactly where there is none.
#[verifier::spinoff_prover]
#[verifier::rlimit(40)]
pub proof fn law_identifier_leads_to_its_first_admission(
    admissions: Seq<Admission>,
    id: Seq<char>,
)
    ensures
        forall|i: int|
            0 <= i < admissions.len() && (#[trigger] admissions[i]).id@ == id && (forall|j: int|
                0 <= j < i ==> (#[trigger] admissions[j]).id@ != id) ==> admission_of(
                admissions,
                id,
            ) == Some(admissions[i].seq),
        admission_of(admissions, id) is None <==> forall|i: int|
            0 <= i < admissions.len() ==> (#[trigger] admissions[i]).id@ != id,
    decreases admissions.len(),
{
    if admissions.len() > 0 {
        let t = admissions.drop_last();
        let last = admissions.len() - 1;
        law_identifier_leads_to_its_first_admission(t, id);
        assert(admissions[last] == admissions.last());
        if admission_of(t, id) is Some {
            let k = choose|k: int| 0 <= k < t.len() && (#[trigger] t[k]).id@ == id;
            assert(admissions[k] == t[k]);
            assert forall|i: int|
                0 <= i < admissions.len() && (#[trigger] admissions[i]).id@ == id && (forall|
                    j: int,
                |
                    0 <= j < i ==> (#[trigger] admissions[j]).id@
                        != id) implies admission_of(admissions, id) == Some(admissions[i].seq) by {
                if i == last {
                    assert(admissions[k].id@ != id);
                }
                assert(t[i] == admissions[i]);
                assert forall|j: int| 0 <= j < i implies (#[trigger] t[j]).id@ != id by {
                    assert(t[j] == admissions[j]);
                }
            }
        } else {
            assert forall|i: int| 0 <= i < t.len() implies (#[trigger] admissions[i]).id@ != id by {
                assert(t[i] == admissions[i]);
            }
        }
    }
}

/// What was admitted last is the highest place among the admissions: none stands higher, and one
/// stands there unless none has a place at all.
pub proof fn law_last_admission_is_the_highest(admissions: Seq<Admission>)
    ensures
        forall|i: int|
            0 <= i < admissions.len() ==> ((#[trigger] admissions[i]).seq matches Some(seq)
                ==> seq <= admitted_through(admissions)),
        admitted_through(admissions) == 0 || exists|i: int|
            0 <= i < admissions.len() && (#[trigger] admissions[i]).seq == Some(
                admitted_through(admissions),
            ),
    decreases admissions.len(),
{
    if admissions.len() > 0 {
        let t = admissions.drop_last();
        let last = admissions.len() - 1;
        law_last_admission_is_the_highest(t);
        assert(admissions[last] == admissions.last());
        assert forall|i: int| 0 <= i < admissions.len() implies ((
        #[trigger] admissions[i]).seq matches Some(seq) ==> seq <= admitted_through(
            admissions,
        )) by {
            if i < last {
                assert(t[i] == admissions[i]);
            }
        }
        if admitted_through(admissions) != 0 && admitted_through(admissions) == admitted_through(
            t,
        ) {
            let k = choose|k: int|
                0 <= k < t.len() && (#[trigger] t[k]).seq == Some(admitted_through(t));
            assert(admissions[k] == t[k]);
        }
    }
}

/// What is committed is what stands in the log under an identifier that was admitted without a
/// place yet, each entry once and in the order of the log.
pub proof fn law_open_admissions_are_committed_as_the_log_has_them(
    admissions: Seq<Admission>,
    log: Seq<(u64, SessionLogEntry)>,
)
    ensures
        open_admissions(admissions, log) == log.filter(
            |row: (u64, SessionLogEntry)|
                row.1 matches SessionLogEntry::Message { id: Some(id), .. } && admission_of(
                    admissions,
                    id@,
                ) == Some(None::<u64>),
        ).map_values(|row: (u64, SessionLogEntry)| (row.1->Message_id->0, row.0)),
    decreases log.len(),
{
    reveal(Seq::filter);
    let p = |row: (u64, SessionLogEntry)|
        row.1 matches SessionLogEntry::Message { id: Some(id), .. } && admission_of(
            admissions,
            id@,
        ) == Some(None::<u64>);
    let f = |row: (u64, SessionLogEntry)| (row.1->Message_id->0, row.0);
    if log.len() > 0 {
        law_open_admissions_are_committed_as_the_log_has_them(admissions, log.drop_last());
        let t = log.drop_last().filter(p);
        if p(log.last()) {
            assert(log.filter(p) =~= t.push(log.last()));
            assert(t.push(log.last()).map_values(f) =~= t.map_values(f).push(f(log.last())));
        } else {
            assert(log.filter(p) =~= t);
        }
    } else {
        assert(log.filter(p).map_values(f) =~= Seq::empty());
    }
}

/// The interrupt that settles a cancellation is the last one written under the fence or a later
/// one: whatever stands behind it is none, and there is none exactly where no entry is one.
#[verifier::spinoff_prover]
#[verifier::rlimit(40)]
pub proof fn law_settling_interrupt_is_the_last_under_the_fence(
    log: Seq<(u64, SessionLogEntry)>,
    fence: u64,
)
    ensures
        forall|i: int|
            0 <= i < log.len() && ((#[trigger] log[i]).1 matches SessionLogEntry::Cancel {
                fence_token,
                ..
            } && fence_token >= fence) && (forall|j: int|
                i < j < log.len() ==> !((#[trigger] log[j]).1 matches SessionLogEntry::Cancel {
                    fence_token,
                    ..
                } && fence_token >= fence)) ==> covering_cancel(log, fence) == Some(log[i].0),
        covering_cancel(log, fence) is None <==> forall|i: int|
            0 <= i < log.len() ==> !((#[trigger] log[i]).1 matches SessionLogEntry::Cancel {
                fence_token,
                ..
            } && fence_token >= fence),
    decreases log.len(),
{
    if log.len() > 0 {
        let t = log.drop_last();
        let last = log.len() - 1;
        law_settling_interrupt_is_the_last_under_the_fence(t, fence);
        assert(log[last] == log.last());
        assert forall|i: int| 0 <= i < t.len() implies #[trigger] log[i] == t[i] by {}
        let settles = log.last().1 matches SessionLogEntry::Cancel { fence_token, .. }
            && fence_token >= fence;
        if !settles {
            assert forall|i: int|
                0 <= i < log.len() && ((#[trigger] log[i]).1 matches SessionLogEntry::Cancel {
                    fence_token,
                    ..
                } && fence_token >= fence) && (forall|j: int|
                    i < j < log.len() ==> !((#[trigger] log[j]).1 matches SessionLogEntry::Cancel {
                        fence_token,
                        ..
                    } && fence_token >= fence)) implies covering_cancel(log, fence) == Some(
                log[i].0,
            ) by {
                assert(t[i] == log[i]);
                assert forall|j: int| i < j < t.len() implies !((
                #[trigger] t[j]).1 matches SessionLogEntry::Cancel { fence_token, .. }
                    && fence_token >= fence) by {
                    assert(log[j] == t[j]);
                }
            }
            if covering_cancel(t, fence) is Some {
                let k = choose|k: int|
                    0 <= k < t.len() && ((#[trigger] t[k]).1 matches SessionLogEntry::Cancel {
                        fence_token,
                        ..
                    } && fence_token >= fence);
                assert(log[k] == t[k]);
            }
        }
    }
}

/// The log settles a cancellation only of an operation that passed no gate, is being cancelled and
/// has an owner.
pub proof fn law_log_settles_only_ungated_cancellations(op: Operation)
    ensures
        settled_by_log(op) <==> !op.gate_registered && op.state is Cancelling && op.owner is Some,
{
}

/// A record claims a prompt that it admitted under the prompt's identifier or at its place, and
/// has moved it where the first admission under the identifier stands at another place.
#[verifier::spinoff_prover]
#[verifier::rlimit(40)]
pub proof fn law_records_claim_by_identifier_or_place(
    record: RecoveryHistory,
    id: Option<Seq<char>>,
    seq: u64,
)
    ensures
        claims(record, id, seq) <==> exists|i: int|
            0 <= i < record.admissions@.len() && (Some((#[trigger] record.admissions@[i]).id@)
                == id || record.admissions@[i].seq == Some(seq)),
        moved(record, id, seq) <==> exists|i: int|
            0 <= i < record.admissions@.len() && Some((#[trigger] record.admissions@[i]).id@) == id
                && record.admissions@[i].seq is Some && record.admissions@[i].seq != Some(seq)
                && forall|j: int|
                0 <= j < i ==> Some((#[trigger] record.admissions@[j]).id@) != id,
{
    let list = record.admissions@;
    match id {
        Some(own) => {
            law_identifier_leads_to_its_first_admission(list, own);
            if admission_of(list, own) is Some {
                let i = first_under(list, own);
                assert(list[i].id@ == own);
                assert(admission_of(list, own) == Some(list[i].seq));
                assert forall|k: int|
                    0 <= k < list.len() && Some((#[trigger] list[k]).id@) == id && (forall|j: int|
                        0 <= j < k ==> Some((#[trigger] list[j]).id@) != id) implies k == i by {
                    if k < i {
                        assert(list[k].id@ != own);
                    }
                    if i < k {
                        assert(Some(list[i].id@) != id);
                    }
                }
            }
        },
        None => {},
    }
}

/// The place of the first admission under an identifier.
proof fn first_under(admissions: Seq<Admission>, id: Seq<char>) -> (at: int)
    requires
        exists|k: int| 0 <= k < admissions.len() && (#[trigger] admissions[k]).id@ == id,
    ensures
        0 <= at < admissions.len(),
        admissions[at].id@ == id,
        forall|j: int| 0 <= j < at ==> (#[trigger] admissions[j]).id@ != id,
    decreases admissions.len(),
{
    let t = admissions.drop_last();
    if exists|k: int| 0 <= k < t.len() && (#[trigger] t[k]).id@ == id {
        let at = first_under(t, id);
        assert(t[at] == admissions[at]);
        assert forall|j: int| 0 <= j < at implies (#[trigger] admissions[j]).id@ != id by {
            assert(t[j] == admissions[j]);
        }
        at
    } else {
        let k = choose|k: int| 0 <= k < admissions.len() && (#[trigger] admissions[k]).id@ == id;
        if k < t.len() {
            assert(t[k] == admissions[k]);
        }
        assert forall|j: int| 0 <= j < admissions.len() - 1 implies (
        #[trigger] admissions[j]).id@ != id by {
            assert(t[j] == admissions[j]);
        }
        admissions.len() - 1
    }
}

/// A prompt that exactly one record claims, at its own place, is owned by that record.
pub proof fn law_only_claimant_owns_the_prompt(
    history: Seq<RecoveryHistory>,
    id: Option<Seq<char>>,
    seq: u64,
    owner: int,
)
    requires
        0 <= owner < history.len(),
        claims(history[owner], id, seq),
        !moved(history[owner], id, seq),
        forall|i: int|
            0 <= i < history.len() && i != owner ==> !claims(#[trigger] history[i], id, seq),
    ensures
        owner_of(history, id, seq) == Ok::<Option<int>, OwnershipError>(Some(owner)),
    decreases history.len(),
{
    let t = history.drop_last();
    let last = history.len() - 1;
    assert(history[last] == history.last());
    if owner == last {
        assert forall|i: int| 0 <= i < t.len() implies !claims(#[trigger] t[i], id, seq) by {
            assert(t[i] == history[i]);
        }
        law_unclaimed_prompt_has_no_owner(t, id, seq);
    } else {
        assert(t[owner] == history[owner]);
        assert forall|i: int| 0 <= i < t.len() && i != owner implies !claims(
            #[trigger] t[i],
            id,
            seq,
        ) by {
            assert(t[i] == history[i]);
        }
        law_only_claimant_owns_the_prompt(t, id, seq, owner);
        assert(!claims(history[last], id, seq));
    }
}

/// A prompt that no record claims has no owner.
pub proof fn law_unclaimed_prompt_has_no_owner(
    history: Seq<RecoveryHistory>,
    id: Option<Seq<char>>,
    seq: u64,
)
    requires
        forall|i: int| 0 <= i < history.len() ==> !claims(#[trigger] history[i], id, seq),
    ensures
        owner_of(history, id, seq) == Ok::<Option<int>, OwnershipError>(None),
    decreases history.len(),
{
    if history.len() > 0 {
        let t = history.drop_last();
        assert(!claims(history[history.len() - 1], id, seq));
        assert forall|i: int| 0 <= i < t.len() implies !claims(#[trigger] t[i], id, seq) by {
            assert(t[i] == history[i]);
        }
        law_unclaimed_prompt_has_no_owner(t, id, seq);
    }
}

/// The first claimant that has the prompt at another place decides that its sequence changed, as
/// long as at most one record claims the prompt before it.
#[verifier::spinoff_prover]
#[verifier::rlimit(40)]
pub proof fn law_moved_prompt_has_no_owner(
    history: Seq<RecoveryHistory>,
    id: Option<Seq<char>>,
    seq: u64,
    at: int,
)
    requires
        0 <= at < history.len(),
        claims(history[at], id, seq),
        moved(history[at], id, seq),
        forall|i: int|
            0 <= i < at && claims(#[trigger] history[i], id, seq) ==> !moved(history[i], id, seq),
        forall|i: int, j: int|
            0 <= i < j < at && claims(#[trigger] history[i], id, seq) ==> !claims(
                #[trigger] history[j],
                id,
                seq,
            ),
    ensures
        owner_of(history, id, seq) == Err::<Option<int>, OwnershipError>(
            OwnershipError::SequenceChanged,
        ),
    decreases history.len(),
{
    let t = history.drop_last();
    let last = history.len() - 1;
    assert(history[last] == history.last());
    assert forall|i: int| 0 <= i < t.len() implies #[trigger] t[i] == history[i] by {}
    if at < last {
        assert(t[at] == history[at]);
        law_moved_prompt_has_no_owner(t, id, seq, at);
    } else {
        if exists|k: int| 0 <= k < t.len() && claims(#[trigger] t[k], id, seq) {
            let k = choose|k: int| 0 <= k < t.len() && claims(#[trigger] t[k], id, seq);
            assert(history[k] == t[k]);
            assert forall|i: int| 0 <= i < t.len() && i != k implies !claims(
                #[trigger] t[i],
                id,
                seq,
            ) by {
                assert(history[i] == t[i]);
                if i < k {
                    assert(claims(history[i], id, seq) ==> !claims(history[k], id, seq));
                } else {
                    assert(claims(history[k], id, seq) ==> !claims(history[i], id, seq));
                }
            }
            law_only_claimant_owns_the_prompt(t, id, seq, k);
        } else {
            law_unclaimed_prompt_has_no_owner(t, id, seq);
        }
    }
}

/// Two records that claim a prompt at its own place make its owner ambiguous, where none before
/// the second has it at another place and no third stands between.
pub proof fn law_two_claimants_are_ambiguous(
    history: Seq<RecoveryHistory>,
    id: Option<Seq<char>>,
    seq: u64,
    first: int,
    second: int,
)
    requires
        0 <= first < second < history.len(),
        claims(history[first], id, seq),
        claims(history[second], id, seq),
        !moved(history[first], id, seq),
        !moved(history[second], id, seq),
        forall|i: int|
            0 <= i < second && i != first ==> !claims(#[trigger] history[i], id, seq),
    ensures
        owner_of(history, id, seq) == Err::<Option<int>, OwnershipError>(OwnershipError::Ambiguous),
    decreases history.len(),
{
    let t = history.drop_last();
    let last = history.len() - 1;
    assert(history[last] == history.last());
    assert(t[first] == history[first]);
    if second < last {
        assert(t[second] == history[second]);
        assert forall|i: int| 0 <= i < second && i != first implies !claims(
            #[trigger] t[i],
            id,
            seq,
        ) by {
            assert(t[i] == history[i]);
        }
        law_two_claimants_are_ambiguous(t, id, seq, first, second);
    } else {
        assert forall|i: int| 0 <= i < t.len() && i != first implies !claims(
            #[trigger] t[i],
            id,
            seq,
        ) by {
            assert(t[i] == history[i]);
        }
        law_only_claimant_owns_the_prompt(t, id, seq, first);
    }
}

/// The prompts that wait are the messages of the user that the log leaves unanswered, each in its
/// place.
pub proof fn law_waiting_prompts_are_the_unanswered_ones(
    log: Seq<(u64, SessionLogEntry)>,
    all: Seq<(u64, SessionLogEntry)>,
    rows: Seq<(u64, SessionLogEntry)>,
)
    ensures
        waiting_prompts(log, all, rows) == rows.filter(
            |row: (u64, SessionLogEntry)|
                row.1.is_user_message() && request_status(log, all, row.0) is Pending,
        ),
    decreases rows.len(),
{
    reveal(Seq::filter);
    if rows.len() > 0 {
        law_waiting_prompts_are_the_unanswered_ones(log, all, rows.drop_last());
    }
}

/// A prompt is named by the identifier that its message carries.
pub proof fn law_messages_carry_their_identifier(e: SessionLogEntry)
    ensures
        e matches SessionLogEntry::Message { id: Some(id), .. } ==> message_id(e) == Some(id@),
        e matches SessionLogEntry::Message { id: None, .. } ==> message_id(e) is None,
        !(e is Message) ==> message_id(e) is None,
{
}

/// A cancellation may be written over prompts exactly where each of them belongs to it.
#[verifier::spinoff_prover]
#[verifier::rlimit(40)]
pub proof fn law_cancellation_stays_with_its_own_prompts(
    history: Seq<RecoveryHistory>,
    reference: OperationRef,
    prompts: Seq<(u64, SessionLogEntry)>,
)
    ensures
        foreign_prompt(history, reference, prompts) is None <==> forall|i: int|
            0 <= i < prompts.len() ==> (owner_of(
                history,
                message_id((#[trigger] prompts[i]).1),
                prompts[i].0,
            ) matches Ok(Some(k)) && history[k].reference.session_id@ == reference.session_id@
                && history[k].reference.execution_id@ == reference.execution_id@),
    decreases prompts.len(),
{
    if prompts.len() > 0 {
        let t = prompts.drop_last();
        let last = prompts.len() - 1;
        law_cancellation_stays_with_its_own_prompts(history, reference, t);
        assert(prompts[last] == prompts.last());
        assert forall|i: int| 0 <= i < t.len() implies #[trigger] t[i] == prompts[i] by {}
        if foreign_prompt(history, reference, t) is Some {
            let k = choose|i: int|
                0 <= i < t.len() && !(owner_of(
                    history,
                    message_id((#[trigger] t[i]).1),
                    t[i].0,
                ) matches Ok(Some(k)) && history[k].reference.session_id@ == reference.session_id@
                    && history[k].reference.execution_id@ == reference.execution_id@);
            assert(prompts[k] == t[k]);
        } else {
            assert forall|i: int| 0 <= i < t.len() implies (owner_of(
                history,
                message_id((#[trigger] prompts[i]).1),
                prompts[i].0,
            ) matches Ok(Some(k)) && history[k].reference.session_id@ == reference.session_id@
                && history[k].reference.execution_id@ == reference.execution_id@) by {
                assert(t[i] == prompts[i]);
            }
        }
    }
}

/// The first prompt that does not belong to a cancellation says why it must not be written: its
/// owner cannot be named, nobody knows it, or another execution has it.
pub proof fn law_first_foreign_prompt_says_why(
    history: Seq<RecoveryHistory>,
    reference: OperationRef,
    prompts: Seq<(u64, SessionLogEntry)>,
    at: int,
)
    requires
        0 <= at < prompts.len(),
        forall|i: int|
            0 <= i < at ==> (owner_of(
                history,
                message_id((#[trigger] prompts[i]).1),
                prompts[i].0,
            ) matches Ok(Some(k)) && history[k].reference.session_id@ == reference.session_id@
                && history[k].reference.execution_id@ == reference.execution_id@),
    ensures
        owner_of(history, message_id(prompts[at].1), prompts[at].0) matches Err(e)
            ==> foreign_prompt(history, reference, prompts) == Some(
            CancelOwnershipError::Ownership(e),
        ),
        owner_of(history, message_id(prompts[at].1), prompts[at].0) == Ok::<
            Option<int>,
            OwnershipError,
        >(None) ==> foreign_prompt(history, reference, prompts) == Some(
            CancelOwnershipError::Unknown,
        ),
        owner_of(history, message_id(prompts[at].1), prompts[at].0) matches Ok(Some(k)) ==> (
        history[k].reference.session_id@ != reference.session_id@
            || history[k].reference.execution_id@ != reference.execution_id@) ==> foreign_prompt(
            history,
            reference,
            prompts,
        ) == Some(CancelOwnershipError::Foreign),
    decreases prompts.len(),
{
    let t = prompts.drop_last();
    let last = prompts.len() - 1;
    assert(prompts[last] == prompts.last());
    assert forall|i: int| 0 <= i < t.len() implies #[trigger] t[i] == prompts[i] by {}
    if at < last {
        assert(t[at] == prompts[at]);
        law_first_foreign_prompt_says_why(history, reference, t, at);
    } else {
        law_cancellation_stays_with_its_own_prompts(history, reference, t);
        assert(foreign_prompt(history, reference, t) is None);
    }
}

/// Only a record of a session execution is asked for its fences.
pub proof fn law_fences_are_those_of_session_executions(record: RecoveryHistory, fence: u64)
    ensures
        had_fence(record, fence) <==> record.kind == Some(OperationKind::Session) && exists|i: int|
            0 <= i < record.owner_fences@.len() && #[trigger] record.owner_fences@[i] == fence,
{
}

/// A fence leads to a record exactly where that record alone had it. Where none had it, the fence
/// is unknown, and where two had it, ambiguous.
#[verifier::spinoff_prover]
#[verifier::rlimit(40)]
pub proof fn law_fence_leads_to_the_only_execution_that_had_it(
    history: Seq<RecoveryHistory>,
    fence: u64,
)
    ensures
        legacy_owner(history, fence) == Err::<int, LegacyFenceError>(LegacyFenceError::Unknown)
            <==> forall|i: int| 0 <= i < history.len() ==> !had_fence(#[trigger] history[i], fence),
        forall|k: int|
            #![trigger history[k]]
            legacy_owner(history, fence) == Ok::<int, LegacyFenceError>(k) <==> 0 <= k
                < history.len() && had_fence(history[k], fence) && forall|i: int|
                0 <= i < history.len() && i != k ==> !had_fence(#[trigger] history[i], fence),
        legacy_owner(history, fence) == Err::<int, LegacyFenceError>(LegacyFenceError::Ambiguous)
            <==> exists|i: int, j: int|
            0 <= i < j < history.len() && had_fence(#[trigger] history[i], fence) && had_fence(
                #[trigger] history[j],
                fence,
            ),
    decreases history.len(),
{
    if history.len() > 0 {
        let t = history.drop_last();
        let last = history.len() - 1;
        law_fence_leads_to_the_only_execution_that_had_it(t, fence);
        assert(history[last] == history.last());
        assert forall|i: int| 0 <= i < t.len() implies #[trigger] history[i] == t[i] by {}
        match legacy_owner(t, fence) {
            Err(LegacyFenceError::Unknown) => {
                assert forall|i: int| 0 <= i < t.len() implies !had_fence(
                    #[trigger] history[i],
                    fence,
                ) by {
                    assert(t[i] == history[i]);
                }
            },
            Ok(k) => {
                assert(t[k] == t[k]);
                assert(0 <= k < t.len() && had_fence(t[k], fence));
                assert(had_fence(history[k], fence));
                assert forall|i: int| 0 <= i < t.len() && i != k implies !had_fence(
                    #[trigger] history[i],
                    fence,
                ) by {
                    assert(t[i] == history[i]);
                }
                if had_fence(history.last(), fence) {
                    assert(had_fence(history[k], fence) && had_fence(history[last], fence));
                    assert forall|m: int|
                        #![trigger history[m]]
                        !(0 <= m < history.len() && had_fence(history[m], fence) && forall|i: int|
                            0 <= i < history.len() && i != m ==> !had_fence(
                                #[trigger] history[i],
                                fence,
                            )) by {
                        assert(had_fence(history[k], fence));
                        assert(had_fence(history[last], fence));
                    }
                }
            },
            Err(LegacyFenceError::Ambiguous) => {
                let (i, j) = choose|i: int, j: int|
                    0 <= i < j < t.len() && had_fence(#[trigger] t[i], fence) && had_fence(
                        #[trigger] t[j],
                        fence,
                    );
                assert(had_fence(history[i], fence) && had_fence(history[j], fence));
            },
        }
    }
}

/// An identifier that is given is told by its text, and one that is missing by nothing.
pub proof fn law_identifiers_are_told_by_their_text(id: &String)
    ensures
        id_view(Some(id)) == Some(id@),
        id_view(None) is None,
{
}

} // verus!
