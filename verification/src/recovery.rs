//! Recovery: who may go on with what an earlier execution left in the log. Neither the fence of
//! an entry nor a hit in the journal permits work by itself; the execution behind it must be
//! named without doubt.
use crate::execution::{
    admission_of, admission_seq, claims, id_view, moved, owner_of, prompt_owner,
    ExecutionContext, OwnershipError, RecoveryHistory,
};
use crate::session_log::{SessionLogEntry, ToolCall};
use crate::text::{opt_text, starts_with, strip_prefix};
use vstd::prelude::*;
use vstd::string::*;

verus! {

/// What the identifier of a message starts with that carries a commit.
pub const COMMIT_PREFIX: &'static str = "gate-";

/// Where the execution behind a tool round is found.
#[derive(Debug, PartialEq, Eq)]
pub enum AuthoritySource {
    /// In the decision with this identifier.
    Commit { id: String },
    /// In the journal of the calls.
    Journal,
    /// By the fence of the worker that wrote the round.
    LegacyFence { fence: u64 },
}

/// Why no execution is behind a tool round.
#[derive(Debug, PartialEq, Eq)]
pub enum AuthorityError {
    NotToolRound,
    /// The round is not the one that was asked about.
    Modified,
    UnknownGate,
    /// The decision is no output to the log.
    NoProof,
    /// The decision holds another entry.
    ProofMismatch,
    /// The decision was made for another session.
    SessionMismatch,
    /// The execution was stopped.
    Interrupted,
    /// The fence is no older one than that of the execution it led to.
    UnknownPredecessor,
    /// A call that the journal does not know.
    UnknownGeneration,
    /// The journal has another tool for a call.
    ToolChanged,
    /// The journal does not say which execution made a call.
    NoConsumer,
    /// The calls of one round were made by several executions.
    Ambiguous,
}

impl AuthorityError {
    pub open spec fn text(self) -> Seq<char> {
        match self {
            AuthorityError::NotToolRound => "recovery source is not a tool round"@,
            AuthorityError::Modified => "modified tool round has unknown recovery authority"@,
            AuthorityError::UnknownGate => "unknown recovery gate"@,
            AuthorityError::NoProof => "recovery entry has no transcript proof"@,
            AuthorityError::ProofMismatch => "recovery transcript proof mismatch"@,
            AuthorityError::SessionMismatch => "recovery transcript session mismatch"@,
            AuthorityError::Interrupted => "interrupted by user"@,
            AuthorityError::UnknownPredecessor => "unknown legacy predecessor fence"@,
            AuthorityError::UnknownGeneration => "unknown legacy tool-call generation"@,
            AuthorityError::ToolChanged => "recovery tool identity changed"@,
            AuthorityError::NoConsumer => "unknown journal generation"@,
            AuthorityError::Ambiguous => "ambiguous tool-round generation"@,
        }
    }

    pub fn message(&self) -> (r: String)
        ensures
            r@ == self.text(),
            r@ == match *self {
                AuthorityError::NotToolRound => "recovery source is not a tool round"@,
                AuthorityError::Modified => "modified tool round has unknown recovery authority"@,
                AuthorityError::UnknownGate => "unknown recovery gate"@,
                AuthorityError::NoProof => "recovery entry has no transcript proof"@,
                AuthorityError::ProofMismatch => "recovery transcript proof mismatch"@,
                AuthorityError::SessionMismatch => "recovery transcript session mismatch"@,
                AuthorityError::Interrupted => "interrupted by user"@,
                AuthorityError::UnknownPredecessor => "unknown legacy predecessor fence"@,
                AuthorityError::UnknownGeneration => "unknown legacy tool-call generation"@,
                AuthorityError::ToolChanged => "recovery tool identity changed"@,
                AuthorityError::NoConsumer => "unknown journal generation"@,
                AuthorityError::Ambiguous => "ambiguous tool-round generation"@,
            },
    {
        String::from_str(
            match self {
                AuthorityError::NotToolRound => "recovery source is not a tool round",
                AuthorityError::Modified => "modified tool round has unknown recovery authority",
                AuthorityError::UnknownGate => "unknown recovery gate",
                AuthorityError::NoProof => "recovery entry has no transcript proof",
                AuthorityError::ProofMismatch => "recovery transcript proof mismatch",
                AuthorityError::SessionMismatch => "recovery transcript session mismatch",
                AuthorityError::Interrupted => "interrupted by user",
                AuthorityError::UnknownPredecessor => "unknown legacy predecessor fence",
                AuthorityError::UnknownGeneration => "unknown legacy tool-call generation",
                AuthorityError::ToolChanged => "recovery tool identity changed",
                AuthorityError::NoConsumer => "unknown journal generation",
                AuthorityError::Ambiguous => "ambiguous tool-round generation",
            },
        )
    }
}

/// Where to look for the execution behind an entry: in the commit that the message carries, else
/// by the fence of its writer, else in the journal.
pub fn authority_source(
    entry: &SessionLogEntry,
    unchanged: bool,
    gate_known: bool,
    message_id: Option<&str>,
) -> (r: Result<AuthoritySource, AuthorityError>)
    ensures
        match *entry {
            SessionLogEntry::ToolCalls { fence_token, .. } => if !unchanged {
                r == Err::<AuthoritySource, AuthorityError>(AuthorityError::Modified)
            } else if !gate_known {
                r == Err::<AuthoritySource, AuthorityError>(AuthorityError::UnknownGate)
            } else if message_id is Some && starts_with(message_id->0@, COMMIT_PREFIX@) {
                r matches Ok(AuthoritySource::Commit { id }) && message_id->0@ == COMMIT_PREFIX@
                    + id@
            } else {
                r == Ok::<AuthoritySource, AuthorityError>(
                    match fence_token {
                        Some(fence) => AuthoritySource::LegacyFence { fence },
                        None => AuthoritySource::Journal,
                    },
                )
            },
            _ => r == Err::<AuthoritySource, AuthorityError>(AuthorityError::NotToolRound),
        },
{
    let fence_token: &Option<u64> = match entry {
        SessionLogEntry::ToolCalls { fence_token, .. } => fence_token,
        _ => {
            return Err(AuthorityError::NotToolRound);
        },
    };
    if !unchanged {
        return Err(AuthorityError::Modified);
    }
    if !gate_known {
        return Err(AuthorityError::UnknownGate);
    }
    match message_id {
        Some(id) => {
            match strip_prefix(id, COMMIT_PREFIX) {
                Some(rest) => {
                    assert(id@ =~= COMMIT_PREFIX@ + rest@);
                    return Ok(AuthoritySource::Commit { id: rest });
                },
                None => {},
            }
        },
        None => {},
    }
    match fence_token {
        Some(fence) => Ok(AuthoritySource::LegacyFence { fence: *fence }),
        None => Ok(AuthoritySource::Journal),
    }
}

/// Whether a decision proves that its execution wrote an entry of the log of a session.
pub fn check_commit_proof(
    is_transcript_output: bool,
    same_entry: bool,
    decided_for: &str,
    session_id: &str,
) -> (r: Result<(), AuthorityError>)
    ensures
        r == if !is_transcript_output {
            Err(AuthorityError::NoProof)
        } else if !same_entry {
            Err(AuthorityError::ProofMismatch)
        } else if decided_for@ != session_id@ {
            Err(AuthorityError::SessionMismatch)
        } else {
            Ok::<(), AuthorityError>(())
        },
{
    if !is_transcript_output {
        Err(AuthorityError::NoProof)
    } else if !same_entry {
        Err(AuthorityError::ProofMismatch)
    } else if !(*decided_for == *session_id) {
        Err(AuthorityError::SessionMismatch)
    } else {
        Ok(())
    }
}

/// Whether the fence of an entry is evidence for the execution that it led to: the execution was
/// not stopped, and the fence is that of an earlier owner. An owner cannot lend its own fence to
/// what was written before.
pub fn check_legacy_fence(stopped: bool, fence: u64, own_fence: u64) -> (r: Result<
    (),
    AuthorityError,
>)
    ensures
        r == if stopped {
            Err(AuthorityError::Interrupted)
        } else if fence < own_fence {
            Ok::<(), AuthorityError>(())
        } else {
            Err(AuthorityError::UnknownPredecessor)
        },
{
    if stopped {
        Err(AuthorityError::Interrupted)
    } else if fence < own_fence {
        Ok(())
    } else {
        Err(AuthorityError::UnknownPredecessor)
    }
}

/// What the journal holds of a call.
#[derive(Debug)]
pub struct JournalRecord {
    pub tool_name: String,
    /// The execution that made the call.
    pub consumer: Option<ExecutionContext>,
}

/// What is known after a call was looked up: the execution, or what is wrong.
pub open spec fn after_lookup(
    known: Option<ExecutionContext>,
    call: ToolCall,
    record: Option<JournalRecord>,
) -> Result<Option<ExecutionContext>, AuthorityError> {
    if call.id is None {
        Err(AuthorityError::UnknownGeneration)
    } else {
        match record {
            None => Err(AuthorityError::UnknownGeneration),
            Some(found) => if found.tool_name@ != call.name@ {
                Err(AuthorityError::ToolChanged)
            } else {
                match found.consumer {
                    None => Err(AuthorityError::NoConsumer),
                    Some(consumer) => if known is Some && !known->0.agrees(&consumer) {
                        Err(AuthorityError::Ambiguous)
                    } else {
                        Ok(Some(consumer))
                    },
                }
            },
        }
    }
}

/// What is known after a run of calls was looked up.
pub open spec fn after_lookups(calls: Seq<ToolCall>, records: Seq<Option<JournalRecord>>) -> Result<
    Option<ExecutionContext>,
    AuthorityError,
>
    decreases calls.len(),
{
    if calls.len() == 0 {
        Ok(None)
    } else {
        match after_lookups(calls.drop_last(), records.drop_last()) {
            Err(e) => Err(e),
            Ok(known) => after_lookup(known, calls.last(), records.last()),
        }
    }
}

/// The identifier under which the journal is asked about a call.
pub fn journal_key(call: &ToolCall) -> (r: Result<&String, AuthorityError>)
    ensures
        match r {
            Ok(id) => call.id == Some(*id),
            Err(e) => call.id is None && e == AuthorityError::UnknownGeneration,
        },
{
    match &call.id {
        Some(id) => Ok(id),
        None => Err(AuthorityError::UnknownGeneration),
    }
}

/// Takes what the journal holds of the next call of a round.
pub fn take_lookup(
    known: Option<ExecutionContext>,
    call: &ToolCall,
    record: Option<JournalRecord>,
) -> (r: Result<Option<ExecutionContext>, AuthorityError>)
    ensures
        r == after_lookup(known, *call, record),
{
    if call.id.is_none() {
        return Err(AuthorityError::UnknownGeneration);
    }
    match record {
        None => Err(AuthorityError::UnknownGeneration),
        Some(found) => {
            if !(*found.tool_name.as_str() == *call.name.as_str()) {
                return Err(AuthorityError::ToolChanged);
            }
            match found.consumer {
                None => Err(AuthorityError::NoConsumer),
                Some(consumer) => {
                    let other: bool = match &known {
                        Some(before) => !before.is_same(&consumer),
                        None => false,
                    };
                    if other {
                        Err(AuthorityError::Ambiguous)
                    } else {
                        Ok(Some(consumer))
                    }
                },
            }
        },
    }
}

/// The execution behind a round whose calls have all been looked up.
pub fn journal_authority(known: Option<ExecutionContext>) -> (r: Result<
    ExecutionContext,
    AuthorityError,
>)
    ensures
        r == match known {
            Some(generation) => Ok(generation),
            None => Err(AuthorityError::UnknownGeneration),
        },
{
    match known {
        Some(generation) => Ok(generation),
        None => Err(AuthorityError::UnknownGeneration),
    }
}

/// A prompt that waits, and what becomes of it.
#[derive(Debug, PartialEq, Eq)]
pub struct RecoveredPrompt {
    /// The place of the record that owns it.
    pub owner: usize,
    /// The identifier under which its place is still to be committed.
    pub commit: Option<String>,
}

/// Why a prompt that waits cannot be recovered.
#[derive(Clone, Copy, Debug, PartialEq, Eq, Structural)]
pub enum RecoveryError {
    Ownership(OwnershipError),
    /// Nothing is known of the prompt.
    Unknown,
}

/// Finds the execution that a prompt goes back to. Its place is committed where the execution
/// reserved it and the commit is missing.
pub fn recover_prompt(history: &[RecoveryHistory], id: Option<&String>, seq: u64) -> (r: Result<
    RecoveredPrompt,
    RecoveryError,
>)
    ensures
        match owner_of(history@, id_view(id), seq) {
            Err(e) => r == Err::<RecoveredPrompt, RecoveryError>(RecoveryError::Ownership(e)),
            Ok(None) => r == Err::<RecoveredPrompt, RecoveryError>(RecoveryError::Unknown),
            Ok(Some(i)) => {
                &&& r matches Ok(p)
                &&& p.owner == i
                &&& p.owner < history@.len()
                &&& opt_text(p.commit) == match id_view(id) {
                    Some(own) => if admission_of(history@[i].admissions@, own) == Some(
                        None::<u64>,
                    ) {
                        Some(own)
                    } else {
                        None
                    },
                    None => None,
                }
            },
        },
{
    match prompt_owner(history, id, seq) {
        Err(e) => Err(RecoveryError::Ownership(e)),
        Ok(None) => Err(RecoveryError::Unknown),
        Ok(Some(owner)) => {
            let commit: Option<String> = match id {
                Some(own) => match admission_seq(&history[owner].admissions, own) {
                    Some(None) => Some(own.clone()),
                    _ => None,
                },
                None => None,
            };
            Ok(RecoveredPrompt { owner, commit })
        },
    }
}

/// A round goes back to one execution only: every call of it was made by the one that is found.
pub proof fn law_round_has_one_execution(
    calls: Seq<ToolCall>,
    records: Seq<Option<JournalRecord>>,
    i: int,
)
    requires
        calls.len() == records.len(),
        after_lookups(calls, records) is Ok,
        0 <= i < calls.len(),
    ensures
        after_lookups(calls, records)->Ok_0 is Some,
        records[i] is Some,
        records[i]->0.tool_name@ == calls[i].name@,
        records[i]->0.consumer is Some,
        records[i]->0.consumer->0.agrees(&(after_lookups(calls, records)->Ok_0->0)),
    decreases calls.len(),
{
    let before = after_lookups(calls.drop_last(), records.drop_last());
    if i < calls.len() - 1 {
        law_round_has_one_execution(calls.drop_last(), records.drop_last(), i);
        assert(calls.drop_last()[i] == calls[i]);
        assert(records.drop_last()[i] == records[i]);
    }
}

/// The execution that a prompt goes back to claims it, and has it at no other place.
pub proof fn law_recovered_prompt_is_claimed(
    history: Seq<RecoveryHistory>,
    id: Option<Seq<char>>,
    seq: u64,
    i: int,
)
    requires
        owner_of(history, id, seq) == Ok::<Option<int>, OwnershipError>(Some(i)),
    ensures
        0 <= i < history.len(),
        claims(history[i], id, seq),
        !moved(history[i], id, seq),
    decreases history.len(),
{
    if history.len() > 0 && owner_of(history.drop_last(), id, seq) == Ok::<
        Option<int>,
        OwnershipError,
    >(Some(i)) {
        law_recovered_prompt_is_claimed(history.drop_last(), id, seq, i);
        assert(history.drop_last()[i] == history[i]);
    }
}

/// A call leads to the execution that the journal has for it, where the journal knows the call,
/// under the same tool, and nothing else is known yet or it is the same execution. Otherwise the
/// first of these that fails says why.
pub proof fn law_call_leads_to_the_execution_of_its_record(
    known: Option<ExecutionContext>,
    call: ToolCall,
    record: JournalRecord,
    maker: ExecutionContext,
)
    ensures
        call.id is None ==> after_lookup(known, call, Some(record)) == Err::<
            Option<ExecutionContext>,
            AuthorityError,
        >(AuthorityError::UnknownGeneration),
        after_lookup(known, call, None) == Err::<Option<ExecutionContext>, AuthorityError>(
            AuthorityError::UnknownGeneration,
        ),
        call.id is Some && record.tool_name@ != call.name@ ==> after_lookup(
            known,
            call,
            Some(record),
        ) == Err::<Option<ExecutionContext>, AuthorityError>(AuthorityError::ToolChanged),
        call.id is Some && record.tool_name@ == call.name@ && record.consumer is None
            ==> after_lookup(known, call, Some(record)) == Err::<
            Option<ExecutionContext>,
            AuthorityError,
        >(AuthorityError::NoConsumer),
        call.id is Some && record.tool_name@ == call.name@ && record.consumer == Some(maker) ==> {
            &&& known is None ==> after_lookup(known, call, Some(record)) == Ok::<
                Option<ExecutionContext>,
                AuthorityError,
            >(Some(maker))
            &&& known matches Some(before) ==> (if before.generation.session_id@
                == maker.generation.session_id@ && before.generation.execution_id@
                == maker.generation.execution_id@ && before.gate_root@ == maker.gate_root@ {
                after_lookup(known, call, Some(record)) == Ok::<
                    Option<ExecutionContext>,
                    AuthorityError,
                >(Some(maker))
            } else {
                after_lookup(known, call, Some(record)) == Err::<
                    Option<ExecutionContext>,
                    AuthorityError,
                >(AuthorityError::Ambiguous)
            })
        },
{
}

/// The first call that fails decides for its round, whatever follows; a round without a failure
/// goes on with what its calls led to, and a round without calls leads nowhere.
pub proof fn law_first_failed_call_decides_for_its_round(
    calls: Seq<ToolCall>,
    records: Seq<Option<JournalRecord>>,
    call: ToolCall,
    record: Option<JournalRecord>,
)
    ensures
        after_lookups(Seq::empty(), Seq::empty()) == Ok::<Option<ExecutionContext>, AuthorityError>(
            None,
        ),
        after_lookups(calls, records) matches Err(e) ==> after_lookups(
            calls.push(call),
            records.push(record),
        ) == Err::<Option<ExecutionContext>, AuthorityError>(e),
        after_lookups(calls, records) matches Ok(known) ==> after_lookups(
            calls.push(call),
            records.push(record),
        ) == after_lookup(known, call, record),
{
    assert(calls.push(call).drop_last() =~= calls);
    assert(records.push(record).drop_last() =~= records);
}

/// A round that leads anywhere leads to the execution that made its last call.
pub proof fn law_round_leads_to_the_execution_of_its_last_call(
    calls: Seq<ToolCall>,
    records: Seq<Option<JournalRecord>>,
)
    requires
        calls.len() == records.len(),
        calls.len() > 0,
        after_lookups(calls, records) is Ok,
    ensures
        records.last() is Some,
        after_lookups(calls, records) == Ok::<Option<ExecutionContext>, AuthorityError>(
            records.last()->0.consumer,
        ),
        forall|i: int| 0 <= i < calls.len() ==> (#[trigger] calls[i]).id is Some,
    decreases calls.len(),
{
    let t = calls.drop_last();
    let r = records.drop_last();
    if t.len() > 0 {
        law_round_leads_to_the_execution_of_its_last_call(t, r);
        assert forall|i: int| 0 <= i < t.len() implies (#[trigger] calls[i]).id is Some by {
            assert(t[i] == calls[i]);
        }
    }
    assert(calls[calls.len() - 1] == calls.last());
}

} // verus!
