//! The thin client: sessions whose log opens with a header that a worker puts in.
use crate::mutations::{apply_log_mutations, effective, mutations_readable};
use crate::session_log::SessionLogEntry;
use crate::session_reconstruct::{
    is_terminator, reconstruct_turn_status, terminator, turn_status, TurnStatus,
};
use vstd::prelude::*;

verus! {

/// What a thin client follows.
#[derive(Debug)]
pub struct ThinClientConfig {
    pub cluster: String,
    pub agent: String,
    /// The session to resume. Without one a new session starts.
    pub session_id: Option<String>,
}

/// What a turn of a thin client came to.
#[derive(Debug)]
pub struct ThinClientTurnResult {
    pub response: Option<String>,
    pub session_id: String,
    pub was_cancelled: bool,
    pub error: Option<String>,
    pub user_msg_seq: u64,
    pub user_msg_id: String,
}

/// An entry that parts two turns: the prompt that opens one, or what closes one.
pub open spec fn parts_turns(e: SessionLogEntry) -> bool {
    e.is_user_message() || is_terminator(e)
}

/// Whether tool calls come from `at` on, before another turn does.
pub open spec fn calls_from(log: Seq<(u64, SessionLogEntry)>, at: int) -> bool
    decreases log.len() - at,
{
    if at < 0 || at >= log.len() || parts_turns(log[at].1) {
        false
    } else {
        log[at].1 is ToolCalls || calls_from(log, at + 1)
    }
}

/// A row behind the prompt that ends its turn: a failure, or an answer with no tool calls of the
/// same turn behind it.
pub open spec fn is_barrier(
    log: Seq<(u64, SessionLogEntry)>,
    at: int,
    user_msg_seq: u64,
) -> bool {
    log[at].0 > user_msg_seq && (log[at].1 is Error || log[at].1.is_assistant_message()
        && !calls_from(log, at + 1))
}

/// Whether the turn of the prompt is over: a failure or the final answer stands behind it, or
/// nothing of the session waits for a worker any more.
pub open spec fn turn_complete(log: Seq<(u64, SessionLogEntry)>, user_msg_seq: u64) -> bool {
    ||| exists|i: int| 0 <= i < log.len() && #[trigger] is_barrier(log, i, user_msg_seq)
    ||| mutations_readable(log) && !(turn_status(effective(log)) is InFlight)
}

/// Whether the turn of the prompt is over.
pub fn is_turn_complete(entries: &[(u64, SessionLogEntry)], user_msg_seq: u64) -> (r: bool)
    ensures
        r == turn_complete(entries@, user_msg_seq),
{
    let mut i: usize = entries.len();
    let mut calls: bool = false;
    while i > 0
        invariant
            i <= entries@.len(),
            calls == calls_from(entries@, i as int),
            forall|k: int|
                i <= k < entries@.len() ==> !#[trigger] is_barrier(entries@, k, user_msg_seq),
        decreases i,
    {
        let entry = &entries[i - 1].1;
        let barrier: bool = match entry {
            SessionLogEntry::Message { role, .. } => role.is_assistant() && !calls,
            SessionLogEntry::Error { .. } => true,
            _ => false,
        };
        if entries[i - 1].0 > user_msg_seq && barrier {
            assert(is_barrier(entries@, i - 1, user_msg_seq));
            return true;
        }
        calls = match entry {
            SessionLogEntry::ToolCalls { .. } => true,
            _ => calls && !entry.user_message() && !terminator(entry),
        };
        i -= 1;
    }
    match apply_log_mutations(entries) {
        Ok(rows) => match reconstruct_turn_status(rows.as_slice()) {
            TurnStatus::InFlight => false,
            _ => true,
        },
        Err(_) => false,
    }
}

/// A turn of which nothing is left to do is over, whether or not anything stands behind its
/// prompt: so it is where the prompt was taken back.
pub proof fn law_settled_session_ends_the_turn(
    log: Seq<(u64, SessionLogEntry)>,
    user_msg_seq: u64,
)
    requires
        mutations_readable(log),
        turn_status(effective(log)) is Idle || turn_status(effective(log)) is Interrupted,
    ensures
        turn_complete(log, user_msg_seq),
{
}

/// An answer ends no turn whose tool calls still wait behind it.
pub proof fn law_open_calls_keep_the_turn(log: Seq<(u64, SessionLogEntry)>, user_msg_seq: u64)
    requires
        mutations_readable(log),
        turn_status(effective(log)) is InFlight,
        forall|i: int|
            0 <= i < log.len() && (#[trigger] log[i]).0 > user_msg_seq ==> !(log[i].1 is Error) && (
            log[i].1.is_assistant_message() ==> calls_from(log, i + 1)),
    ensures
        !turn_complete(log, user_msg_seq),
{
    assert forall|i: int| 0 <= i < log.len() implies !#[trigger] is_barrier(
        log,
        i,
        user_msg_seq,
    ) by {
        assert(log[i] == log[i]);
    }
}

/// Tool calls come before another turn does exactly where some stand in the rows from `at` on,
/// with neither a prompt nor an end of a turn up to them.
pub proof fn law_calls_belong_to_the_turn_they_follow(log: Seq<(u64, SessionLogEntry)>, at: int)
    requires
        0 <= at <= log.len(),
    ensures
        calls_from(log, at) <==> exists|k: int|
            at <= k < log.len() && (#[trigger] log[k]).1 is ToolCalls && (forall|j: int|
                at <= j < k ==> !(#[trigger] log[j]).1.is_user_message() && !(
                log[j].1 is TurnEnd) && !(log[j].1 is Error) && !(log[j].1 is Cancel)),
    decreases log.len() - at,
{
    if at < log.len() {
        law_calls_belong_to_the_turn_they_follow(log, at + 1);
        if calls_from(log, at) {
            if log[at].1 is ToolCalls {
                assert(log[at].1 is ToolCalls);
            } else {
                let k = choose|k: int|
                    at + 1 <= k < log.len() && (#[trigger] log[k]).1 is ToolCalls && (forall|
                        j: int,
                    |
                        at + 1 <= j < k ==> !(#[trigger] log[j]).1.is_user_message() && !(
                        log[j].1 is TurnEnd) && !(log[j].1 is Error) && !(log[j].1 is Cancel));
                assert(log[k].1 is ToolCalls);
            }
        }
        if exists|k: int|
            at <= k < log.len() && (#[trigger] log[k]).1 is ToolCalls && (forall|j: int|
                at <= j < k ==> !(#[trigger] log[j]).1.is_user_message() && !(
                log[j].1 is TurnEnd) && !(log[j].1 is Error) && !(log[j].1 is Cancel)) {
            let k = choose|k: int|
                at <= k < log.len() && (#[trigger] log[k]).1 is ToolCalls && (forall|j: int|
                    at <= j < k ==> !(#[trigger] log[j]).1.is_user_message() && !(
                    log[j].1 is TurnEnd) && !(log[j].1 is Error) && !(log[j].1 is Cancel));
            if k > at {
                assert(!log[at].1.is_user_message());
                assert(log[k].1 is ToolCalls);
            }
        }
    }
}

/// A failure behind the prompt ends its turn, and so does an answer behind it with no tool calls
/// of the same turn to follow. Nothing else ends a turn that still waits for a worker.
pub proof fn law_failure_or_final_answer_ends_the_turn(
    log: Seq<(u64, SessionLogEntry)>,
    user_msg_seq: u64,
)
    ensures
        forall|i: int|
            0 <= i < log.len() && (#[trigger] log[i]).0 > user_msg_seq && (log[i].1 is Error || (
            log[i].1.is_assistant_message() && !calls_from(log, i + 1))) ==> turn_complete(
                log,
                user_msg_seq,
            ),
        turn_complete(log, user_msg_seq) ==> {
            ||| mutations_readable(log) && turn_status(effective(log)) != TurnStatus::InFlight
            ||| exists|i: int|
                0 <= i < log.len() && (#[trigger] log[i]).0 > user_msg_seq && (log[i].1 is Error
                    || (log[i].1.is_assistant_message() && !calls_from(log, i + 1)))
        },
{
    assert forall|i: int|
        0 <= i < log.len() && (#[trigger] log[i]).0 > user_msg_seq && (log[i].1 is Error || (
        log[i].1.is_assistant_message() && !calls_from(log, i + 1))) implies turn_complete(
        log,
        user_msg_seq,
    ) by {
        assert(is_barrier(log, i, user_msg_seq));
    }
    if turn_complete(log, user_msg_seq) && !(mutations_readable(log) && turn_status(
        effective(log),
    ) != TurnStatus::InFlight) {
        let i = choose|i: int| 0 <= i < log.len() && #[trigger] is_barrier(log, i, user_msg_seq);
        assert(log[i].0 > user_msg_seq);
    }
}

} // verus!
