//! Interrupting a turn: one fenced entry in the log, and nothing that waits for it to spread.
use crate::nats_event_sink::{last_durable_seq, last_seq};
use crate::session_log::SessionLogEntry;
use crate::session_reconstruct::{
    find_last_terminator, interrupted_at, last_terminator, prompt_interrupted_at,
};
#[allow(unused_imports)]
use crate::session_reconstruct::law_last_terminator_has_no_later_one;
use vstd::prelude::*;
use vstd::string::*;

verus! {

/// How often the fenced append is tried while the tail of the log moves.
pub const MAX_CAS_ATTEMPTS: usize = 16;

/// Failed readings in a row after which the watch for an interrupt gives up.
pub const PROMPT_INTERRUPT_READ_ATTEMPTS: usize = 5;

/// A request to interrupt a session.
#[derive(Debug)]
pub struct InterruptRequest {
    /// The key under which the session is stored.
    pub session_id: String,
    pub cluster: String,
    pub cancellation_id: String,
    pub requested_by: String,
    pub reason: String,
}

/// What became of a request to interrupt.
#[derive(Clone, Copy, Debug, PartialEq, Eq, Structural)]
pub enum InterruptOutcome {
    /// There was no turn to interrupt.
    Idle,
    /// The interrupt stands in the log.
    Accepted { cancel_seq: u64 },
    /// The turn had been interrupted before.
    AlreadyInterrupted { cancel_seq: u64 },
}

impl InterruptOutcome {
    /// Where the interrupt stands in the log.
    pub fn cancel_seq(&self) -> (r: Option<u64>)
        ensures
            r == match *self {
                InterruptOutcome::Idle => None,
                InterruptOutcome::Accepted { cancel_seq } => Some(cancel_seq),
                InterruptOutcome::AlreadyInterrupted { cancel_seq } => Some(cancel_seq),
            },
    {
        match self {
            InterruptOutcome::Idle => None,
            InterruptOutcome::Accepted { cancel_seq } => Some(*cancel_seq),
            InterruptOutcome::AlreadyInterrupted { cancel_seq } => Some(*cancel_seq),
        }
    }
}

/// Whether a prompt stands behind position `i`.
pub open spec fn prompt_behind(entries: Seq<(u64, SessionLogEntry)>, i: int) -> bool {
    exists|k: int| i < k < entries.len() && (#[trigger] entries[k]).1.is_user_message()
}

/// What the end of the log says of a request to interrupt; nothing means that it is appended. A
/// window without the end of a turn is a turn in progress, as far as it shows.
pub open spec fn decision(entries: Seq<(u64, SessionLogEntry)>) -> Option<InterruptOutcome> {
    if entries.len() == 0 {
        Some(InterruptOutcome::Idle)
    } else {
        match last_terminator(entries) {
            None => None,
            Some(t) => if prompt_behind(entries, t) {
                None
            } else if entries[t].1 is Cancel {
                Some(InterruptOutcome::AlreadyInterrupted { cancel_seq: entries[t].0 })
            } else {
                Some(InterruptOutcome::Idle)
            },
        }
    }
}

/// What the end of the log says of a request to interrupt; nothing means that it is appended.
pub fn decide(entries: &[(u64, SessionLogEntry)]) -> (r: Option<InterruptOutcome>)
    ensures
        r == decision(entries@),
{
    if entries.len() == 0 {
        return Some(InterruptOutcome::Idle);
    }
    let t: usize = match find_last_terminator(entries) {
        Some(t) => t,
        None => {
            return None;
        },
    };
    let mut k: usize = t + 1;
    while k < entries.len()
        invariant
            t < k <= entries@.len(),
            last_terminator(entries@) == Some(t as int),
            forall|j: int| t < j < k ==> !(#[trigger] entries@[j]).1.is_user_message(),
        decreases entries@.len() - k,
    {
        if entries[k].1.user_message() {
            assert(prompt_behind(entries@, t as int));
            return None;
        }
        k += 1;
    }
    match &entries[t].1 {
        SessionLogEntry::Cancel { .. } => Some(
            InterruptOutcome::AlreadyInterrupted { cancel_seq: entries[t].0 },
        ),
        _ => Some(InterruptOutcome::Idle),
    }
}

/// What the caller does next for a request to interrupt.
#[derive(Debug)]
pub enum InterruptStep {
    /// Append this entry if the log still ends at `tail`.
    Append { tail: u64, entry: SessionLogEntry },
    /// The request is settled. One that was accepted is announced.
    Done(InterruptOutcome),
    /// The end of the log kept moving.
    Exhausted,
}

/// What became of a fenced append.
#[derive(Debug)]
pub enum FencedAppend {
    Appended(u64),
    /// The log had moved on; these entries are newer.
    Conflict { entries: Vec<(u64, SessionLogEntry)> },
}

/// Whether an entry is the interrupt with this identifier.
pub open spec fn is_own_cancel(e: SessionLogEntry, id: Seq<char>) -> bool {
    e matches SessionLogEntry::Cancel { cancellation_id: Some(own), .. } && own@ == id
}

/// The first interrupt with this identifier.
pub open spec fn own_cancel(entries: Seq<(u64, SessionLogEntry)>, id: Seq<char>) -> Option<u64>
    decreases entries.len(),
{
    if entries.len() == 0 {
        None
    } else {
        match own_cancel(entries.drop_last(), id) {
            Some(seq) => Some(seq),
            None => if is_own_cancel(entries.last().1, id) {
                Some(entries.last().0)
            } else {
                None
            },
        }
    }
}

fn find_own_cancel(entries: &[(u64, SessionLogEntry)], id: &String) -> (r: Option<u64>)
    ensures
        r == own_cancel(entries@, id@),
{
    let mut found: Option<u64> = None;
    let mut i: usize = 0;
    while i < entries.len()
        invariant
            i <= entries@.len(),
            found == own_cancel(entries@.take(i as int), id@),
        decreases entries@.len() - i,
    {
        assert(entries@.take(i + 1).drop_last() =~= entries@.take(i as int));
        if found.is_none() {
            if let SessionLogEntry::Cancel { cancellation_id: Some(own), .. } = &entries[i].1 {
                if *own == *id {
                    found = Some(entries[i].0);
                }
            }
        }
        i += 1;
    }
    assert(entries@.take(i as int) =~= entries@);
    found
}

/// What an announcement of an accepted interrupt needs.
#[derive(Debug)]
pub struct Accepted {
    pub session_id: String,
    pub cluster: String,
    pub cancellation_id: String,
    pub cancel_seq: u64,
}

impl Accepted {
    pub fn new(request: &InterruptRequest, cancel_seq: u64) -> (r: Self)
        ensures
            r == (Accepted {
                session_id: request.session_id,
                cluster: request.cluster,
                cancellation_id: request.cancellation_id,
                cancel_seq,
            }),
    {
        Accepted {
            session_id: request.session_id.clone(),
            cluster: request.cluster.clone(),
            cancellation_id: request.cancellation_id.clone(),
            cancel_seq,
        }
    }
}

/// A request to interrupt in progress: the end of the log as far as it is known, and the appends
/// that are left.
#[derive(Debug)]
pub struct Interruption {
    request: InterruptRequest,
    entries: Vec<(u64, SessionLogEntry)>,
    attempts: usize,
}

impl Interruption {
    pub closed spec fn known(&self) -> Seq<(u64, SessionLogEntry)> {
        self.entries@
    }

    /// Appends that were tried and lost.
    pub closed spec fn attempts(&self) -> nat {
        self.attempts as nat
    }

    pub closed spec fn request(&self) -> InterruptRequest {
        self.request
    }

    /// Starts from the end of the log.
    pub fn start(request: InterruptRequest, entries: Vec<(u64, SessionLogEntry)>) -> (r: Self)
        ensures
            r.known() == entries@,
            r.attempts() == 0,
            r.request() == request,
    {
        Interruption { request, entries, attempts: 0 }
    }

    /// What to do next.
    pub fn next(&self) -> (r: InterruptStep)
        ensures
            match r {
                InterruptStep::Exhausted => self.attempts() >= MAX_CAS_ATTEMPTS,
                InterruptStep::Done(outcome) => self.attempts() < MAX_CAS_ATTEMPTS && decision(
                    self.known(),
                ) == Some(outcome),
                InterruptStep::Append { tail, entry } => {
                    &&& self.attempts() < MAX_CAS_ATTEMPTS
                    &&& decision(self.known()) is None
                    &&& tail == last_seq(self.known())
                    &&& entry matches SessionLogEntry::Cancel {
                        fence_token,
                        cancellation_id: Some(id),
                        requested_by: Some(by),
                    } && fence_token == 0 && id@ == self.request().cancellation_id@ && by@
                        == self.request().requested_by@
                },
            },
    {
        if self.attempts >= MAX_CAS_ATTEMPTS {
            return InterruptStep::Exhausted;
        }
        match decide(self.entries.as_slice()) {
            Some(outcome) => InterruptStep::Done(outcome),
            None => InterruptStep::Append {
                tail: last_durable_seq(self.entries.as_slice()),
                entry: SessionLogEntry::cancel_request(
                    self.request.cancellation_id.clone(),
                    self.request.requested_by.clone(),
                ),
            },
        }
    }

    /// Takes the result of an append. What to announce, once the interrupt stands in the log: an
    /// entry with the identifier of this request among the newer ones is its own append, whose
    /// answer was lost.
    pub fn appended(&mut self, result: FencedAppend) -> (r: Option<Accepted>)
        requires
            old(self).attempts() < MAX_CAS_ATTEMPTS,
        ensures
            final(self).request() == old(self).request(),
            ({
                let request = old(self).request();
                let landed = match result {
                    FencedAppend::Appended(seq) => Some(seq),
                    FencedAppend::Conflict { entries } => own_cancel(
                        entries@,
                        request.cancellation_id@,
                    ),
                };
                match landed {
                    Some(seq) => {
                        &&& r == Some(
                            Accepted {
                                session_id: request.session_id,
                                cluster: request.cluster,
                                cancellation_id: request.cancellation_id,
                                cancel_seq: seq,
                            },
                        )
                        &&& final(self).known() == old(self).known()
                        &&& final(self).attempts() == old(self).attempts()
                    },
                    None => {
                        &&& r is None
                        &&& final(self).known() == old(self).known() + result->entries@
                        &&& final(self).attempts() == old(self).attempts() + 1
                    },
                }
            }),
    {
        match result {
            FencedAppend::Appended(seq) => Some(Accepted::new(&self.request, seq)),
            FencedAppend::Conflict { entries } => {
                match find_own_cancel(entries.as_slice(), &self.request.cancellation_id) {
                    Some(seq) => Some(Accepted::new(&self.request, seq)),
                    None => {
                        let mut newer = entries;
                        self.entries.append(&mut newer);
                        self.attempts = self.attempts + 1;
                        None
                    },
                }
            },
        }
    }
}

/// What to tell of a request whose append never landed.
pub fn exhausted_message() -> (r: String)
    ensures
        r@ == "session log tail kept moving; interrupt not appended after 16 attempts"@,
{
    String::from_str("session log tail kept moving; interrupt not appended after 16 attempts")
}

/// Who asks for an interrupt: the session that invoked this one, or this client.
pub fn requester_label(
    invocation_id: &Option<String>,
    parent_session_id: &Option<String>,
    client_instance: &str,
) -> (r: String)
    ensures
        r@ == match *invocation_id {
            Some(_) => "parent:"@ + match *parent_session_id {
                Some(parent) => parent@,
                None => Seq::empty(),
            },
            None => "client:"@ + client_instance@,
        },
{
    match invocation_id {
        Some(_) => {
            let mut r = String::from_str("parent:");
            match parent_session_id {
                Some(parent) => {
                    r.append(parent.as_str());
                },
                None => {
                    assert("parent:"@ + Seq::<char>::empty() =~= "parent:"@);
                },
            }
            r
        },
        None => {
            let mut r = String::from_str("client:");
            r.append(client_instance);
            r
        },
    }
}

/// The watch for an interrupt: a failed reading is no answer, but too many in a row are.
#[derive(Clone, Copy, Debug, PartialEq, Eq, Structural)]
pub struct InterruptWatch {
    pub consecutive_failures: usize,
}

/// What the watch does after a reading.
#[derive(Clone, Copy, Debug, PartialEq, Eq, Structural)]
pub enum WatchStep {
    /// Read again after a pause.
    Wait,
    /// The turn was interrupted by the entry at this sequence number.
    Interrupted(u64),
    /// Pass the failure on.
    GiveUp,
}

impl InterruptWatch {
    pub fn new() -> (r: Self)
        ensures
            r.consecutive_failures == 0,
    {
        InterruptWatch { consecutive_failures: 0 }
    }

    /// The log above the prompt was read.
    pub fn read(&mut self, entries: &[(u64, SessionLogEntry)], user_msg_seq: u64) -> (r: WatchStep)
        ensures
            final(self).consecutive_failures == 0,
            r == match interrupted_at(entries@, user_msg_seq) {
                Some(seq) => WatchStep::Interrupted(seq),
                None => WatchStep::Wait,
            },
    {
        self.consecutive_failures = 0;
        match prompt_interrupted_at(entries, user_msg_seq) {
            Some(seq) => WatchStep::Interrupted(seq),
            None => WatchStep::Wait,
        }
    }

    /// The log could not be read.
    pub fn failed(&mut self) -> (r: WatchStep)
        requires
            old(self).consecutive_failures < PROMPT_INTERRUPT_READ_ATTEMPTS,
        ensures
            final(self).consecutive_failures == old(self).consecutive_failures + 1,
            r == if final(self).consecutive_failures >= PROMPT_INTERRUPT_READ_ATTEMPTS {
                WatchStep::GiveUp
            } else {
                WatchStep::Wait
            },
    {
        self.consecutive_failures = self.consecutive_failures + 1;
        if self.consecutive_failures >= PROMPT_INTERRUPT_READ_ATTEMPTS {
            WatchStep::GiveUp
        } else {
            WatchStep::Wait
        }
    }
}

/// An interrupt that was accepted is found again: the next request sees the same entry and
/// appends none of its own.
pub proof fn law_repeated_interrupt_is_idempotent(
    entries: Seq<(u64, SessionLogEntry)>,
    cancel_seq: u64,
    cancel: SessionLogEntry,
)
    requires
        cancel is Cancel,
    ensures
        decision(entries.push((cancel_seq, cancel))) == Some(
            InterruptOutcome::AlreadyInterrupted { cancel_seq },
        ),
{
    let more = entries.push((cancel_seq, cancel));
    assert(more.last() == (cancel_seq, cancel));
    assert(!prompt_behind(more, more.len() - 1));
}

/// A prompt behind the last interrupt starts a turn that can be interrupted again.
pub proof fn law_new_prompt_reopens(
    entries: Seq<(u64, SessionLogEntry)>,
    seq: u64,
    prompt: SessionLogEntry,
)
    requires
        prompt.is_user_message(),
    ensures
        decision(entries.push((seq, prompt))) is None,
{
    let more = entries.push((seq, prompt));
    assert(more.drop_last() =~= entries);
    last_terminator_bounds(entries);
    if let Some(t) = last_terminator(entries) {
        assert(more[entries.len() as int].1.is_user_message());
        assert(prompt_behind(more, t));
    }
}

/// A session whose last entry ends its turn is not appended to.
pub proof fn law_idle_session_is_left_alone(
    entries: Seq<(u64, SessionLogEntry)>,
    seq: u64,
    end: SessionLogEntry,
)
    requires
        end is TurnEnd || end is Error,
    ensures
        decision(entries.push((seq, end))) == Some(InterruptOutcome::Idle),
{
    let more = entries.push((seq, end));
    assert(more.last() == (seq, end));
    assert(!prompt_behind(more, more.len() - 1));
}

proof fn last_terminator_bounds(rows: Seq<(u64, SessionLogEntry)>)
    ensures
        last_terminator(rows) matches Some(t) ==> 0 <= t < rows.len(),
    decreases rows.len(),
{
    if rows.len() > 0 {
        last_terminator_bounds(rows.drop_last());
    }
}

/// A turn is interrupted as long as its prompt stands behind the last end of a turn, whatever the
/// worker has written since.
pub proof fn law_running_turn_is_interrupted(
    log: Seq<(u64, SessionLogEntry)>,
    prompt: (u64, SessionLogEntry),
    more: Seq<(u64, SessionLogEntry)>,
)
    requires
        prompt.1.is_user_message(),
        forall|i: int|
            0 <= i < more.len() ==> !((#[trigger] more[i]).1 is TurnEnd) && !(more[i].1 is Error)
                && !(more[i].1 is Cancel),
    ensures
        decision(log.push(prompt) + more) is None,
{
    let all = log.push(prompt) + more;
    law_last_terminator_has_no_later_one(all);
    if let Some(t) = last_terminator(all) {
        if t > log.len() {
            assert(all[t] == more[t - log.len() - 1]);
        }
        assert(all[log.len() as int] == prompt);
        assert(prompt_behind(all, t));
    }
}

/// Where nothing was asked since the last end of a turn, nothing is appended: an interrupt that
/// ended it is reported at its place, and anything else leaves the session idle.
pub proof fn law_ended_turn_is_not_interrupted_again(
    entries: Seq<(u64, SessionLogEntry)>,
    end: int,
)
    requires
        0 <= end < entries.len(),
        entries[end].1 is TurnEnd || entries[end].1 is Error || entries[end].1 is Cancel,
        forall|i: int|
            end < i < entries.len() ==> !(#[trigger] entries[i]).1.is_user_message() && !(
            entries[i].1 is TurnEnd) && !(entries[i].1 is Error) && !(entries[i].1 is Cancel),
    ensures
        decision(entries) == Some(
            if entries[end].1 is Cancel {
                InterruptOutcome::AlreadyInterrupted { cancel_seq: entries[end].0 }
            } else {
                InterruptOutcome::Idle
            },
        ),
        decision(Seq::<(u64, SessionLogEntry)>::empty()) == Some(InterruptOutcome::Idle),
{
    law_last_terminator_has_no_later_one(entries);
    match last_terminator(entries) {
        Some(t) => {
            if t < end {
                assert(!(entries[end].1 is TurnEnd));
            }
            if end < t {
                assert(!(entries[t].1 is TurnEnd));
            }
            assert(!prompt_behind(entries, end));
        },
        None => {
            assert(!(entries[end].1 is TurnEnd));
        },
    }
}

/// What is known of a log without any end of a turn shows no idle session: it is interrupted.
pub proof fn law_unended_log_is_interrupted(entries: Seq<(u64, SessionLogEntry)>)
    requires
        entries.len() > 0,
        forall|i: int|
            0 <= i < entries.len() ==> !((#[trigger] entries[i]).1 is TurnEnd) && !(
            entries[i].1 is Error) && !(entries[i].1 is Cancel),
    ensures
        decision(entries) is None,
{
    law_last_terminator_has_no_later_one(entries);
    if let Some(t) = last_terminator(entries) {
        assert(!(entries[t].1 is TurnEnd));
    }
}

/// The own interrupt is found by its identifier, at the first place where it stands, and no other
/// interrupt is taken for it.
#[verifier::spinoff_prover]
#[verifier::rlimit(40)]
pub proof fn law_own_interrupt_is_found_by_its_identifier(
    entries: Seq<(u64, SessionLogEntry)>,
    id: Seq<char>,
)
    ensures
        forall|i: int|
            0 <= i < entries.len() && ((#[trigger] entries[i]).1 matches SessionLogEntry::Cancel {
                cancellation_id: Some(own),
                ..
            } && own@ == id) && (forall|j: int|
                0 <= j < i ==> !((#[trigger] entries[j]).1 matches SessionLogEntry::Cancel {
                    cancellation_id: Some(own),
                    ..
                } && own@ == id)) ==> own_cancel(entries, id) == Some(entries[i].0),
        own_cancel(entries, id) is None <==> forall|i: int|
            0 <= i < entries.len() ==> !((#[trigger] entries[i]).1 matches SessionLogEntry::Cancel {
                cancellation_id: Some(own),
                ..
            } && own@ == id),
    decreases entries.len(),
{
    if entries.len() > 0 {
        let t = entries.drop_last();
        let last = entries.len() - 1;
        law_own_interrupt_is_found_by_its_identifier(t, id);
        assert forall|i: int| 0 <= i < t.len() implies #[trigger] t[i] == entries[i] by {}
        assert(entries[last] == entries.last());
        if own_cancel(t, id) is Some {
            let k = choose|k: int|
                0 <= k < t.len() && ((#[trigger] t[k]).1 matches SessionLogEntry::Cancel {
                    cancellation_id: Some(own),
                    ..
                } && own@ == id);
            assert(entries[k] == t[k]);
            assert forall|i: int|
                0 <= i < entries.len() && ((
                #[trigger] entries[i]).1 matches SessionLogEntry::Cancel {
                    cancellation_id: Some(own),
                    ..
                } && own@ == id) && (forall|j: int|
                    0 <= j < i ==> !((#[trigger] entries[j]).1 matches SessionLogEntry::Cancel {
                        cancellation_id: Some(own),
                        ..
                    } && own@ == id)) implies own_cancel(entries, id) == Some(entries[i].0) by {
                if i == last {
                    assert(!(entries[k].1 matches SessionLogEntry::Cancel {
                        cancellation_id: Some(own),
                        ..
                    } && own@ == id));
                }
                assert(t[i] == entries[i]);
            }
        } else {
            assert forall|i: int| 0 <= i < t.len() implies !((
            #[trigger] entries[i]).1 matches SessionLogEntry::Cancel {
                cancellation_id: Some(own),
                ..
            } && own@ == id) by {
                assert(t[i] == entries[i]);
            }
        }
    }
}

} // verus!
