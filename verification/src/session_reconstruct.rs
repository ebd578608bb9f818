//! Where the current turn of a session stands, read from its log.
use crate::session_log::{rows_view, Row, SessionLogEntry};
use vstd::prelude::*;

verus! {

/// Where the current turn stands.
#[derive(Clone, Copy, Debug, PartialEq, Eq, Structural)]
pub enum TurnStatus {
    /// Nothing is asked that has not been answered.
    Idle,
    /// A prompt or a tool round waits for a worker.
    InFlight,
    /// The turn was interrupted by the entry at `cancel_seq` and has not been wound up.
    Interrupted { cancel_seq: u64 },
}

/// The prompt that waits after one more row. The end of a turn leaves a prompt that was queued
/// behind what it consumed.
pub open spec fn waiting_after(waiting: Option<u64>, row: (u64, SessionLogEntry)) -> Option<u64> {
    match row.1 {
        SessionLogEntry::Message { role, .. } => if row.1.is_user_message() {
            Some(row.0)
        } else {
            waiting
        },
        SessionLogEntry::TurnEnd { through_seq, .. } => match waiting {
            Some(p) => if p > through_seq {
                waiting
            } else {
                None
            },
            None => None,
        },
        SessionLogEntry::Cancel { .. } => None,
        SessionLogEntry::Error { .. } => None,
        SessionLogEntry::Clear => None,
        _ => waiting,
    }
}

/// The last prompt of the effective rows, if the end of no turn has settled it.
pub open spec fn waiting_prompt(rows: Seq<(u64, SessionLogEntry)>) -> Option<u64>
    decreases rows.len(),
{
    if rows.len() == 0 {
        None
    } else {
        waiting_after(waiting_prompt(rows.drop_last()), rows.last())
    }
}

/// What one more row makes of the status, given the prompt that waits after it.
pub open spec fn status_after(
    status: TurnStatus,
    waiting: Option<u64>,
    row: (u64, SessionLogEntry),
) -> TurnStatus {
    match row.1 {
        SessionLogEntry::Message { role, .. } => if row.1.is_user_message() {
            TurnStatus::InFlight
        } else if row.1.is_assistant_message() {
            TurnStatus::Idle
        } else {
            status
        },
        SessionLogEntry::ToolCalls { .. } => TurnStatus::InFlight,
        SessionLogEntry::ToolResults { .. } => TurnStatus::InFlight,
        SessionLogEntry::Cancel { .. } => match status {
            TurnStatus::InFlight => TurnStatus::Interrupted { cancel_seq: row.0 },
            _ => status,
        },
        SessionLogEntry::TurnEnd { .. } => if waiting is Some {
            TurnStatus::InFlight
        } else {
            TurnStatus::Idle
        },
        SessionLogEntry::Error { .. } => TurnStatus::Idle,
        SessionLogEntry::Clear => TurnStatus::Idle,
        _ => status,
    }
}

/// Where the current turn of the effective rows stands.
pub open spec fn turn_status(rows: Seq<(u64, SessionLogEntry)>) -> TurnStatus
    decreases rows.len(),
{
    if rows.len() == 0 {
        TurnStatus::Idle
    } else {
        status_after(turn_status(rows.drop_last()), waiting_prompt(rows), rows.last())
    }
}

fn next_waiting(waiting: Option<u64>, seq: u64, entry: &SessionLogEntry) -> (r: Option<u64>)
    ensures
        r == waiting_after(waiting, (seq, *entry)),
{
    match entry {
        SessionLogEntry::Message { role, .. } => if role.is_user() {
            Some(seq)
        } else {
            waiting
        },
        SessionLogEntry::TurnEnd { through_seq, .. } => match waiting {
            Some(p) => if p > *through_seq {
                waiting
            } else {
                None
            },
            None => None,
        },
        SessionLogEntry::Cancel { .. } | SessionLogEntry::Error { .. } | SessionLogEntry::Clear =>
        None,
        _ => waiting,
    }
}

fn next_status(
    status: TurnStatus,
    waiting: Option<u64>,
    seq: u64,
    entry: &SessionLogEntry,
) -> (r: TurnStatus)
    ensures
        r == status_after(status, waiting, (seq, *entry)),
{
    match entry {
        SessionLogEntry::Message { role, .. } => if role.is_user() {
            TurnStatus::InFlight
        } else if role.is_assistant() {
            TurnStatus::Idle
        } else {
            status
        },
        SessionLogEntry::ToolCalls { .. } | SessionLogEntry::ToolResults { .. } =>
        TurnStatus::InFlight,
        SessionLogEntry::Cancel { .. } => match status {
            TurnStatus::InFlight => TurnStatus::Interrupted { cancel_seq: seq },
            _ => status,
        },
        SessionLogEntry::TurnEnd { .. } => if waiting.is_some() {
            TurnStatus::InFlight
        } else {
            TurnStatus::Idle
        },
        SessionLogEntry::Error { .. } | SessionLogEntry::Clear => TurnStatus::Idle,
        _ => status,
    }
}

/// Where the current turn of the effective rows stands.
pub fn reconstruct_turn_status(rows: &[Row]) -> (r: TurnStatus)
    ensures
        r == turn_status(rows_view(rows@)),
{
    let ghost all = rows_view(rows@);
    let mut status = TurnStatus::Idle;
    let mut waiting: Option<u64> = None;
    let mut i: usize = 0;
    while i < rows.len()
        invariant
            i <= rows@.len(),
            all == rows_view(rows@),
            waiting == waiting_prompt(all.take(i as int)),
            status == turn_status(all.take(i as int)),
        decreases rows@.len() - i,
    {
        assert(all.take(i + 1).drop_last() =~= all.take(i as int));
        assert(all[i as int] == (rows@[i as int].0, *rows@[i as int].1));
        waiting = next_waiting(waiting, rows[i].0, rows[i].1);
        status = next_status(status, waiting, rows[i].0, rows[i].1);
        i += 1;
    }
    assert(all.take(i as int) =~= all);
    status
}

/// A prompt that was queued behind what a turn consumed is still in flight when the turn ends.
pub proof fn law_queued_prompt_stays_in_flight(
    rows: Seq<(u64, SessionLogEntry)>,
    at: u64,
    end: SessionLogEntry,
)
    requires
        waiting_prompt(rows) is Some,
        end matches SessionLogEntry::TurnEnd { through_seq, .. } && through_seq
            < waiting_prompt(rows)->0,
    ensures
        turn_status(rows.push((at, end))) is InFlight,
        waiting_prompt(rows.push((at, end))) == waiting_prompt(rows),
{
    assert(rows.push((at, end)).drop_last() =~= rows);
}

/// An entry that ends a turn.
pub open spec fn is_terminator(e: SessionLogEntry) -> bool {
    e is TurnEnd || e is Error || e is Cancel
}

pub fn terminator(e: &SessionLogEntry) -> (r: bool)
    ensures
        r == is_terminator(*e),
{
    match e {
        SessionLogEntry::TurnEnd { .. }
        | SessionLogEntry::Error { .. }
        | SessionLogEntry::Cancel { .. } => true,
        _ => false,
    }
}

/// The last entry that ends a turn, if there is one.
pub open spec fn last_terminator(rows: Seq<(u64, SessionLogEntry)>) -> Option<int>
    decreases rows.len(),
{
    if rows.len() == 0 {
        None
    } else if is_terminator(rows.last().1) {
        Some(rows.len() - 1)
    } else {
        last_terminator(rows.drop_last())
    }
}

/// Finds the last entry that ends a turn.
pub fn find_last_terminator(entries: &[(u64, SessionLogEntry)]) -> (r: Option<usize>)
    ensures
        match r {
            Some(i) => last_terminator(entries@) == Some(i as int) && i < entries@.len(),
            None => last_terminator(entries@) is None,
        },
{
    let mut i: usize = entries.len();
    assert(entries@.take(i as int) =~= entries@);
    while i > 0
        invariant
            i <= entries@.len(),
            last_terminator(entries@) == last_terminator(entries@.take(i as int)),
        decreases i,
    {
        assert(entries@.take(i as int).drop_last() =~= entries@.take(i - 1));
        assert(entries@.take(i as int).last() == entries@[i - 1]);
        if terminator(&entries[i - 1].1) {
            return Some(i - 1);
        }
        i -= 1;
    }
    None
}

/// Whether an entry behind the prompt ends the turn that the prompt started.
pub open spec fn ends_prompt(row: (u64, SessionLogEntry), prompt_seq: u64) -> bool {
    row.0 > prompt_seq && match row.1 {
        SessionLogEntry::Cancel { .. } => true,
        SessionLogEntry::Error { .. } => true,
        SessionLogEntry::TurnEnd { through_seq, .. } => through_seq >= prompt_seq,
        _ => false,
    }
}

/// The interrupt that ended the turn of a prompt, if that is how it ended. An interrupt at or
/// below the prompt belongs to an earlier turn.
pub open spec fn interrupted_at(rows: Seq<(u64, SessionLogEntry)>, prompt_seq: u64) -> Option<u64>
    decreases rows.len(),
{
    if rows.len() == 0 {
        None
    } else if ends_prompt(rows[0], prompt_seq) {
        if rows[0].1 is Cancel {
            Some(rows[0].0)
        } else {
            None
        }
    } else {
        interrupted_at(rows.subrange(1, rows.len() as int), prompt_seq)
    }
}

/// The interrupt that ended the turn of a prompt, if that is how it ended.
pub fn prompt_interrupted_at(entries: &[(u64, SessionLogEntry)], prompt_seq: u64) -> (r: Option<
    u64,
>)
    ensures
        r == interrupted_at(entries@, prompt_seq),
{
    let mut i: usize = 0;
    let ghost n = entries@.len() as int;
    assert(entries@.subrange(0, n) =~= entries@);
    while i < entries.len()
        invariant
            i <= entries@.len(),
            n == entries@.len(),
            interrupted_at(entries@, prompt_seq) == interrupted_at(
                entries@.subrange(i as int, n),
                prompt_seq,
            ),
        decreases entries@.len() - i,
    {
        let ghost rest = entries@.subrange(i as int, n);
        assert(rest[0] == entries@[i as int]);
        assert(rest.subrange(1, rest.len() as int) =~= entries@.subrange(i + 1, n));
        if entries[i].0 > prompt_seq {
            match &entries[i].1 {
                SessionLogEntry::Cancel { .. } => {
                    return Some(entries[i].0);
                },
                SessionLogEntry::Error { .. } => {
                    return None;
                },
                SessionLogEntry::TurnEnd { through_seq, .. } => {
                    if *through_seq >= prompt_seq {
                        return None;
                    }
                },
                _ => {},
            }
        }
        i += 1;
    }
    None
}

/// A prompt, and every step of a tool round, leaves the turn in flight.
pub proof fn law_work_leaves_the_turn_in_flight(
    rows: Seq<(u64, SessionLogEntry)>,
    row: (u64, SessionLogEntry),
)
    requires
        row.1.is_user_message() || row.1 is ToolCalls || row.1 is ToolResults,
    ensures
        turn_status(rows.push(row)) == TurnStatus::InFlight,
{
    assert(rows.push(row).drop_last() =~= rows);
}

/// An answer, a failure and a clearing leave nothing to be done.
pub proof fn law_answer_failure_and_clearing_leave_the_session_idle(
    rows: Seq<(u64, SessionLogEntry)>,
    row: (u64, SessionLogEntry),
)
    requires
        row.1.is_assistant_message() || row.1 is Error || row.1 is Clear,
    ensures
        turn_status(Seq::<(u64, SessionLogEntry)>::empty()) == TurnStatus::Idle,
        turn_status(rows.push(row)) == TurnStatus::Idle,
{
    assert(rows.push(row).drop_last() =~= rows);
}

/// An interrupt stops a turn in flight at its own place, and is nothing to a session without one.
pub proof fn law_interrupt_stops_a_turn_in_flight(
    rows: Seq<(u64, SessionLogEntry)>,
    row: (u64, SessionLogEntry),
)
    requires
        row.1 is Cancel,
    ensures
        turn_status(rows.push(row)) == if turn_status(rows) == TurnStatus::InFlight {
            TurnStatus::Interrupted { cancel_seq: row.0 }
        } else {
            turn_status(rows)
        },
{
    assert(rows.push(row).drop_last() =~= rows);
}

/// What neither speaks, works nor ends a turn says nothing of where the turn stands.
pub proof fn law_other_entries_leave_the_status(
    rows: Seq<(u64, SessionLogEntry)>,
    row: (u64, SessionLogEntry),
)
    requires
        !row.1.is_user_message(),
        !row.1.is_assistant_message(),
        !(row.1 is ToolCalls),
        !(row.1 is ToolResults),
        !(row.1 is Cancel),
        !(row.1 is TurnEnd),
        !(row.1 is Error),
        !(row.1 is Clear),
    ensures
        turn_status(rows.push(row)) == turn_status(rows),
{
    assert(rows.push(row).drop_last() =~= rows);
}

/// The prompt that waits is the last one, unless something behind it has settled it: an
/// interrupt, a failure, a clearing, or the end of a turn that consumed it.
pub proof fn law_last_prompt_waits_until_it_is_settled(
    rows: Seq<(u64, SessionLogEntry)>,
    at: int,
)
    requires
        0 <= at < rows.len(),
        rows[at].1.is_user_message(),
        forall|j: int| at < j < rows.len() ==> !(#[trigger] rows[j]).1.is_user_message(),
    ensures
        waiting_prompt(rows) == if forall|j: int|
            at < j < rows.len() ==> {
                &&& !((#[trigger] rows[j]).1 is Cancel)
                &&& !(rows[j].1 is Error)
                &&& !(rows[j].1 is Clear)
                &&& rows[j].1 is TurnEnd ==> rows[j].1->through_seq < rows[at].0
            } {
            Some(rows[at].0)
        } else {
            None
        },
    decreases rows.len(),
{
    let t = rows.drop_last();
    let last = rows.len() - 1;
    assert(rows[last] == rows.last());
    if at < last {
        assert(t[at] == rows[at]);
        assert forall|j: int| at < j < t.len() implies !(#[trigger] t[j]).1.is_user_message() by {
            assert(t[j] == rows[j]);
        }
        law_last_prompt_waits_until_it_is_settled(t, at);
        assert(!rows[last].1.is_user_message());
        let open_before = forall|j: int|
            at < j < t.len() ==> {
                &&& !((#[trigger] t[j]).1 is Cancel)
                &&& !(t[j].1 is Error)
                &&& !(t[j].1 is Clear)
                &&& t[j].1 is TurnEnd ==> t[j].1->through_seq < t[at].0
            };
        if !open_before {
            let j = choose|j: int|
                at < j < t.len() && !({
                    &&& !((#[trigger] t[j]).1 is Cancel)
                    &&& !(t[j].1 is Error)
                    &&& !(t[j].1 is Clear)
                    &&& t[j].1 is TurnEnd ==> t[j].1->through_seq < t[at].0
                });
            assert(rows[j] == t[j]);
        } else {
            assert forall|j: int| at < j < last implies {
                &&& !((#[trigger] rows[j]).1 is Cancel)
                &&& !(rows[j].1 is Error)
                &&& !(rows[j].1 is Clear)
                &&& rows[j].1 is TurnEnd ==> rows[j].1->through_seq < rows[at].0
            } by {
                assert(t[j] == rows[j]);
            }
        }
    }
}

/// Without a message of the user nothing waits.
pub proof fn law_silence_waits_for_nothing(rows: Seq<(u64, SessionLogEntry)>)
    requires
        forall|j: int| 0 <= j < rows.len() ==> !(#[trigger] rows[j]).1.is_user_message(),
    ensures
        waiting_prompt(rows) is None,
    decreases rows.len(),
{
    if rows.len() > 0 {
        let t = rows.drop_last();
        assert forall|j: int| 0 <= j < t.len() implies !(#[trigger] t[j]).1.is_user_message() by {
            assert(t[j] == rows[j]);
        }
        law_silence_waits_for_nothing(t);
        assert(!rows[rows.len() - 1].1.is_user_message());
    }
}

/// The end of a turn leaves the session idle, unless a prompt still waits behind what the turn
/// consumed.
pub proof fn law_end_of_turn_leaves_only_what_waits(
    rows: Seq<(u64, SessionLogEntry)>,
    at: u64,
    end: SessionLogEntry,
)
    requires
        end is TurnEnd,
    ensures
        turn_status(rows.push((at, end))) == if waiting_prompt(rows) matches Some(p) && p
            > end->through_seq {
            TurnStatus::InFlight
        } else {
            TurnStatus::Idle
        },
{
    assert(rows.push((at, end)).drop_last() =~= rows);
}

/// The last end of a turn is the end of a turn, a failure or an interrupt behind which no other
/// stands; there is none exactly where the log holds none of them.
pub proof fn law_last_terminator_has_no_later_one(rows: Seq<(u64, SessionLogEntry)>)
    ensures
        last_terminator(rows) matches Some(t) ==> {
            &&& 0 <= t < rows.len()
            &&& rows[t].1 is TurnEnd || rows[t].1 is Error || rows[t].1 is Cancel
            &&& forall|j: int|
                t < j < rows.len() ==> !((#[trigger] rows[j]).1 is TurnEnd) && !(
                rows[j].1 is Error) && !(rows[j].1 is Cancel)
        },
        last_terminator(rows) is None ==> forall|j: int|
            0 <= j < rows.len() ==> !((#[trigger] rows[j]).1 is TurnEnd) && !(rows[j].1 is Error)
                && !(rows[j].1 is Cancel),
    decreases rows.len(),
{
    if rows.len() > 0 {
        let t = rows.drop_last();
        law_last_terminator_has_no_later_one(t);
        assert(rows[rows.len() - 1] == rows.last());
        if !is_terminator(rows.last().1) {
            let from = match last_terminator(rows) {
                Some(k) => k,
                None => -1,
            };
            assert forall|j: int| from < j < rows.len() && 0 <= j implies !((
            #[trigger] rows[j]).1 is TurnEnd) && !(rows[j].1 is Error) && !(rows[j].1 is Cancel) by {
                if j < t.len() {
                    assert(t[j] == rows[j]);
                }
            }
        }
    }
}

/// A prompt was interrupted exactly where the first entry behind it that ends its turn is an
/// interrupt, and then at that place. The end of a turn that did not consume the prompt ends
/// another one.
pub proof fn law_interrupt_counts_if_it_ends_the_turn_first(
    rows: Seq<(u64, SessionLogEntry)>,
    prompt_seq: u64,
    at: int,
)
    requires
        0 <= at < rows.len(),
        rows[at].0 > prompt_seq,
        rows[at].1 is Cancel || rows[at].1 is Error || (rows[at].1 is TurnEnd
            && rows[at].1->through_seq >= prompt_seq),
        forall|j: int|
            0 <= j < at && (#[trigger] rows[j]).0 > prompt_seq ==> !(rows[j].1 is Cancel) && !(
            rows[j].1 is Error) && (rows[j].1 is TurnEnd ==> rows[j].1->through_seq < prompt_seq),
    ensures
        interrupted_at(rows, prompt_seq) == if rows[at].1 is Cancel {
            Some(rows[at].0)
        } else {
            None
        },
    decreases rows.len(),
{
    if at > 0 {
        let rest = rows.subrange(1, rows.len() as int);
        assert(!ends_prompt(rows[0], prompt_seq));
        assert(rest[at - 1] == rows[at]);
        assert forall|j: int| 0 <= j < at - 1 && (#[trigger] rest[j]).0 > prompt_seq implies !(
        rest[j].1 is Cancel) && !(rest[j].1 is Error) && (rest[j].1 is TurnEnd
            ==> rest[j].1->through_seq < prompt_seq) by {
            assert(rest[j] == rows[j + 1]);
        }
        law_interrupt_counts_if_it_ends_the_turn_first(rest, prompt_seq, at - 1);
    }
}

/// A prompt behind which nothing ends its turn was not interrupted.
pub proof fn law_running_turn_was_not_interrupted(
    rows: Seq<(u64, SessionLogEntry)>,
    prompt_seq: u64,
)
    requires
        forall|j: int|
            0 <= j < rows.len() && (#[trigger] rows[j]).0 > prompt_seq ==> !(rows[j].1 is Cancel),
    ensures
        interrupted_at(rows, prompt_seq) is None,
    decreases rows.len(),
{
    if rows.len() > 0 {
        let rest = rows.subrange(1, rows.len() as int);
        assert(!(rows[0].0 > prompt_seq && rows[0].1 is Cancel));
        assert forall|j: int| 0 <= j < rest.len() && (#[trigger] rest[j]).0 > prompt_seq implies !(
        rest[j].1 is Cancel) by {
            assert(rest[j] == rows[j + 1]);
        }
        law_running_turn_was_not_interrupted(rest, prompt_seq);
    }
}

} // verus!
