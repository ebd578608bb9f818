//! When a prompt counts as answered, and with what.
use crate::mutations::{
    apply_log_mutations, apply_row_mutations, effective, keep_above, mutations_readable, rows_above,
    unreadable_at, MutationError,
};
use crate::session_log::{rows_of, rows_view, Row, SessionLogEntry};
use crate::session_reconstruct::{reconstruct_turn_status, turn_status, TurnStatus};
use crate::text::opt_text;
use vstd::prelude::*;

verus! {

/// Whether a durable prompt still needs a worker.
#[derive(Clone, Copy, Debug, PartialEq, Eq, Structural)]
pub enum RequestedSeqStatus {
    Pending,
    Covered,
}

/// Whether an entry settles the prompt at `requested`: the end of a turn that consumed it, or a
/// failure or an interrupt behind it.
pub open spec fn settles(row: (u64, SessionLogEntry), requested: u64) -> bool {
    match row.1 {
        SessionLogEntry::TurnEnd { through_seq, .. } => through_seq >= requested,
        SessionLogEntry::Error { .. } => row.0 > requested,
        SessionLogEntry::Cancel { .. } => row.0 > requested,
        _ => false,
    }
}

/// Whether some entry of the log settles the prompt.
pub open spec fn is_settled(log: Seq<(u64, SessionLogEntry)>, requested: u64) -> bool {
    exists|i: int| 0 <= i < log.len() && settles(#[trigger] log[i], requested)
}

/// Whether a row stands at this sequence number.
pub open spec fn stands(rows: Seq<(u64, SessionLogEntry)>, seq: u64) -> bool {
    exists|i: int| 0 <= i < rows.len() && (#[trigger] rows[i]).0 == seq
}

/// The status of the prompt at `requested`, given the log and its effective rows. A prompt that
/// was taken out of the log is covered once no work is left in its place.
pub open spec fn request_status(
    log: Seq<(u64, SessionLogEntry)>,
    rows: Seq<(u64, SessionLogEntry)>,
    requested: u64,
) -> RequestedSeqStatus {
    if is_settled(log, requested) {
        RequestedSeqStatus::Covered
    } else if stands(rows, requested) || turn_status(rows) == TurnStatus::InFlight {
        RequestedSeqStatus::Pending
    } else {
        RequestedSeqStatus::Covered
    }
}

fn settles_request(row: &(u64, SessionLogEntry), requested: u64) -> (r: bool)
    ensures
        r == settles(*row, requested),
{
    match &row.1 {
        SessionLogEntry::TurnEnd { through_seq, .. } => *through_seq >= requested,
        SessionLogEntry::Error { .. } | SessionLogEntry::Cancel { .. } => row.0 > requested,
        _ => false,
    }
}

/// The status of a prompt, given the effective rows of the log.
pub fn requested_seq_status_with_effective(
    entries: &[(u64, SessionLogEntry)],
    rows: &[Row],
    requested_seq: u64,
) -> (r: RequestedSeqStatus)
    ensures
        r == request_status(entries@, rows_view(rows@), requested_seq),
{
    let mut i: usize = 0;
    while i < entries.len()
        invariant
            i <= entries@.len(),
            forall|k: int| 0 <= k < i ==> !settles(#[trigger] entries@[k], requested_seq),
        decreases entries@.len() - i,
    {
        if settles_request(&entries[i], requested_seq) {
            return RequestedSeqStatus::Covered;
        }
        i += 1;
    }
    let ghost all = rows_view(rows@);
    let mut j: usize = 0;
    while j < rows.len()
        invariant
            j <= rows@.len(),
            all == rows_view(rows@),
            forall|k: int| 0 <= k < j ==> (#[trigger] all[k]).0 != requested_seq,
            !is_settled(entries@, requested_seq),
        decreases rows@.len() - j,
    {
        assert(all[j as int].0 == rows@[j as int].0);
        if rows[j].0 == requested_seq {
            return RequestedSeqStatus::Pending;
        }
        j += 1;
    }
    match reconstruct_turn_status(rows) {
        TurnStatus::InFlight => RequestedSeqStatus::Pending,
        _ => RequestedSeqStatus::Covered,
    }
}

/// The status of a prompt. Clients and workers share it, so that they cannot disagree on when a
/// turn is over.
pub fn requested_seq_status(entries: &[(u64, SessionLogEntry)], requested_seq: u64) -> (r: Result<
    RequestedSeqStatus,
    MutationError,
>)
    ensures
        r is Ok <==> mutations_readable(entries@),
        r matches Ok(status) ==> status == request_status(
            entries@,
            effective(entries@),
            requested_seq,
        ),
        r matches Err(MutationError::MalformedReplacement(seq)) ==> exists|i: int|
            unreadable_at(entries@, i) && #[trigger] entries@[i].0 == seq,
{
    match apply_log_mutations(entries) {
        Ok(rows) => Ok(
            requested_seq_status_with_effective(entries, rows.as_slice(), requested_seq),
        ),
        Err(e) => Err(e),
    }
}

/// What the last failure behind the prompt says.
pub open spec fn turn_error(log: Seq<(u64, SessionLogEntry)>, user_msg_seq: u64) -> Option<
    Seq<char>,
>
    decreases log.len(),
{
    if log.len() == 0 {
        None
    } else if log.last().0 > user_msg_seq && log.last().1 is Error {
        Some(log.last().1->message@)
    } else {
        turn_error(log.drop_last(), user_msg_seq)
    }
}

/// The words of the last message of the assistant.
pub open spec fn last_answer(rows: Seq<(u64, SessionLogEntry)>) -> Option<Seq<char>>
    decreases rows.len(),
{
    if rows.len() == 0 {
        None
    } else if rows.last().1.is_assistant_message() {
        Some(rows.last().1->content.words())
    } else {
        last_answer(rows.drop_last())
    }
}

/// The answer to the prompt: the last message of the assistant in what effectively follows it.
pub open spec fn final_response(log: Seq<(u64, SessionLogEntry)>, user_msg_seq: u64) -> Option<
    Seq<char>,
> {
    let turn = rows_above(log, user_msg_seq);
    if mutations_readable(turn) {
        last_answer(effective(turn))
    } else {
        None
    }
}

/// The failure that a worker reported for the turn of the prompt.
pub fn extract_turn_error(entries: &[(u64, SessionLogEntry)], user_msg_seq: u64) -> (r: Option<
    String,
>)
    ensures
        opt_text(r) == turn_error(entries@, user_msg_seq),
{
    let mut i: usize = entries.len();
    assert(entries@.take(i as int) =~= entries@);
    while i > 0
        invariant
            i <= entries@.len(),
            turn_error(entries@, user_msg_seq) == turn_error(
                entries@.take(i as int),
                user_msg_seq,
            ),
        decreases i,
    {
        assert(entries@.take(i as int).drop_last() =~= entries@.take(i - 1));
        assert(entries@.take(i as int).last() == entries@[i - 1]);
        if entries[i - 1].0 > user_msg_seq {
            if let SessionLogEntry::Error { message, .. } = &entries[i - 1].1 {
                return Some(message.clone());
            }
        }
        i -= 1;
    }
    None
}

/// The answer to the prompt, if the log holds one.
pub fn extract_final_response(entries: &[(u64, SessionLogEntry)], user_msg_seq: u64) -> (r: Option<
    String,
>)
    ensures
        opt_text(r) == final_response(entries@, user_msg_seq),
{
    let all = rows_of(entries);
    let turn = keep_above(all.as_slice(), user_msg_seq);
    let rows = match apply_row_mutations(turn.as_slice()) {
        Ok(rows) => rows,
        Err(_) => {
            return None;
        },
    };
    let ghost seen = rows_view(rows@);
    let mut i: usize = rows.len();
    assert(seen.take(i as int) =~= seen);
    while i > 0
        invariant
            i <= rows@.len(),
            seen == rows_view(rows@),
            final_response(entries@, user_msg_seq) == last_answer(seen.take(i as int)),
        decreases i,
    {
        assert(seen.take(i as int).drop_last() =~= seen.take(i - 1));
        assert(seen.take(i as int).last() == seen[i - 1]);
        if let SessionLogEntry::Message { role, content, .. } = rows[i - 1].1 {
            if role.is_assistant() {
                return Some(content.to_text());
            }
        }
        i -= 1;
    }
    None
}

/// The answer to the prompt, and the failure that a worker reported for its turn.
pub fn extract_turn_outcome(entries: &[(u64, SessionLogEntry)], user_msg_seq: u64) -> (r: (
    Option<String>,
    Option<String>,
))
    ensures
        opt_text(r.0) == final_response(entries@, user_msg_seq),
        opt_text(r.1) == turn_error(entries@, user_msg_seq),
{
    (
        extract_final_response(entries, user_msg_seq),
        extract_turn_error(entries, user_msg_seq),
    )
}

/// Whether the log holds an answer to the prompt.
pub fn has_durable_assistant_response(entries: &[(u64, SessionLogEntry)], user_msg_seq: u64) -> (r:
    bool)
    ensures
        r == (final_response(entries@, user_msg_seq) is Some),
{
    extract_final_response(entries, user_msg_seq).is_some()
}

/// Whether the turn of the prompt is over as far as a client can see: the prompt is covered, or
/// a worker that writes no end of turn has announced it and the answer stands in the log.
pub open spec fn completion_visible(
    log: Seq<(u64, SessionLogEntry)>,
    user_msg_seq: u64,
    saw_turn_ended: bool,
) -> bool {
    ||| mutations_readable(log) && request_status(log, effective(log), user_msg_seq)
        == RequestedSeqStatus::Covered
    ||| saw_turn_ended && final_response(log, user_msg_seq) is Some
}

/// Whether the turn of the prompt is over, given the effective rows where the caller has them.
pub fn is_turn_completion_visible(
    entries: &[(u64, SessionLogEntry)],
    rows: Option<&[Row]>,
    user_msg_seq: u64,
    saw_turn_ended: bool,
) -> (r: bool)
    ensures
        r == (match rows {
            Some(given) => request_status(entries@, rows_view(given@), user_msg_seq)
                == RequestedSeqStatus::Covered,
            None => mutations_readable(entries@) && request_status(
                entries@,
                effective(entries@),
                user_msg_seq,
            ) == RequestedSeqStatus::Covered,
        } || saw_turn_ended && final_response(entries@, user_msg_seq) is Some),
        rows matches Some(given) && mutations_readable(entries@) && rows_view(given@) == effective(
            entries@,
        ) ==> r == completion_visible(entries@, user_msg_seq, saw_turn_ended),
        rows is None ==> r == completion_visible(entries@, user_msg_seq, saw_turn_ended),
{
    let covered: bool = match rows {
        Some(given) => match requested_seq_status_with_effective(entries, given, user_msg_seq) {
            RequestedSeqStatus::Covered => true,
            RequestedSeqStatus::Pending => false,
        },
        None => match requested_seq_status(entries, user_msg_seq) {
            Ok(RequestedSeqStatus::Covered) => true,
            _ => false,
        },
    };
    covered || (saw_turn_ended && has_durable_assistant_response(entries, user_msg_seq))
}

/// The last message of the user, if there is one.
pub open spec fn last_prompt(rows: Seq<(u64, SessionLogEntry)>) -> Option<u64>
    decreases rows.len(),
{
    if rows.len() == 0 {
        None
    } else if rows.last().1.is_user_message() {
        Some(rows.last().0)
    } else {
        last_prompt(rows.drop_last())
    }
}

/// The sequence number of the last message of the user.
pub fn find_last_prompt(rows: &[Row]) -> (r: Option<u64>)
    ensures
        r == last_prompt(rows_view(rows@)),
{
    let ghost all = rows_view(rows@);
    let mut i: usize = rows.len();
    assert(all.take(i as int) =~= all);
    while i > 0
        invariant
            i <= rows@.len(),
            all == rows_view(rows@),
            last_prompt(all) == last_prompt(all.take(i as int)),
        decreases i,
    {
        assert(all.take(i as int).drop_last() =~= all.take(i - 1));
        assert(all.take(i as int).last() == all[i - 1]);
        if rows[i - 1].1.user_message() {
            return Some(rows[i - 1].0);
        }
        i -= 1;
    }
    None
}

/// The prompt that a client which attaches to a session has to activate again: the last one of
/// the effective log, unless it is covered.
pub fn pending_turn(entries: &[(u64, SessionLogEntry)]) -> (r: Result<Option<u64>, MutationError>)
    ensures
        r is Ok <==> mutations_readable(entries@),
        r matches Ok(seq) ==> seq == match last_prompt(effective(entries@)) {
            Some(s) => if request_status(entries@, effective(entries@), s)
                == RequestedSeqStatus::Pending {
                Some(s)
            } else {
                None
            },
            None => None,
        },
        r matches Err(MutationError::MalformedReplacement(seq)) ==> exists|i: int|
            unreadable_at(entries@, i) && #[trigger] entries@[i].0 == seq,
{
    let rows = match apply_log_mutations(entries) {
        Ok(rows) => rows,
        Err(e) => {
            return Err(e);
        },
    };
    match find_last_prompt(rows.as_slice()) {
        Some(seq) => match requested_seq_status_with_effective(entries, rows.as_slice(), seq) {
            RequestedSeqStatus::Pending => Ok(Some(seq)),
            RequestedSeqStatus::Covered => Ok(None),
        },
        None => Ok(None),
    }
}

/// An entry that settles a prompt settles it for good: what is appended later cannot reopen it.
pub proof fn law_covered_stays_covered(
    log: Seq<(u64, SessionLogEntry)>,
    more: Seq<(u64, SessionLogEntry)>,
    requested: u64,
)
    requires
        is_settled(log, requested),
    ensures
        request_status(log + more, effective(log + more), requested)
            == RequestedSeqStatus::Covered,
{
    let i = choose|i: int| 0 <= i < log.len() && settles(#[trigger] log[i], requested);
    assert((log + more)[i] == log[i]);
}

/// The end of a turn says nothing of a prompt that was queued behind what it consumed.
pub proof fn law_turn_end_leaves_later_prompts(
    log: Seq<(u64, SessionLogEntry)>,
    at: u64,
    end: SessionLogEntry,
    requested: u64,
)
    requires
        end matches SessionLogEntry::TurnEnd { through_seq, .. } && through_seq < requested,
    ensures
        is_settled(log.push((at, end)), requested) == is_settled(log, requested),
{
    let more = log.push((at, end));
    if is_settled(log, requested) {
        let i = choose|i: int| 0 <= i < log.len() && settles(#[trigger] log[i], requested);
        assert(more[i] == log[i]);
    }
    if is_settled(more, requested) {
        let i = choose|i: int| 0 <= i < more.len() && settles(#[trigger] more[i], requested);
        assert(i < log.len());
        assert(more[i] == log[i]);
    }
}

/// A prompt is covered exactly where the log settles it, by the end of a turn that consumed it or
/// by a failure or an interrupt behind it, or where it was taken out of the log and no work is
/// left in its place.
pub proof fn law_prompt_is_covered_exactly_when_settled_or_gone(
    log: Seq<(u64, SessionLogEntry)>,
    rows: Seq<(u64, SessionLogEntry)>,
    requested: u64,
)
    ensures
        (request_status(log, rows, requested) == RequestedSeqStatus::Covered) <==> {
            ||| exists|i: int|
                0 <= i < log.len() && (#[trigger] log[i]).1 is TurnEnd && log[i].1->through_seq
                    >= requested
            ||| exists|i: int|
                0 <= i < log.len() && ((#[trigger] log[i]).1 is Error || log[i].1 is Cancel)
                    && log[i].0 > requested
            ||| (forall|j: int| 0 <= j < rows.len() ==> (#[trigger] rows[j]).0 != requested)
                && turn_status(rows) != TurnStatus::InFlight
        },
{
    if is_settled(log, requested) {
        let i = choose|i: int| 0 <= i < log.len() && settles(#[trigger] log[i], requested);
        assert(log[i].1 is TurnEnd || log[i].1 is Error || log[i].1 is Cancel);
    } else {
        assert forall|i: int| 0 <= i < log.len() implies !((#[trigger] log[i]).1 is TurnEnd
            && log[i].1->through_seq >= requested) && !((log[i].1 is Error || log[i].1 is Cancel)
            && log[i].0 > requested) by {
            assert(!settles(log[i], requested));
        }
    }
}

/// The answer to a prompt holds the words of the last message of the assistant in what
/// effectively follows the prompt, and there is none exactly where no such message is there.
pub proof fn law_answer_is_the_last_message_behind_the_prompt(
    log: Seq<(u64, SessionLogEntry)>,
    user_msg_seq: u64,
)
    ensures
        ({
            let rows = effective(rows_above(log, user_msg_seq));
            &&& mutations_readable(rows_above(log, user_msg_seq)) ==> {
                &&& forall|i: int|
                    0 <= i < rows.len() && (#[trigger] rows[i]).1.is_assistant_message() && (
                    forall|j: int|
                        i < j < rows.len() ==> !(#[trigger] rows[j]).1.is_assistant_message())
                        ==> final_response(log, user_msg_seq) == Some(rows[i].1->content.words())
                &&& final_response(log, user_msg_seq) is None <==> forall|i: int|
                    0 <= i < rows.len() ==> !(#[trigger] rows[i]).1.is_assistant_message()
            }
            &&& !mutations_readable(rows_above(log, user_msg_seq)) ==> final_response(
                log,
                user_msg_seq,
            ) is None
        }),
{
    answer_is_the_last(effective(rows_above(log, user_msg_seq)));
}

proof fn answer_is_the_last(rows: Seq<(u64, SessionLogEntry)>)
    ensures
        forall|i: int|
            0 <= i < rows.len() && (#[trigger] rows[i]).1.is_assistant_message() && (forall|j: int|
                i < j < rows.len() ==> !(#[trigger] rows[j]).1.is_assistant_message())
                ==> last_answer(rows) == Some(rows[i].1->content.words()),
        last_answer(rows) is None <==> forall|i: int|
            0 <= i < rows.len() ==> !(#[trigger] rows[i]).1.is_assistant_message(),
    decreases rows.len(),
{
    if rows.len() > 0 {
        let t = rows.drop_last();
        answer_is_the_last(t);
        assert(rows[rows.len() - 1] == rows.last());
        assert forall|i: int|
            0 <= i < rows.len() && (#[trigger] rows[i]).1.is_assistant_message() && (forall|j: int|
                i < j < rows.len() ==> !(
                #[trigger] rows[j]).1.is_assistant_message()) implies last_answer(rows) == Some(
            rows[i].1->content.words(),
        ) by {
            if i < t.len() {
                assert(t[i] == rows[i]);
                assert forall|j: int| i < j < t.len() implies !(
                #[trigger] t[j]).1.is_assistant_message() by {
                    assert(t[j] == rows[j]);
                }
            }
        }
        if !rows.last().1.is_assistant_message() {
            assert forall|i: int| 0 <= i < t.len() implies (
            #[trigger] t[i]).1.is_assistant_message() == rows[i].1.is_assistant_message() by {}
            if last_answer(rows) is None {
                assert forall|i: int| 0 <= i < rows.len() implies !(
                #[trigger] rows[i]).1.is_assistant_message() by {
                    if i < t.len() {
                        assert(t[i] == rows[i]);
                    }
                }
            } else {
                let i = choose|i: int| 0 <= i < t.len() && (
                #[trigger] t[i]).1.is_assistant_message();
                assert(rows[i] == t[i]);
            }
        }
    }
}

/// The failure of a turn is what the last failure behind its prompt says, and there is none
/// exactly where no failure stands behind it.
pub proof fn law_failure_is_the_last_one_behind_the_prompt(
    log: Seq<(u64, SessionLogEntry)>,
    user_msg_seq: u64,
)
    ensures
        forall|i: int|
            0 <= i < log.len() && (#[trigger] log[i]).0 > user_msg_seq && log[i].1 is Error && (
            forall|j: int|
                i < j < log.len() ==> !((#[trigger] log[j]).0 > user_msg_seq && log[j].1 is Error))
                ==> turn_error(log, user_msg_seq) == Some(log[i].1->message@),
        turn_error(log, user_msg_seq) is None <==> forall|i: int|
            0 <= i < log.len() ==> !((#[trigger] log[i]).0 > user_msg_seq && log[i].1 is Error),
    decreases log.len(),
{
    if log.len() > 0 {
        let t = log.drop_last();
        law_failure_is_the_last_one_behind_the_prompt(t, user_msg_seq);
        assert(log[log.len() - 1] == log.last());
        assert forall|i: int|
            0 <= i < log.len() && (#[trigger] log[i]).0 > user_msg_seq && log[i].1 is Error && (
            forall|j: int|
                i < j < log.len() ==> !((#[trigger] log[j]).0 > user_msg_seq
                    && log[j].1 is Error)) implies turn_error(log, user_msg_seq) == Some(
            log[i].1->message@,
        ) by {
            if i < t.len() {
                assert(t[i] == log[i]);
                assert forall|j: int| i < j < t.len() implies !((#[trigger] t[j]).0 > user_msg_seq
                    && t[j].1 is Error) by {
                    assert(t[j] == log[j]);
                }
            }
        }
        if !(log.last().0 > user_msg_seq && log.last().1 is Error) {
            if turn_error(log, user_msg_seq) is None {
                assert forall|i: int| 0 <= i < log.len() implies !((#[trigger] log[i]).0
                    > user_msg_seq && log[i].1 is Error) by {
                    if i < t.len() {
                        assert(t[i] == log[i]);
                    }
                }
            } else {
                let i = choose|i: int|
                    0 <= i < t.len() && (#[trigger] t[i]).0 > user_msg_seq && t[i].1 is Error;
                assert(log[i] == t[i]);
            }
        }
    }
}

/// A client sees a turn end exactly where the log covers the prompt, or where its worker announced
/// the end and the answer stands in the log.
pub proof fn law_end_is_seen_in_the_log_or_announced_with_an_answer(
    log: Seq<(u64, SessionLogEntry)>,
    user_msg_seq: u64,
)
    ensures
        completion_visible(log, user_msg_seq, false) <==> mutations_readable(log)
            && request_status(log, effective(log), user_msg_seq) == RequestedSeqStatus::Covered,
        final_response(log, user_msg_seq) is Some ==> completion_visible(log, user_msg_seq, true),
        final_response(log, user_msg_seq) is None ==> completion_visible(log, user_msg_seq, true)
            == completion_visible(log, user_msg_seq, false),
{
}

/// The last prompt is the message of the user behind which no other stands, and there is none
/// exactly where the user said nothing.
pub proof fn law_last_prompt_has_no_later_one(rows: Seq<(u64, SessionLogEntry)>)
    ensures
        forall|i: int|
            0 <= i < rows.len() && (#[trigger] rows[i]).1.is_user_message() && (forall|j: int|
                i < j < rows.len() ==> !(#[trigger] rows[j]).1.is_user_message()) ==> last_prompt(
                rows,
            ) == Some(rows[i].0),
        last_prompt(rows) is None <==> forall|i: int|
            0 <= i < rows.len() ==> !(#[trigger] rows[i]).1.is_user_message(),
    decreases rows.len(),
{
    if rows.len() > 0 {
        let t = rows.drop_last();
        law_last_prompt_has_no_later_one(t);
        assert(rows[rows.len() - 1] == rows.last());
        assert forall|i: int|
            0 <= i < rows.len() && (#[trigger] rows[i]).1.is_user_message() && (forall|j: int|
                i < j < rows.len() ==> !(
                #[trigger] rows[j]).1.is_user_message()) implies last_prompt(rows) == Some(
            rows[i].0,
        ) by {
            if i < t.len() {
                assert(t[i] == rows[i]);
                assert forall|j: int| i < j < t.len() implies !(
                #[trigger] t[j]).1.is_user_message() by {
                    assert(t[j] == rows[j]);
                }
            }
        }
        if !rows.last().1.is_user_message() {
            if last_prompt(rows) is None {
                assert forall|i: int| 0 <= i < rows.len() implies !(
                #[trigger] rows[i]).1.is_user_message() by {
                    if i < t.len() {
                        assert(t[i] == rows[i]);
                    }
                }
            } else {
                let i = choose|i: int| 0 <= i < t.len() && (#[trigger] t[i]).1.is_user_message();
                assert(rows[i] == t[i]);
            }
        }
    }
}

} // verus!
