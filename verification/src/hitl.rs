//! Approvals of tool calls: which decision belongs to which request.
//!
//! A tool call identifier can come back in a later round. A decision counts only for the request
//! that it follows, inside the round that asked.
use crate::mutations::{
    apply_log_mutations, effective, mutations_readable, unreadable_at, MutationError,
};
use crate::session_log::{rows_view, Row, SessionLogEntry, ToolCall};
use vstd::prelude::*;
use vstd::slice::slice_subrange;

verus! {

/// Whether one of the calls has this identifier.
pub open spec fn calls_contain(calls: Seq<ToolCall>, id: Seq<char>) -> bool {
    exists|i: int|
        0 <= i < calls.len() && ((#[trigger] calls[i]).id matches Some(own) && own@ == id)
}

/// Whether an entry opens a tool round with this call.
pub open spec fn round_contains(e: SessionLogEntry, id: Seq<char>) -> bool {
    e matches SessionLogEntry::ToolCalls { calls, .. } && calls_contain(calls@, id)
}

/// Whether an entry asks for the approval of this call.
pub open spec fn is_request(e: SessionLogEntry, id: Seq<char>) -> bool {
    e matches SessionLogEntry::HitlApprovalRequested { tool_call_id, .. } && tool_call_id@ == id
}

/// What an entry decides on this call.
pub open spec fn decision_of(e: SessionLogEntry, id: Seq<char>) -> Option<bool> {
    match e {
        SessionLogEntry::HitlApprovalDecision { tool_call_id, approved, .. } => if tool_call_id@
            == id {
            Some(approved)
        } else {
            None
        },
        _ => None,
    }
}

/// Whether an entry ends the tool round before it.
pub open spec fn ends_round(e: SessionLogEntry) -> bool {
    e is ToolCalls || e is ToolResults || e is Cancel || e is Clear
}

/// What to look for among the rows.
pub enum Sought<'t> {
    /// A round with this call.
    Round(&'t str),
    /// A round with this call, at this sequence number.
    RoundAt(&'t str, u64),
    /// A request for this call.
    Request(&'t str),
    /// A request for this call, at this sequence number.
    RequestAt(&'t str, u64),
    /// The end of a round.
    End,
}

impl<'t> Sought<'t> {
    pub open spec fn hits(self, row: (u64, SessionLogEntry)) -> bool {
        match self {
            Sought::Round(id) => round_contains(row.1, id@),
            Sought::RoundAt(id, seq) => row.0 == seq && round_contains(row.1, id@),
            Sought::Request(id) => is_request(row.1, id@),
            Sought::RequestAt(id, seq) => row.0 == seq && is_request(row.1, id@),
            Sought::End => ends_round(row.1),
        }
    }

    fn found(&self, row: Row) -> (r: bool)
        ensures
            r == self.hits((row.0, *row.1)),
    {
        match self {
            Sought::Round(id) => opens_round(row.1, id),
            Sought::RoundAt(id, seq) => row.0 == *seq && opens_round(row.1, id),
            Sought::Request(id) => requests(row.1, id),
            Sought::RequestAt(id, seq) => row.0 == *seq && requests(row.1, id),
            Sought::End => match row.1 {
                SessionLogEntry::ToolCalls { .. }
                | SessionLogEntry::ToolResults { .. }
                | SessionLogEntry::Cancel { .. }
                | SessionLogEntry::Clear => true,
                _ => false,
            },
        }
    }
}

fn has_call(calls: &[ToolCall], id: &str) -> (r: bool)
    ensures
        r == calls_contain(calls@, id@),
{
    let mut i: usize = 0;
    while i < calls.len()
        invariant
            i <= calls@.len(),
            forall|k: int|
                0 <= k < i ==> !((#[trigger] calls@[k]).id matches Some(own) && own@ == id@),
        decreases calls@.len() - i,
    {
        match &calls[i].id {
            Some(own) => {
                if *own.as_str() == *id {
                    assert(calls@[i as int].id matches Some(own) && own@ == id@);
                    return true;
                }
            },
            None => {},
        }
        i += 1;
    }
    false
}

fn opens_round(entry: &SessionLogEntry, id: &str) -> (r: bool)
    ensures
        r == round_contains(*entry, id@),
{
    match entry {
        SessionLogEntry::ToolCalls { calls, .. } => has_call(calls.as_slice(), id),
        _ => false,
    }
}

fn requests(entry: &SessionLogEntry, id: &str) -> (r: bool)
    ensures
        r == is_request(*entry, id@),
{
    match entry {
        SessionLogEntry::HitlApprovalRequested { tool_call_id, .. } => *tool_call_id.as_str()
            == *id,
        _ => false,
    }
}

/// The first row that is sought.
pub open spec fn first_hit(rows: Seq<(u64, SessionLogEntry)>, sought: Sought) -> Option<int>
    decreases rows.len(),
{
    if rows.len() == 0 {
        None
    } else {
        match first_hit(rows.drop_last(), sought) {
            Some(i) => Some(i),
            None => if sought.hits(rows.last()) {
                Some(rows.len() - 1)
            } else {
                None
            },
        }
    }
}

/// The last row that is sought.
pub open spec fn last_hit(rows: Seq<(u64, SessionLogEntry)>, sought: Sought) -> Option<int>
    decreases rows.len(),
{
    if rows.len() == 0 {
        None
    } else if sought.hits(rows.last()) {
        Some(rows.len() - 1)
    } else {
        last_hit(rows.drop_last(), sought)
    }
}

fn find_first(rows: &[Row], sought: &Sought) -> (r: Option<usize>)
    ensures
        match r {
            Some(i) => first_hit(rows_view(rows@), *sought) == Some(i as int) && i < rows@.len() && i
                < usize::MAX,
            None => first_hit(rows_view(rows@), *sought) is None,
        },
{
    let ghost all = rows_view(rows@);
    let mut found: Option<usize> = None;
    let mut i: usize = 0;
    while i < rows.len()
        invariant
            i <= rows@.len(),
            all == rows_view(rows@),
            match found {
                Some(k) => first_hit(all.take(i as int), *sought) == Some(k as int) && k
                    < rows@.len() && k < usize::MAX,
                None => first_hit(all.take(i as int), *sought) is None,
            },
        decreases rows@.len() - i,
    {
        assert(all.take(i + 1).drop_last() =~= all.take(i as int));
        assert(all[i as int] == (rows@[i as int].0, *rows@[i as int].1));
        if found.is_none() && sought.found(rows[i]) {
            found = Some(i);
        }
        i += 1;
    }
    assert(all.take(i as int) =~= all);
    found
}

fn find_last(rows: &[Row], sought: &Sought) -> (r: Option<usize>)
    ensures
        match r {
            Some(i) => last_hit(rows_view(rows@), *sought) == Some(i as int) && i < rows@.len() && i
                < usize::MAX,
            None => last_hit(rows_view(rows@), *sought) is None,
        },
{
    let ghost all = rows_view(rows@);
    let mut i: usize = rows.len();
    assert(all.take(i as int) =~= all);
    while i > 0
        invariant
            i <= rows@.len(),
            all == rows_view(rows@),
            last_hit(all, *sought) == last_hit(all.take(i as int), *sought),
        decreases i,
    {
        assert(all.take(i as int).drop_last() =~= all.take(i - 1));
        assert(all.take(i as int).last() == all[i - 1]);
        assert(all[i - 1] == (rows@[i - 1].0, *rows@[i - 1].1));
        if sought.found(rows[i - 1]) {
            return Some(i - 1);
        }
        i -= 1;
    }
    None
}

/// The rows of a round: what follows it up to its end.
pub open spec fn round_rows(rows: Seq<(u64, SessionLogEntry)>, round: int) -> Seq<
    (u64, SessionLogEntry),
> {
    let rest = rows.skip(round + 1);
    match first_hit(rest, Sought::End) {
        Some(end) => rest.take(end),
        None => rest,
    }
}

fn round_entries<'w, 'a>(rows: &'w [Row<'a>], round: usize) -> (r: &'w [Row<'a>])
    requires
        round < rows@.len(),
    ensures
        rows_view(r@) == round_rows(rows_view(rows@), round as int),
{
    let n: usize = rows.len();
    let rest = slice_subrange(rows, round + 1, n);
    assert(rows_view(rest@) =~= rows_view(rows@).skip(round + 1));
    match find_first(rest, &Sought::End) {
        Some(end) => {
            let cut = slice_subrange(rest, 0, end);
            assert(rows_view(cut@) =~= rows_view(rest@).take(end as int));
            cut
        },
        None => rest,
    }
}

/// The decision that follows a request, before the call is asked about again.
pub open spec fn decision_after(rows: Seq<(u64, SessionLogEntry)>, id: Seq<char>) -> Option<bool>
    decreases rows.len(),
{
    if rows.len() == 0 || is_request(rows[0].1, id) {
        None
    } else {
        match decision_of(rows[0].1, id) {
            Some(approved) => Some(approved),
            None => decision_after(rows.skip(1), id),
        }
    }
}

fn decision_after_request(rows: &[Row], from: usize, id: &str) -> (r: Option<bool>)
    requires
        from <= rows@.len(),
    ensures
        r == decision_after(rows_view(rows@).skip(from as int), id@),
{
    let ghost all = rows_view(rows@);
    let mut i: usize = from;
    while i < rows.len()
        invariant
            from <= i <= rows@.len(),
            all == rows_view(rows@),
            decision_after(all.skip(from as int), id@) == decision_after(all.skip(i as int), id@),
        decreases rows@.len() - i,
    {
        assert(all.skip(i as int)[0] == all[i as int]);
        assert(all[i as int] == (rows@[i as int].0, *rows@[i as int].1));
        assert(all.skip(i as int).skip(1) =~= all.skip(i + 1));
        if requests(rows[i].1, id) {
            return None;
        }
        if let SessionLogEntry::HitlApprovalDecision { tool_call_id, approved, .. } = rows[i].1 {
            if *tool_call_id.as_str() == *id {
                return Some(*approved);
            }
        }
        i += 1;
    }
    None
}

/// A request for approval: the call, the round that holds it, and the request itself.
#[derive(Clone, Copy, Debug)]
pub struct ApprovalRequest<'r> {
    pub tool_call_id: &'r str,
    pub tool_round_seq: u64,
    pub request_seq: u64,
}

impl<'r> ApprovalRequest<'r> {
    /// Whether exactly this request still waits: its round is the last one and has not ended,
    /// and neither a decision nor a newer request for the call follows it.
    pub open spec fn waits(self, rows: Seq<(u64, SessionLogEntry)>) -> bool {
        match last_hit(rows, Sought::End) {
            None => false,
            Some(round) => {
                let rest = rows.skip(round + 1);
                &&& rows[round].0 == self.tool_round_seq
                &&& round_contains(rows[round].1, self.tool_call_id@)
                &&& match last_hit(rest, Sought::Request(self.tool_call_id)) {
                    None => false,
                    Some(q) => rest[q].0 == self.request_seq && decision_after(
                        rest.skip(q + 1),
                        self.tool_call_id@,
                    ) is None,
                }
            },
        }
    }

    /// The decision that this request got, in its own round.
    pub open spec fn decided(self, rows: Seq<(u64, SessionLogEntry)>) -> Option<bool> {
        match first_hit(rows, Sought::RoundAt(self.tool_call_id, self.tool_round_seq)) {
            None => None,
            Some(round) => {
                let rest = round_rows(rows, round);
                match first_hit(rest, Sought::RequestAt(self.tool_call_id, self.request_seq)) {
                    None => None,
                    Some(q) => decision_after(rest.skip(q + 1), self.tool_call_id@),
                }
            },
        }
    }

    fn pending(&self, rows: &[Row]) -> (r: bool)
        ensures
            r == self.waits(rows_view(rows@)),
    {
        let round: usize = match find_last(rows, &Sought::End) {
            Some(round) => round,
            None => {
                return false;
            },
        };
        assert(rows_view(rows@)[round as int] == (rows@[round as int].0, *rows@[round as int].1));
        if rows[round].0 != self.tool_round_seq || !opens_round(rows[round].1, self.tool_call_id) {
            return false;
        }
        let rest = slice_subrange(rows, round + 1, rows.len());
        assert(rows_view(rest@) =~= rows_view(rows@).skip(round + 1));
        match find_last(rest, &Sought::Request(self.tool_call_id)) {
            Some(q) => {
                assert(rows_view(rest@)[q as int] == (rest@[q as int].0, *rest@[q as int].1));
                rest[q].0 == self.request_seq && decision_after_request(
                    rest,
                    q + 1,
                    self.tool_call_id,
                ).is_none()
            },
            None => false,
        }
    }

    fn decision(&self, rows: &[Row]) -> (r: Option<bool>)
        ensures
            r == self.decided(rows_view(rows@)),
    {
        let round: usize = match find_first(
            rows,
            &Sought::RoundAt(self.tool_call_id, self.tool_round_seq),
        ) {
            Some(round) => round,
            None => {
                return None;
            },
        };
        let rest = round_entries(rows, round);
        match find_first(rest, &Sought::RequestAt(self.tool_call_id, self.request_seq)) {
            Some(q) => decision_after_request(rest, q + 1, self.tool_call_id),
            None => None,
        }
    }

    /// Nothing while exactly this request waits; then whether it was decided as `approved`.
    pub fn outcome(&self, entries: &[(u64, SessionLogEntry)], approved: bool) -> (r: Result<
        Option<bool>,
        MutationError,
    >)
        ensures
            r is Ok <==> mutations_readable(entries@),
            r matches Ok(answer) ==> answer == if self.waits(effective(entries@)) {
                None
            } else {
                Some(self.decided(effective(entries@)) == Some(approved))
            },
            r matches Err(MutationError::MalformedReplacement(seq)) ==> exists|i: int|
                unreadable_at(entries@, i) && #[trigger] entries@[i].0 == seq,
    {
        let rows = match apply_log_mutations(entries) {
            Ok(rows) => rows,
            Err(e) => {
                return Err(e);
            },
        };
        if self.pending(rows.as_slice()) {
            return Ok(None);
        }
        let matched: bool = match self.decision(rows.as_slice()) {
            Some(decided) => decided == approved,
            None => false,
        };
        Ok(Some(matched))
    }
}

/// The decision on the latest request for a call in the latest round that holds it.
pub open spec fn latest_decision(rows: Seq<(u64, SessionLogEntry)>, id: &str) -> Option<bool> {
    match last_hit(rows, Sought::Round(id)) {
        None => None,
        Some(round) => {
            let rest = round_rows(rows, round);
            match last_hit(rest, Sought::Request(id)) {
                None => None,
                Some(q) => decision_after(rest.skip(q + 1), id@),
            }
        },
    }
}

/// Whether the call was already decided as `approved`. A newer round or request for the same
/// identifier hides every older decision.
pub fn already_decided(
    entries: &[(u64, SessionLogEntry)],
    tool_call_id: &str,
    approved: bool,
) -> (r: Result<bool, MutationError>)
    ensures
        r is Ok <==> mutations_readable(entries@),
        r matches Ok(answer) ==> answer == (latest_decision(effective(entries@), tool_call_id)
            == Some(approved)),
        r matches Err(MutationError::MalformedReplacement(seq)) ==> exists|i: int|
            unreadable_at(entries@, i) && #[trigger] entries@[i].0 == seq,
{
    let rows = match apply_log_mutations(entries) {
        Ok(rows) => rows,
        Err(e) => {
            return Err(e);
        },
    };
    let round: usize = match find_last(rows.as_slice(), &Sought::Round(tool_call_id)) {
        Some(round) => round,
        None => {
            return Ok(false);
        },
    };
    let rest = round_entries(rows.as_slice(), round);
    match find_last(rest, &Sought::Request(tool_call_id)) {
        Some(q) => match decision_after_request(rest, q + 1, tool_call_id) {
            Some(decided) => Ok(decided == approved),
            None => Ok(false),
        },
        None => Ok(false),
    }
}

/// A new round for the same call hides every decision that was made before.
pub proof fn law_new_round_hides_old_decisions(
    rows: Seq<(u64, SessionLogEntry)>,
    seq: u64,
    round: SessionLogEntry,
    id: &str,
)
    requires
        round_contains(round, id@),
    ensures
        latest_decision(rows.push((seq, round)), id) is None,
{
    let more = rows.push((seq, round));
    let rest = more.skip(rows.len() as int + 1);
    assert(rest =~= Seq::<(u64, SessionLogEntry)>::empty());
    assert(round_rows(more, rows.len() as int) =~= rest);
}

/// What is appended behind the end of a round is no decision for it.
pub proof fn law_late_decision_is_no_evidence(
    rows: Seq<(u64, SessionLogEntry)>,
    late: Seq<(u64, SessionLogEntry)>,
    request: ApprovalRequest,
)
    requires
        first_hit(
            rows,
            Sought::RoundAt(request.tool_call_id, request.tool_round_seq),
        ) matches Some(round) && first_hit(rows.skip(round + 1), Sought::End) is Some,
    ensures
        request.decided(rows + late) == request.decided(rows),
{
    let all = rows + late;
    let round = first_hit(rows, Sought::RoundAt(request.tool_call_id, request.tool_round_seq))->0;
    first_hit_stays(rows, late, Sought::RoundAt(request.tool_call_id, request.tool_round_seq));
    first_hit_bounds(rows, Sought::RoundAt(request.tool_call_id, request.tool_round_seq));
    let rest = rows.skip(round + 1);
    assert(all.skip(round + 1) =~= rest + late);
    first_hit_stays(rest, late, Sought::End);
    first_hit_bounds(rest, Sought::End);
    let end = first_hit(rest, Sought::End)->0;
    assert((rest + late).take(end) =~= rest.take(end));
}

proof fn first_hit_bounds(rows: Seq<(u64, SessionLogEntry)>, sought: Sought)
    ensures
        first_hit(rows, sought) matches Some(i) ==> 0 <= i < rows.len(),
    decreases rows.len(),
{
    if rows.len() > 0 {
        first_hit_bounds(rows.drop_last(), sought);
    }
}

proof fn first_hit_stays(
    rows: Seq<(u64, SessionLogEntry)>,
    more: Seq<(u64, SessionLogEntry)>,
    sought: Sought,
)
    requires
        first_hit(rows, sought) is Some,
    ensures
        first_hit(rows + more, sought) == first_hit(rows, sought),
    decreases more.len(),
{
    if more.len() == 0 {
        assert(rows + more =~= rows);
    } else {
        first_hit_stays(rows, more.drop_last(), sought);
        assert((rows + more).drop_last() =~= rows + more.drop_last());
    }
}

/// Which entries open a round with a call, ask about it, decide on it or end a round.
pub proof fn law_approvals_go_by_the_identifier_of_the_call(e: SessionLogEntry, id: Seq<char>)
    ensures
        round_contains(e, id) <==> (e matches SessionLogEntry::ToolCalls { calls, .. } && exists|
            i: int,
        |
            0 <= i < calls@.len() && ((#[trigger] calls@[i]).id matches Some(own) && own@ == id)),
        is_request(e, id) <==> (e matches SessionLogEntry::HitlApprovalRequested {
            tool_call_id,
            ..
        } && tool_call_id@ == id),
        forall|approved: bool|
            #[trigger] decides(e, id, approved) <==> decision_of(e, id) == Some(approved),
        ends_round(e) <==> e is ToolCalls || e is ToolResults || e is Cancel || e is Clear,
{
}

/// Whether an entry decides on this call in this way.
pub open spec fn decides(e: SessionLogEntry, id: Seq<char>, approved: bool) -> bool {
    e matches SessionLogEntry::HitlApprovalDecision { tool_call_id, approved: own, .. }
        && tool_call_id@ == id && own == approved
}

/// A row is sought by what it does and, where that is said, by its sequence number.
pub proof fn law_rows_are_sought_by_what_they_do(row: (u64, SessionLogEntry), id: &str, seq: u64)
    ensures
        Sought::Round(id).hits(row) <==> round_contains(row.1, id@),
        Sought::RoundAt(id, seq).hits(row) <==> row.0 == seq && round_contains(row.1, id@),
        Sought::Request(id).hits(row) <==> is_request(row.1, id@),
        Sought::RequestAt(id, seq).hits(row) <==> row.0 == seq && is_request(row.1, id@),
        Sought::End.hits(row) <==> ends_round(row.1),
{
}

/// The first row that is sought is one, and none stands before it; there is none exactly where no
/// row is one.
pub proof fn law_first_hit_has_none_before_it(rows: Seq<(u64, SessionLogEntry)>, sought: Sought)
    ensures
        first_hit(rows, sought) matches Some(i) ==> 0 <= i < rows.len() && sought.hits(rows[i])
            && forall|j: int| 0 <= j < i ==> !sought.hits(#[trigger] rows[j]),
        first_hit(rows, sought) is None ==> forall|j: int|
            0 <= j < rows.len() ==> !sought.hits(#[trigger] rows[j]),
    decreases rows.len(),
{
    if rows.len() > 0 {
        let t = rows.drop_last();
        law_first_hit_has_none_before_it(t, sought);
        assert forall|j: int| 0 <= j < t.len() implies #[trigger] rows[j] == t[j] by {}
        assert(rows[rows.len() - 1] == rows.last());
    }
}

/// The last row that is sought is one, and none stands behind it; there is none exactly where no
/// row is one.
pub proof fn law_last_hit_has_none_behind_it(rows: Seq<(u64, SessionLogEntry)>, sought: Sought)
    ensures
        last_hit(rows, sought) matches Some(i) ==> 0 <= i < rows.len() && sought.hits(rows[i])
            && forall|j: int| i < j < rows.len() ==> !sought.hits(#[trigger] rows[j]),
        last_hit(rows, sought) is None ==> forall|j: int|
            0 <= j < rows.len() ==> !sought.hits(#[trigger] rows[j]),
    decreases rows.len(),
{
    if rows.len() > 0 {
        let t = rows.drop_last();
        law_last_hit_has_none_behind_it(t, sought);
        assert forall|j: int| 0 <= j < t.len() implies #[trigger] rows[j] == t[j] by {}
        assert(rows[rows.len() - 1] == rows.last());
    }
}

/// A round holds what follows it up to the first entry that ends it, or all that follows.
pub proof fn law_round_reaches_to_its_end(rows: Seq<(u64, SessionLogEntry)>, round: int)
    requires
        0 <= round < rows.len(),
    ensures
        ({
            let inside = round_rows(rows, round);
            &&& round + inside.len() < rows.len()
            &&& inside == rows.subrange(round + 1, round + 1 + inside.len())
            &&& forall|i: int| 0 <= i < inside.len() ==> !ends_round((#[trigger] inside[i]).1)
            &&& round + 1 + inside.len() < rows.len() ==> ends_round(
                rows[round + 1 + inside.len()].1,
            )
        }),
{
    let rest = rows.skip(round + 1);
    law_first_hit_has_none_before_it(rest, Sought::End);
    let inside = round_rows(rows, round);
    assert forall|i: int| 0 <= i < inside.len() implies !ends_round((#[trigger] inside[i]).1) by {
        assert(inside[i] == rest[i]);
    }
    assert(inside =~= rows.subrange(round + 1, round + 1 + inside.len()));
}

/// The decision behind a request is the first one on the call, as long as the call is not asked
/// about again before it.
#[verifier::spinoff_prover]
#[verifier::rlimit(40)]
pub proof fn law_decision_comes_before_the_next_request(
    rows: Seq<(u64, SessionLogEntry)>,
    id: Seq<char>,
    approved: bool,
)
    ensures
        decision_after(rows, id) == Some(approved) <==> exists|i: int|
            0 <= i < rows.len() && decides((#[trigger] rows[i]).1, id, approved) && forall|j: int|
                0 <= j < i ==> !is_request((#[trigger] rows[j]).1, id) && decision_of(
                    rows[j].1,
                    id,
                ) is None,
    decreases rows.len(),
{
    if rows.len() > 0 {
        let t = rows.skip(1);
        law_decision_comes_before_the_next_request(t, id, approved);
        assert forall|j: int| 0 <= j < t.len() implies #[trigger] t[j] == rows[j + 1] by {}
        let stops = is_request(rows[0].1, id) || decision_of(rows[0].1, id) is Some;
        if decides(rows[0].1, id, approved) {
            assert(rows[0] == rows[0]);
        }
        if !stops && decision_after(t, id) == Some(approved) {
            let i = choose|i: int|
                0 <= i < t.len() && decides((#[trigger] t[i]).1, id, approved) && forall|j: int|
                    0 <= j < i ==> !is_request((#[trigger] t[j]).1, id) && decision_of(
                        t[j].1,
                        id,
                    ) is None;
            assert(rows[i + 1] == t[i]);
            assert forall|j: int| 0 <= j < i + 1 implies !is_request((#[trigger] rows[j]).1, id)
                && decision_of(rows[j].1, id) is None by {
                if j > 0 {
                    assert(t[j - 1] == rows[j]);
                }
            }
        }
        if exists|i: int|
            0 <= i < rows.len() && decides((#[trigger] rows[i]).1, id, approved) && forall|j: int|
                0 <= j < i ==> !is_request((#[trigger] rows[j]).1, id) && decision_of(
                    rows[j].1,
                    id,
                ) is None {
            let i = choose|i: int|
                0 <= i < rows.len() && decides((#[trigger] rows[i]).1, id, approved) && forall|
                    j: int,
                |
                    0 <= j < i ==> !is_request((#[trigger] rows[j]).1, id) && decision_of(
                        rows[j].1,
                        id,
                    ) is None;
            if i > 0 {
                assert(!is_request(rows[0].1, id));
                assert(t[i - 1] == rows[i]);
                assert forall|j: int| 0 <= j < i - 1 implies !is_request((#[trigger] t[j]).1, id)
                    && decision_of(t[j].1, id) is None by {
                    assert(rows[j + 1] == t[j]);
                }
            }
        }
    }
}

/// A request waits exactly where it stands behind the last end of a round, which is its own round
/// with the call in it, and neither another request for the call nor a decision on it follows.
#[verifier::spinoff_prover]
#[verifier::rlimit(40)]
pub proof fn law_request_waits_until_decided_or_replaced(
    rows: Seq<(u64, SessionLogEntry)>,
    request: ApprovalRequest,
    round: int,
    q: int,
)
    requires
        0 <= round < q < rows.len(),
        rows[round].0 == request.tool_round_seq,
        round_contains(rows[round].1, request.tool_call_id@),
        forall|j: int| round < j < rows.len() ==> !ends_round((#[trigger] rows[j]).1),
        rows[q].0 == request.request_seq,
        is_request(rows[q].1, request.tool_call_id@),
        forall|j: int|
            q < j < rows.len() ==> !is_request((#[trigger] rows[j]).1, request.tool_call_id@),
    ensures
        request.waits(rows) <==> forall|j: int|
            q < j < rows.len() ==> decision_of((#[trigger] rows[j]).1, request.tool_call_id@) is None,
{
    let id = request.tool_call_id@;
    law_last_hit_has_none_behind_it(rows, Sought::End);
    assert(ends_round(rows[round].1));
    let at = last_hit(rows, Sought::End)->0;
    assert(last_hit(rows, Sought::End) is Some) by {
        if last_hit(rows, Sought::End) is None {
            assert(!Sought::End.hits(rows[round]));
        }
    }
    if at < round {
        assert(!Sought::End.hits(rows[round]));
    }
    if at > round {
        assert(!ends_round(rows[at].1));
    }
    assert(at == round);
    let rest = rows.skip(round + 1);
    let sought = Sought::Request(request.tool_call_id);
    law_last_hit_has_none_behind_it(rest, sought);
    let own = q - round - 1;
    assert(rest[own] == rows[q]);
    assert(last_hit(rest, sought) is Some) by {
        if last_hit(rest, sought) is None {
            assert(!sought.hits(rest[own]));
        }
    }
    let found = last_hit(rest, sought)->0;
    if found < own {
        assert(!sought.hits(rest[own]));
    }
    if found > own {
        assert(rows[found + round + 1] == rest[found]);
        assert(!is_request(rows[found + round + 1].1, id));
    }
    assert(found == own);
    let tail = rest.skip(own + 1);
    assert forall|k: int| 0 <= k < tail.len() implies #[trigger] tail[k] == rows[q + 1 + k] by {}
    law_decision_comes_before_the_next_request(tail, id, true);
    law_decision_comes_before_the_next_request(tail, id, false);
    if forall|j: int| q < j < rows.len() ==> decision_of((#[trigger] rows[j]).1, id) is None {
        if let Some(approved) = decision_after(tail, id) {
            let i = choose|i: int|
                0 <= i < tail.len() && decides((#[trigger] tail[i]).1, id, approved);
            assert(decision_of(rows[q + 1 + i].1, id) is None);
        }
    } else {
        let j = choose|j: int|
            q < j < rows.len() && !(decision_of((#[trigger] rows[j]).1, id) is None);
        assert(tail[j - q - 1] == rows[j]);
        let i = first_decision(tail, id, j - q - 1);
        let approved = decision_of(tail[i].1, id)->0;
        assert(decides(tail[i].1, id, approved));
        assert forall|k: int| 0 <= k < i implies !is_request((#[trigger] tail[k]).1, id)
            && decision_of(tail[k].1, id) is None by {
            assert(!is_request(rows[q + 1 + k].1, id));
        }
        assert(decision_after(tail, id) == Some(approved));
    }
}

/// The place of the first decision on a call, up to a known one.
proof fn first_decision(rows: Seq<(u64, SessionLogEntry)>, id: Seq<char>, known: int) -> (at: int)
    requires
        0 <= known < rows.len(),
        decision_of(rows[known].1, id) is Some,
    ensures
        0 <= at <= known,
        decision_of(rows[at].1, id) is Some,
        forall|j: int| 0 <= j < at ==> decision_of((#[trigger] rows[j]).1, id) is None,
    decreases known,
{
    if exists|j: int| 0 <= j < known && decision_of((#[trigger] rows[j]).1, id) is Some {
        let j = choose|j: int| 0 <= j < known && decision_of((#[trigger] rows[j]).1, id) is Some;
        first_decision(rows, id, j)
    } else {
        known
    }
}

/// A request that waits stands in the last round of the log, which is its own and holds its call.
pub proof fn law_only_a_request_of_the_open_round_waits(
    rows: Seq<(u64, SessionLogEntry)>,
    request: ApprovalRequest,
)
    requires
        request.waits(rows),
    ensures
        exists|round: int, q: int|
            0 <= round < q < rows.len() && (#[trigger] rows[round]).0 == request.tool_round_seq
                && round_contains(rows[round].1, request.tool_call_id@) && (forall|j: int|
                round < j < rows.len() ==> !ends_round((#[trigger] rows[j]).1)) && (
            #[trigger] rows[q]).0 == request.request_seq && is_request(
                rows[q].1,
                request.tool_call_id@,
            ) && (forall|j: int|
                q < j < rows.len() ==> !is_request(
                    (#[trigger] rows[j]).1,
                    request.tool_call_id@,
                )),
{
    let id = request.tool_call_id@;
    law_last_hit_has_none_behind_it(rows, Sought::End);
    let round = last_hit(rows, Sought::End)->0;
    let rest = rows.skip(round + 1);
    law_last_hit_has_none_behind_it(rest, Sought::Request(request.tool_call_id));
    let own = last_hit(rest, Sought::Request(request.tool_call_id))->0;
    let q = round + 1 + own;
    assert(rows[q] == rest[own]);
    assert forall|j: int| round < j < rows.len() implies !ends_round((#[trigger] rows[j]).1) by {
        assert(!Sought::End.hits(rows[j]));
    }
    assert forall|j: int| q < j < rows.len() implies !is_request((#[trigger] rows[j]).1, id) by {
        assert(rest[j - round - 1] == rows[j]);
    }
    assert(rows[round].0 == request.tool_round_seq);
}

/// The decision that a request got is the one that follows it inside its own round: behind the
/// first round with the call at its place, and behind the first such request in it.
pub proof fn law_request_is_decided_inside_its_round(
    rows: Seq<(u64, SessionLogEntry)>,
    request: ApprovalRequest,
    round: int,
    q: int,
)
    requires
        0 <= round < rows.len(),
        rows[round].0 == request.tool_round_seq && round_contains(
            rows[round].1,
            request.tool_call_id@,
        ),
        forall|j: int|
            0 <= j < round ==> !((#[trigger] rows[j]).0 == request.tool_round_seq
                && round_contains(rows[j].1, request.tool_call_id@)),
        0 <= q < round_rows(rows, round).len(),
        round_rows(rows, round)[q].0 == request.request_seq && is_request(
            round_rows(rows, round)[q].1,
            request.tool_call_id@,
        ),
        forall|j: int|
            0 <= j < q ==> !((#[trigger] round_rows(rows, round)[j]).0 == request.request_seq
                && is_request(round_rows(rows, round)[j].1, request.tool_call_id@)),
    ensures
        request.decided(rows) == decision_after(
            round_rows(rows, round).skip(q + 1),
            request.tool_call_id@,
        ),
{
    let at = Sought::RoundAt(request.tool_call_id, request.tool_round_seq);
    law_first_hit_has_none_before_it(rows, at);
    assert(at.hits(rows[round]));
    if let Some(i) = first_hit(rows, at) {
        assert(at.hits(rows[i]));
        if i < round {
            assert(!at.hits(rows[i]));
        }
    }
    let inside = round_rows(rows, round);
    let asked = Sought::RequestAt(request.tool_call_id, request.request_seq);
    law_first_hit_has_none_before_it(inside, asked);
    assert(asked.hits(inside[q]));
    if let Some(i) = first_hit(inside, asked) {
        assert(asked.hits(inside[i]));
        if i < q {
            assert(!asked.hits(inside[i]));
        }
    }
}

/// Without its round, or without the request in it, nothing was decided.
pub proof fn law_unknown_request_is_not_decided(
    rows: Seq<(u64, SessionLogEntry)>,
    request: ApprovalRequest,
)
    requires
        forall|j: int|
            0 <= j < rows.len() ==> !((#[trigger] rows[j]).0 == request.request_seq && is_request(
                rows[j].1,
                request.tool_call_id@,
            )) || (forall|i: int|
            0 <= i < rows.len() ==> !((#[trigger] rows[i]).0 == request.tool_round_seq
                && round_contains(rows[i].1, request.tool_call_id@))),
    ensures
        request.decided(rows) is None,
{
    let at = Sought::RoundAt(request.tool_call_id, request.tool_round_seq);
    let asked = Sought::RequestAt(request.tool_call_id, request.request_seq);
    law_first_hit_has_none_before_it(rows, at);
    if let Some(round) = first_hit(rows, at) {
        let inside = round_rows(rows, round);
        law_round_reaches_to_its_end(rows, round);
        law_first_hit_has_none_before_it(inside, asked);
        if let Some(q) = first_hit(inside, asked) {
            assert(inside[q] == rows[round + 1 + q]);
            assert(at.hits(rows[round]));
        }
    }
}

/// The latest decision on a call is the one behind the last request in the last round that holds
/// the call, inside that round.
pub proof fn law_latest_decision_follows_the_last_request(
    rows: Seq<(u64, SessionLogEntry)>,
    id: &str,
    round: int,
    q: int,
)
    requires
        0 <= round < rows.len(),
        round_contains(rows[round].1, id@),
        forall|j: int| round < j < rows.len() ==> !round_contains((#[trigger] rows[j]).1, id@),
        0 <= q < round_rows(rows, round).len(),
        is_request(round_rows(rows, round)[q].1, id@),
        forall|j: int|
            q < j < round_rows(rows, round).len() ==> !is_request(
                (#[trigger] round_rows(rows, round)[j]).1,
                id@,
            ),
    ensures
        latest_decision(rows, id) == decision_after(round_rows(rows, round).skip(q + 1), id@),
{
    law_last_hit_has_none_behind_it(rows, Sought::Round(id));
    assert(Sought::Round(id).hits(rows[round]));
    if let Some(i) = last_hit(rows, Sought::Round(id)) {
        assert(Sought::Round(id).hits(rows[i]));
        if i > round {
            assert(!round_contains(rows[i].1, id@));
        }
    }
    let inside = round_rows(rows, round);
    law_last_hit_has_none_behind_it(inside, Sought::Request(id));
    assert(Sought::Request(id).hits(inside[q]));
    if let Some(i) = last_hit(inside, Sought::Request(id)) {
        assert(Sought::Request(id).hits(inside[i]));
        if i > q {
            assert(!is_request(inside[i].1, id@));
        }
    }
}

} // verus!
