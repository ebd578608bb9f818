//! The results of a round of tool calls: which result belongs to which call.
use crate::config::session::{
    ExecutionContextObservation, Message, Session, SessionContent, ToolResult,
};
use crate::config::session_persistence::{
    append_event, require_authoritative_appends, Append, PendingExecutionContextPersistence,
};
use crate::session_log::{MessageContentPart, MessageRole, SessionLogEntry, ToolOutput};
use crate::text::opt_text;
use vstd::prelude::*;
use vstd::string::*;

verus! {

/// The identifiers of the calls of a round.
pub open spec fn call_ids(results: Seq<ToolResult>) -> Seq<Option<Seq<char>>> {
    Seq::new(results.len(), |i: int| opt_text(results[i].call.id))
}

/// The last of the results with an identifier.
pub open spec fn last_with_id(ids: Seq<Option<Seq<char>>>, id: Seq<char>) -> Option<int>
    decreases ids.len(),
{
    if ids.len() == 0 {
        None
    } else if ids.last() == Some(id) {
        Some(ids.len() - 1)
    } else {
        last_with_id(ids.drop_last(), id)
    }
}

/// The places of the results without an identifier, in order.
pub open spec fn without_id(ids: Seq<Option<Seq<char>>>) -> Seq<usize>
    decreases ids.len(),
{
    if ids.len() == 0 {
        Seq::empty()
    } else {
        let before = without_id(ids.drop_last());
        if ids.last() is None {
            before.push((ids.len() - 1) as usize)
        } else {
            before
        }
    }
}

/// Whether the call at `k` takes a result by its identifier: there is such a result, and no call
/// before it has the same identifier.
pub open spec fn takes_by_id(
    slots: Seq<Option<Seq<char>>>,
    ids: Seq<Option<Seq<char>>>,
    k: int,
) -> bool {
    &&& slots[k] matches Some(id)
    &&& last_with_id(ids, id) is Some
    &&& forall|j: int| 0 <= j < k ==> #[trigger] slots[j] != Some(id)
}

/// How many of the first `k` calls look for a result without an identifier.
pub open spec fn positional_before(
    slots: Seq<Option<Seq<char>>>,
    ids: Seq<Option<Seq<char>>>,
    k: int,
) -> nat
    decreases k,
{
    if k <= 0 {
        0
    } else {
        positional_before(slots, ids, k - 1) + if takes_by_id(slots, ids, k - 1) {
            0nat
        } else {
            1nat
        }
    }
}

/// The result that the call at `k` takes: the last one with its identifier, or else the next one
/// without an identifier.
pub open spec fn source_of(
    slots: Seq<Option<Seq<char>>>,
    ids: Seq<Option<Seq<char>>>,
    k: int,
) -> Option<int> {
    if takes_by_id(slots, ids, k) {
        last_with_id(ids, slots[k]->0)
    } else {
        let n = positional_before(slots, ids, k);
        if n < without_id(ids).len() {
            Some(without_id(ids)[n as int] as int)
        } else {
            None
        }
    }
}

/// What the tools of the first `k` calls saw of the places in which they ran.
pub open spec fn seen_by(
    slots: Seq<Option<Seq<char>>>,
    results: Seq<ToolResult>,
    k: int,
) -> Seq<ExecutionContextObservation>
    decreases k,
{
    if k <= 0 {
        Seq::empty()
    } else {
        let before = seen_by(slots, results, k - 1);
        match source_of(slots, call_ids(results), k - 1) {
            Some(i) => match results[i].execution_context {
                Some(o) => before.push(o),
                None => before,
            },
            None => before,
        }
    }
}

/// Whether a call has taken a result: its output, its parts and the agent it switches to. The
/// call itself and the rest stay.
pub open spec fn has_taken(before: ToolResult, source: Option<ToolResult>, after: ToolResult) -> bool {
    match source {
        Some(result) => {
            &&& after.output == result.output
            &&& after.content@ == result.content@
            &&& after.switch_agent == result.switch_agent
            &&& after.sub_agent_progress == result.sub_agent_progress
            &&& after == (ToolResult {
                output: after.output,
                content: after.content,
                switch_agent: after.switch_agent,
                sub_agent_progress: after.sub_agent_progress,
                ..before
            })
        },
        None => after == before,
    }
}

/// The result that the call at `k` takes.
pub open spec fn taken_at(slots: Seq<Option<Seq<char>>>, results: Seq<ToolResult>, k: int) -> Option<
    ToolResult,
> {
    match source_of(slots, call_ids(results), k) {
        Some(i) => Some(results[i]),
        None => None,
    }
}

proof fn last_with_id_bounds(ids: Seq<Option<Seq<char>>>, id: Seq<char>)
    ensures
        last_with_id(ids, id) matches Some(i) ==> 0 <= i < ids.len() && ids[i] == Some(id),
    decreases ids.len(),
{
    if ids.len() > 0 && ids.last() != Some(id) {
        last_with_id_bounds(ids.drop_last(), id);
    }
}

proof fn without_id_bounds(ids: Seq<Option<Seq<char>>>)
    requires
        ids.len() <= usize::MAX,
    ensures
        forall|n: int|
            0 <= n < without_id(ids).len() ==> (#[trigger] without_id(ids)[n]) < ids.len(),
    decreases ids.len(),
{
    if ids.len() > 0 {
        let before = without_id(ids.drop_last());
        without_id_bounds(ids.drop_last());
        assert forall|n: int| 0 <= n < without_id(ids).len() implies (#[trigger] without_id(ids)[n])
            < ids.len() by {
            if n < before.len() {
                assert(without_id(ids)[n] == before[n]);
            }
        }
    }
}

fn same_id(a: &Option<String>, b: &Option<String>) -> (r: bool)
    ensures
        r == (opt_text(*a) == opt_text(*b)),
{
    match (a, b) {
        (Some(x), Some(y)) => *x.as_str() == *y.as_str(),
        (None, None) => true,
        _ => false,
    }
}

fn find_last_with_id(results: &[ToolResult], id: &String) -> (r: Option<usize>)
    ensures
        match r {
            Some(i) => last_with_id(call_ids(results@), id@) == Some(i as int) && i
                < results@.len(),
            None => last_with_id(call_ids(results@), id@) is None,
        },
{
    let ghost ids = call_ids(results@);
    let mut i: usize = results.len();
    assert(ids.take(i as int) =~= ids);
    while i > 0
        invariant
            i <= results@.len(),
            ids == call_ids(results@),
            last_with_id(ids, id@) == last_with_id(ids.take(i as int), id@),
        decreases i,
    {
        assert(ids.take(i as int).drop_last() =~= ids.take(i - 1));
        assert(ids.take(i as int).last() == ids[i - 1]);
        match &results[i - 1].call.id {
            Some(found) => {
                if *found.as_str() == *id.as_str() {
                    return Some(i - 1);
                }
            },
            None => {},
        }
        i -= 1;
    }
    None
}

fn places_without_id(results: &[ToolResult]) -> (r: Vec<usize>)
    ensures
        r@ == without_id(call_ids(results@)),
{
    let ghost ids = call_ids(results@);
    let mut r: Vec<usize> = Vec::new();
    let mut i: usize = 0;
    while i < results.len()
        invariant
            i <= results@.len(),
            ids == call_ids(results@),
            r@ == without_id(ids.take(i as int)),
        decreases results@.len() - i,
    {
        assert(ids.take(i + 1).drop_last() =~= ids.take(i as int));
        assert(ids.take(i + 1).last() == ids[i as int]);
        if results[i].call.id.is_none() {
            r.push(i);
        }
        i += 1;
    }
    assert(ids.take(i as int) =~= ids);
    r
}

/// Finds the result that the call at `k` takes by its identifier.
fn find_by_id(slots: &[ToolResult], results: &[ToolResult], k: usize) -> (r: Option<usize>)
    requires
        k < slots@.len(),
    ensures
        r is Some <==> takes_by_id(call_ids(slots@), call_ids(results@), k as int),
        r matches Some(i) ==> i < results@.len() && last_with_id(
            call_ids(results@),
            call_ids(slots@)[k as int]->0,
        ) == Some(i as int),
{
    let ghost ids = call_ids(slots@);
    match &slots[k].call.id {
        None => None,
        Some(id) => {
            let found: Option<usize> = find_last_with_id(results, id);
            let mut j: usize = 0;
            while j < k
                invariant
                    j <= k < slots@.len(),
                    ids == call_ids(slots@),
                    ids[k as int] == Some(id@),
                    slots@[k as int].call.id == Some(*id),
                    forall|m: int| 0 <= m < j ==> #[trigger] ids[m] != Some(id@),
                decreases k - j,
            {
                if same_id(&slots[j].call.id, &slots[k].call.id) {
                    assert(ids[j as int] == Some(id@));
                    return None;
                }
                assert(ids[j as int] != Some(id@));
                j += 1;
            }
            found
        },
    }
}

fn copy_part(part: &MessageContentPart) -> (r: MessageContentPart)
    ensures
        r == *part,
{
    match part {
        MessageContentPart::Text { text } => MessageContentPart::Text { text: text.clone() },
        MessageContentPart::ImageUrl { url } => MessageContentPart::ImageUrl { url: url.clone() },
    }
}

fn copy_parts(parts: &[MessageContentPart]) -> (r: Vec<MessageContentPart>)
    ensures
        r@ == parts@,
{
    let mut r: Vec<MessageContentPart> = Vec::new();
    let mut i: usize = 0;
    while i < parts.len()
        invariant
            i <= parts@.len(),
            r@ == parts@.take(i as int),
        decreases parts@.len() - i,
    {
        r.push(copy_part(&parts[i]));
        assert(parts@.take(i + 1) =~= parts@.take(i as int).push(parts@[i as int]));
        i += 1;
    }
    assert(parts@.take(i as int) =~= parts@);
    r
}

fn copy_option(s: &Option<String>) -> (r: Option<String>)
    ensures
        r == *s,
{
    match s {
        Some(t) => Some(t.clone()),
        None => None,
    }
}

impl ExecutionContextObservation {
    pub fn copy(&self) -> (r: Self)
        ensures
            r == *self,
    {
        ExecutionContextObservation {
            root: self.root.clone(),
            path: self.path.clone(),
            call_id: copy_option(&self.call_id),
        }
    }
}

fn take_result(slot: ToolResult, result: &ToolResult) -> (r: ToolResult)
    ensures
        has_taken(slot, Some(*result), r),
{
    let mut r = slot;
    r.output = result.output.clone();
    r.content = copy_parts(result.content.as_slice());
    r.switch_agent = copy_option(&result.switch_agent);
    r.sub_agent_progress = match &result.sub_agent_progress {
        Some(p) => Some(p.copy()),
        None => None,
    };
    r
}

/// Gives each call of a round its result: the last one with its identifier, or else the next one
/// without. What the tools saw of the places in which they ran comes along, from the results that
/// were taken and from no others.
pub fn accept_tool_result_replacements(pending: Vec<ToolResult>, results: &[ToolResult]) -> (r: (
    Vec<ToolResult>,
    Vec<ExecutionContextObservation>,
))
    ensures
        r.0@.len() == pending@.len(),
        forall|k: int|
            0 <= k < pending@.len() ==> has_taken(
                pending@[k],
                taken_at(call_ids(pending@), results@, k),
                #[trigger] r.0@[k],
            ),
        r.1@ == seen_by(call_ids(pending@), results@, pending@.len() as int),
{
    let ghost slots = call_ids(pending@);
    let ghost ids = call_ids(results@);
    let free = places_without_id(results);
    let mut plan: Vec<Option<usize>> = Vec::new();
    let mut used: usize = 0;
    let mut k: usize = 0;
    let count: usize = results.len();
    proof {
        without_id_bounds(ids);
    }
    while k < pending.len()
        invariant
            k <= pending@.len(),
            slots == call_ids(pending@),
            ids == call_ids(results@),
            free@ == without_id(ids),
            forall|n: int| 0 <= n < free@.len() ==> (#[trigger] free@[n]) < results@.len(),
            plan@.len() == k,
            used <= k,
            used == positional_before(slots, ids, k as int),
            forall|j: int|
                0 <= j < k ==> match #[trigger] plan@[j] {
                    Some(i) => source_of(slots, ids, j) == Some(i as int) && i < results@.len(),
                    None => source_of(slots, ids, j) is None,
                },
        decreases pending@.len() - k,
    {
        match find_by_id(pending.as_slice(), results, k) {
            Some(i) => {
                plan.push(Some(i));
            },
            None => {
                if used < free.len() {
                    plan.push(Some(free[used]));
                } else {
                    plan.push(None);
                }
                used = used + 1;
            },
        }
        k += 1;
    }
    let mut filled: Vec<ToolResult> = Vec::new();
    let mut seen: Vec<ExecutionContextObservation> = Vec::new();
    for slot in it: pending
        invariant
            it.seq() == pending@,
            filled@.len() == it.index(),
            plan@.len() == pending@.len(),
            slots == call_ids(pending@),
            ids == call_ids(results@),
            forall|j: int|
                0 <= j < plan@.len() ==> match #[trigger] plan@[j] {
                    Some(i) => source_of(slots, ids, j) == Some(i as int) && i < results@.len(),
                    None => source_of(slots, ids, j) is None,
                },
            forall|j: int|
                0 <= j < filled@.len() ==> has_taken(
                    pending@[j],
                    taken_at(slots, results@, j),
                    #[trigger] filled@[j],
                ),
            seen@ == seen_by(slots, results@, it.index()),
    {
        let at: usize = filled.len();
        let ghost before = filled@;
        match plan[at] {
            Some(i) => {
                filled.push(take_result(slot, &results[i]));
                match &results[i].execution_context {
                    Some(o) => {
                        seen.push(o.copy());
                    },
                    None => {},
                }
            },
            None => {
                filled.push(slot);
            },
        }
        assert(seen_by(slots, results@, at + 1) == seen@);
    }
    (filled, seen)
}

/// Why the results of a round were not taken.
#[derive(Debug, PartialEq, Eq)]
pub enum ToolResultsError {
    EmptySession,
    /// The last message is no round of calls.
    NotPending,
    /// The last message is not that of a tool.
    NotATool,
    /// The results were lost on their way to the log.
    NotPersisted(String),
}

impl ToolResultsError {
    pub fn message(&self) -> (r: String)
        ensures
            r@ == match *self {
                ToolResultsError::EmptySession => "add_tool_results called on empty session"@,
                ToolResultsError::NotPending =>
                "add_tool_results called but the last session message is not a pending tool-call turn"@,
                ToolResultsError::NotATool =>
                "add_tool_results called but the last session message is not role=Tool"@,
                ToolResultsError::NotPersisted(e) => e@,
            },
    {
        match self {
            ToolResultsError::EmptySession => String::from_str(
                "add_tool_results called on empty session",
            ),
            ToolResultsError::NotPending => String::from_str(
                "add_tool_results called but the last session message is not a pending tool-call turn",
            ),
            ToolResultsError::NotATool => String::from_str(
                "add_tool_results called but the last session message is not role=Tool",
            ),
            ToolResultsError::NotPersisted(e) => e.clone(),
        }
    }
}

/// Whether this is the entry for the log of a result.
pub open spec fn is_output_of(result: ToolResult, output: ToolOutput) -> bool {
    &&& output.id == result.call.id
    &&& output.name == result.call.name
    &&& output.output == result.output
    &&& output.markdown == result.markdown
    &&& output.content@ == result.content@
    &&& output.switch_agent == result.switch_agent
    &&& output.sub_agent_progress == result.sub_agent_progress
}

/// The entry for the log of the results of a round.
pub fn tool_outputs(results: &[ToolResult]) -> (r: Vec<ToolOutput>)
    ensures
        r@.len() == results@.len(),
        forall|i: int| 0 <= i < results@.len() ==> is_output_of(results@[i], #[trigger] r@[i]),
{
    let mut r: Vec<ToolOutput> = Vec::new();
    let mut i: usize = 0;
    while i < results.len()
        invariant
            i <= results@.len(),
            r@.len() == i,
            forall|j: int| 0 <= j < i ==> is_output_of(results@[j], #[trigger] r@[j]),
        decreases results@.len() - i,
    {
        let result = &results[i];
        r.push(
            ToolOutput {
                id: copy_option(&result.call.id),
                name: result.call.name.clone(),
                output: result.output.clone(),
                markdown: copy_option(&result.markdown),
                content: copy_parts(result.content.as_slice()),
                switch_agent: copy_option(&result.switch_agent),
                sub_agent_progress: match &result.sub_agent_progress {
                    Some(p) => Some(p.copy()),
                    None => None,
                },
            },
        );
        i += 1;
    }
    r
}

/// Why a session cannot take results, if it cannot.
pub open spec fn refuses_results(session: Session) -> Option<ToolResultsError> {
    if session.messages@.len() == 0 {
        Some(ToolResultsError::EmptySession)
    } else if !(session.messages@.last().content is ToolCalls) {
        Some(ToolResultsError::NotPending)
    } else if !(session.messages@.last().role is Tool) {
        Some(ToolResultsError::NotATool)
    } else {
        None
    }
}

/// The results in waiting of the round that a session ends with.
pub open spec fn pending_round(session: Session) -> Seq<ToolResult> {
    session.messages@.last().content->tool_results@
}

/// Whether a session differs from another in the results of the round that both end with, and in
/// nothing else.
pub open spec fn only_round_differs(before: Session, after: Session) -> bool {
    let n = before.messages@.len();
    &&& refuses_results(before) is None
    &&& refuses_results(after) is None
    &&& after.messages@.len() == n
    &&& after.messages@.take(n - 1) == before.messages@.take(n - 1)
    &&& after.messages@.last().log_seq == before.messages@.last().log_seq
    &&& after.messages@.last().content->text == before.messages@.last().content->text
    &&& after == (Session { messages: after.messages, ..before })
    &&& pending_round(after).len() == pending_round(before).len()
}

/// Says why a session cannot take results, if it cannot.
pub fn check_pending_round(session: &Session) -> (r: Result<(), ToolResultsError>)
    ensures
        r == match refuses_results(*session) {
            Some(e) => Err::<(), ToolResultsError>(e),
            None => Ok::<(), ToolResultsError>(()),
        },
{
    let n: usize = session.messages.len();
    if n == 0 {
        return Err(ToolResultsError::EmptySession);
    }
    match &session.messages[n - 1].content {
        SessionContent::ToolCalls { .. } => {},
        _ => {
            return Err(ToolResultsError::NotPending);
        },
    }
    match session.messages[n - 1].role {
        MessageRole::Tool => Ok(()),
        _ => Err(ToolResultsError::NotATool),
    }
}

/// Fills in the results of the round that the session ends with, and hands back what the tools saw
/// of the places in which they ran. The entry for the log is made once images have left the round
/// ([`pending_results_entry`]).
pub fn prepare_tool_results(session: &mut Session, results: &[ToolResult]) -> (r: Result<
    Vec<ExecutionContextObservation>,
    ToolResultsError,
>)
    ensures
        match refuses_results(*old(session)) {
            Some(e) => r == Err::<Vec<ExecutionContextObservation>, ToolResultsError>(e)
                && *final(session) == *old(session),
            None => {
                let before = pending_round(*old(session));
                &&& only_round_differs(*old(session), *final(session))
                &&& forall|k: int|
                    0 <= k < before.len() ==> has_taken(
                        before[k],
                        taken_at(call_ids(before), results@, k),
                        #[trigger] pending_round(*final(session))[k],
                    )
                &&& r matches Ok(seen)
                &&& seen@ == seen_by(call_ids(before), results@, before.len() as int)
            },
        },
{
    match check_pending_round(session) {
        Err(e) => {
            return Err(e);
        },
        Ok(_) => {},
    }
    let n: usize = session.messages.len();
    let ghost all = session.messages@;
    match session.messages.pop() {
        Some(last) => {
            match last.content {
                SessionContent::ToolCalls { text, tool_results } => {
                    let (filled, seen) = accept_tool_result_replacements(tool_results, results);
                    session.messages.push(
                        Message {
                            role: last.role,
                            content: SessionContent::ToolCalls { text, tool_results: filled },
                            log_seq: last.log_seq,
                        },
                    );
                    assert(session.messages@.take(n - 1) =~= all.take(n - 1));
                    Ok(seen)
                },
                _ => Err(ToolResultsError::NotPending),
            }
        },
        None => Err(ToolResultsError::EmptySession),
    }
}

/// The entry for the log of the round that the session ends with, as the round stands.
pub fn pending_results_entry(session: &Session) -> (r: Result<SessionLogEntry, ToolResultsError>)
    ensures
        match refuses_results(*session) {
            Some(e) => r == Err::<SessionLogEntry, ToolResultsError>(e),
            None => {
                let round = pending_round(*session);
                &&& r matches Ok(SessionLogEntry::ToolResults { results })
                &&& results@.len() == round.len()
                &&& forall|k: int|
                    0 <= k < round.len() ==> is_output_of(round[k], #[trigger] results@[k])
            },
        },
{
    match check_pending_round(session) {
        Err(e) => {
            return Err(e);
        },
        Ok(_) => {},
    }
    match &session.messages[session.messages.len() - 1].content {
        SessionContent::ToolCalls { tool_results, .. } => Ok(
            SessionLogEntry::ToolResults { results: tool_outputs(tool_results.as_slice()) },
        ),
        _ => Err(ToolResultsError::NotPending),
    }
}

/// Whether all that a round has for the log stands in it: the results, and the list of stored
/// images where there are any.
pub open spec fn all_appended(answer: Append, images: Option<Append>) -> bool {
    answer is At && (images matches Some(a) ==> a is At)
}

/// How many entries the log has after the entries of a round.
pub open spec fn entries_after(before: usize, answer: Append, images: Option<Append>) -> usize {
    match images {
        Some(Append::At(seq)) => seq as usize,
        _ => match answer {
            Append::At(seq) => seq as usize,
            _ => before,
        },
    }
}

/// Takes the answers of the log to the results of a round and to the list of stored images that
/// follows them, and how many tokens the session has now. A session that lost an entry is marked,
/// and cannot go on where its log is the authority.
pub fn finish_tool_results(
    session: &mut Session,
    answer: &Append,
    images: &Option<Append>,
    log_is_authority: bool,
    seen: Vec<ExecutionContextObservation>,
    tokens: usize,
) -> (r: Result<PendingExecutionContextPersistence, ToolResultsError>)
    ensures
        ({
            let all = all_appended(*answer, *images);
            &&& *final(session) == (Session {
                dirty: old(session).dirty || !all,
                log_entry_count: entries_after(old(session).log_entry_count, *answer, *images),
                tokens: if r is Ok {
                    tokens
                } else {
                    old(session).tokens
                },
                ..*old(session)
            })
            &&& r is Err <==> !all && log_is_authority
            &&& r matches Err(e) ==> e matches ToolResultsError::NotPersisted(m) && m@
                == "failed to durably persist "@ + "tool results"@
            &&& r matches Ok(p) ==> p.is_durable() == all && p.seen() == seen@ && p.id()
                == old(session).id@
        }),
{
    let mut all: bool = append_event(session, answer);
    match images {
        Some(answer) => {
            let listed = append_event(session, answer);
            all = all && listed;
        },
        None => {},
    }
    session.dirty = session.dirty || !all;
    match require_authoritative_appends(all, log_is_authority, "tool results") {
        Err(e) => Err(ToolResultsError::NotPersisted(e)),
        Ok(_) => {
            let pending = PendingExecutionContextPersistence::for_session(session, seen, all);
            session.update_tokens(tokens);
            Ok(pending)
        },
    }
}

/// No result is taken by two calls of a round.
pub proof fn law_result_is_taken_once(
    slots: Seq<Option<Seq<char>>>,
    ids: Seq<Option<Seq<char>>>,
    j: int,
    k: int,
)
    requires
        0 <= j < k < slots.len(),
        ids.len() <= usize::MAX,
        source_of(slots, ids, j) is Some,
    ensures
        source_of(slots, ids, j) != source_of(slots, ids, k),
{
    positional_grows(slots, ids, j, k);
    without_id_bounds(ids);
    without_id_rises(ids);
    if takes_by_id(slots, ids, j) {
        last_with_id_bounds(ids, slots[j]->0);
    }
    if takes_by_id(slots, ids, k) {
        last_with_id_bounds(ids, slots[k]->0);
        assert(slots[j] != slots[k]);
    }
}

proof fn positional_grows(slots: Seq<Option<Seq<char>>>, ids: Seq<Option<Seq<char>>>, j: int, k: int)
    requires
        0 <= j < k,
    ensures
        positional_before(slots, ids, j) <= positional_before(slots, ids, k),
        !takes_by_id(slots, ids, j) ==> positional_before(slots, ids, j) < positional_before(
            slots,
            ids,
            k,
        ),
    decreases k,
{
    if j < k - 1 {
        positional_grows(slots, ids, j, k - 1);
    }
}

/// The places of the results without an identifier rise, and hold such results alone.
proof fn without_id_rises(ids: Seq<Option<Seq<char>>>)
    requires
        ids.len() <= usize::MAX,
    ensures
        forall|m: int, n: int|
            0 <= m < n < without_id(ids).len() ==> (#[trigger] without_id(ids)[m]) < (
            #[trigger] without_id(ids)[n]),
        forall|m: int|
            0 <= m < without_id(ids).len() ==> ids[(#[trigger] without_id(ids)[m]) as int] is None,
    decreases ids.len(),
{
    if ids.len() > 0 {
        let t = ids.drop_last();
        without_id_rises(t);
        without_id_bounds(t);
        let w = without_id(ids);
        let before = without_id(t);
        assert forall|m: int| 0 <= m < w.len() implies ids[(#[trigger] w[m]) as int] is None by {
            if m < before.len() {
                assert(w[m] == before[m]);
                assert(t[before[m] as int] == ids[before[m] as int]);
            }
        }
        assert forall|m: int, n: int| 0 <= m < n < w.len() implies (#[trigger] w[m]) < (
        #[trigger] w[n]) by {
            assert(w[m] == before[m]);
            if n < before.len() {
                assert(w[n] == before[n]);
            }
        }
    }
}

/// Of several results with the identifier of a call, the call takes the last one.
pub proof fn law_last_duplicate_wins(
    slots: Seq<Option<Seq<char>>>,
    ids: Seq<Option<Seq<char>>>,
    k: int,
    i: int,
)
    requires
        0 <= k < slots.len(),
        takes_by_id(slots, ids, k),
        0 <= i < ids.len(),
        ids[i] == slots[k],
    ensures
        source_of(slots, ids, k) matches Some(s) && i <= s,
{
    last_is_last(ids, slots[k]->0, i);
}

proof fn last_is_last(ids: Seq<Option<Seq<char>>>, id: Seq<char>, i: int)
    requires
        0 <= i < ids.len(),
        ids[i] == Some(id),
    ensures
        last_with_id(ids, id) matches Some(s) && i <= s,
    decreases ids.len(),
{
    if ids.last() != Some(id) {
        assert(ids.drop_last()[i] == ids[i]);
        last_is_last(ids.drop_last(), id, i);
    }
}

/// Calls are told by their identifiers, one for one.
pub proof fn law_calls_are_told_by_their_identifiers(results: Seq<ToolResult>)
    ensures
        call_ids(results).len() == results.len(),
        forall|i: int|
            0 <= i < results.len() ==> #[trigger] call_ids(results)[i] == (match results[i].call.id {
                Some(id) => Some(id@),
                None => None,
            }),
{
}

/// The last result with an identifier has it, and none behind it does; there is none exactly where
/// no result has it.
#[verifier::spinoff_prover]
#[verifier::rlimit(40)]
pub proof fn law_last_result_has_none_behind_it(
    ids: Seq<Option<Seq<char>>>,
    id: Seq<char>,
    i: int,
)
    ensures
        last_with_id(ids, id) == Some(i) <==> 0 <= i < ids.len() && ids[i] == Some(id) && forall|
            j: int,
        |
            i < j < ids.len() ==> #[trigger] ids[j] != Some(id),
        last_with_id(ids, id) is None <==> forall|j: int|
            0 <= j < ids.len() ==> #[trigger] ids[j] != Some(id),
    decreases ids.len(),
{
    if ids.len() > 0 {
        let t = ids.drop_last();
        let last = ids.len() - 1;
        law_last_result_has_none_behind_it(t, id, i);
        assert(ids[last] == ids.last());
        assert forall|j: int| 0 <= j < t.len() implies #[trigger] ids[j] == t[j] by {}
        if ids.last() != Some(id) {
            if last_with_id(t, id) is Some {
                let k = choose|k: int| 0 <= k < t.len() && #[trigger] t[k] == Some(id);
                assert(ids[k] == Some(id));
            }
            if last_with_id(t, id) == Some(i) {
                assert forall|j: int| i < j < ids.len() implies #[trigger] ids[j] != Some(id) by {
                    if j < last {
                        assert(t[j] == ids[j]);
                    }
                }
            }
        }
    }
}

/// The places without an identifier are all of them, rising.
pub proof fn law_results_without_identifier_are_all_found(ids: Seq<Option<Seq<char>>>)
    requires
        ids.len() <= usize::MAX,
    ensures
        forall|i: usize|
            #![trigger without_id(ids).contains(i)]
            without_id(ids).contains(i) <==> i < ids.len() && ids[i as int] is None,
        forall|m: int, n: int|
            0 <= m < n < without_id(ids).len() ==> (#[trigger] without_id(ids)[m]) < (
            #[trigger] without_id(ids)[n]),
    decreases ids.len(),
{
    without_id_rises(ids);
    without_id_bounds(ids);
    let w = without_id(ids);
    assert forall|i: usize| #![trigger w.contains(i)] w.contains(i) <==> i < ids.len()
        && ids[i as int] is None by {
        if w.contains(i) {
            let m = choose|m: int| 0 <= m < w.len() && w[m] == i;
            assert(ids[w[m] as int] is None);
        }
        if i < ids.len() && ids[i as int] is None {
            let t = ids.drop_last();
            law_results_without_identifier_are_all_found(t);
            let before = without_id(t);
            if i < t.len() {
                assert(t[i as int] == ids[i as int]);
                assert(before.contains(i));
                let m = choose|m: int| 0 <= m < before.len() && before[m] == i;
                assert(w[m] == i);
            } else {
                assert(w[before.len() as int] == i);
            }
        }
    }
}

/// A call takes a result by its identifier exactly where it has one, some result has it too, and
/// no call before it does.
pub proof fn law_first_call_with_an_identifier_takes_its_result(
    slots: Seq<Option<Seq<char>>>,
    ids: Seq<Option<Seq<char>>>,
    k: int,
)
    requires
        0 <= k < slots.len(),
    ensures
        takes_by_id(slots, ids, k) <==> slots[k] is Some && (exists|i: int|
            0 <= i < ids.len() && #[trigger] ids[i] == slots[k]) && (forall|j: int|
            0 <= j < k ==> #[trigger] slots[j] != slots[k]),
        takes_by_id(slots, ids, k) ==> source_of(slots, ids, k) == last_with_id(ids, slots[k]->0),
{
    if let Some(id) = slots[k] {
        law_last_result_has_none_behind_it(ids, id, 0);
        if last_with_id(ids, id) is Some {
            last_with_id_bounds(ids, id);
            let i = last_with_id(ids, id)->0;
            assert(ids[i] == slots[k]);
        }
    }
}

/// A call that takes no result by identifier takes the next one without an identifier: there are
/// as many such calls before it as results that it passes over.
pub proof fn law_other_calls_take_results_in_order(
    slots: Seq<Option<Seq<char>>>,
    ids: Seq<Option<Seq<char>>>,
    k: int,
)
    requires
        0 <= k < slots.len(),
    ensures
        positional_before(slots, ids, k) == Seq::new(k as nat, |j: int| j).filter(
            |j: int| !takes_by_id(slots, ids, j),
        ).len(),
        !takes_by_id(slots, ids, k) ==> ({
            let n = positional_before(slots, ids, k);
            &&& n < without_id(ids).len() ==> source_of(slots, ids, k) == Some(
                without_id(ids)[n as int] as int,
            )
            &&& n >= without_id(ids).len() ==> source_of(slots, ids, k) is None
        }),
{
    positional_counts(slots, ids, k);
}

proof fn positional_counts(
    slots: Seq<Option<Seq<char>>>,
    ids: Seq<Option<Seq<char>>>,
    k: int,
)
    requires
        0 <= k,
    ensures
        positional_before(slots, ids, k) == Seq::new(k as nat, |j: int| j).filter(
            |j: int| !takes_by_id(slots, ids, j),
        ).len(),
    decreases k,
{
    reveal(Seq::filter);
    if k > 0 {
        positional_counts(slots, ids, k - 1);
        let all = Seq::new(k as nat, |j: int| j);
        assert(all.drop_last() =~= Seq::new((k - 1) as nat, |j: int| j));
        assert(all.last() == k - 1);
    }
}

/// What was seen is what the results say that the calls took, in the order of the calls.
pub proof fn law_observations_follow_the_calls(
    slots: Seq<Option<Seq<char>>>,
    results: Seq<ToolResult>,
    k: int,
)
    requires
        0 <= k,
    ensures
        seen_by(slots, results, 0).len() == 0,
        taken_at(slots, results, k) is None ==> seen_by(slots, results, k + 1) == seen_by(
            slots,
            results,
            k,
        ),
        taken_at(slots, results, k) matches Some(result) ==> seen_by(slots, results, k + 1) == (
        match result.execution_context {
            Some(seen) => seen_by(slots, results, k).push(seen),
            None => seen_by(slots, results, k),
        }),
        source_of(slots, call_ids(results), k) matches Some(i) ==> taken_at(slots, results, k)
            == Some(results[i]),
        source_of(slots, call_ids(results), k) is None ==> taken_at(slots, results, k) is None,
{
}

/// A call that takes a result takes its output, content, switch and report, and keeps its own call,
/// markdown and context; one that takes none stays as it is.
pub proof fn law_taken_result_fills_the_call(
    before: ToolResult,
    source: Option<ToolResult>,
    after: ToolResult,
)
    requires
        has_taken(before, source, after),
    ensures
        source is None ==> after == before,
        source matches Some(result) ==> {
            &&& after.output == result.output
            &&& after.content@ == result.content@
            &&& after.switch_agent == result.switch_agent
            &&& after.sub_agent_progress == result.sub_agent_progress
            &&& after.call == before.call
            &&& after.markdown == before.markdown
            &&& after.execution_context == before.execution_context
        },
{
}

/// What is written down of a result is all that the log keeps of it, under its own call.
pub proof fn law_output_tells_its_result(result: ToolResult, output: ToolOutput)
    ensures
        is_output_of(result, output) <==> output.id == result.call.id && output.name
            == result.call.name && output.output == result.output && output.markdown
            == result.markdown && output.content@ == result.content@ && output.switch_agent
            == result.switch_agent && output.sub_agent_progress == result.sub_agent_progress,
{
}

/// Results are taken only by a last message that is a tool round of a tool.
pub proof fn law_only_a_pending_round_takes_results(session: Session)
    ensures
        refuses_results(session) is None <==> session.messages@.len() > 0
            && session.messages@.last().content is ToolCalls && session.messages@.last().role is Tool,
        refuses_results(session) matches Some(ToolResultsError::EmptySession)
            <==> session.messages@.len() == 0,
        refuses_results(session) matches Some(ToolResultsError::NotPending)
            <==> session.messages@.len() > 0 && !(session.messages@.last().content is ToolCalls),
        refuses_results(session) matches Some(ToolResultsError::NotATool)
            <==> session.messages@.len() > 0 && session.messages@.last().content is ToolCalls && !(
        session.messages@.last().role is Tool),
        session.messages@.len() > 0 ==> (session.messages@.last().content matches
            SessionContent::ToolCalls { tool_results, .. } ==> pending_round(session)
            == tool_results@),
{
}

/// Where only a round differs, every message before it, and all else of the session, is as it was.
pub proof fn law_round_alone_differs(before: Session, after: Session)
    requires
        only_round_differs(before, after),
    ensures
        after.messages@.len() == before.messages@.len(),
        forall|i: int|
            0 <= i < before.messages@.len() - 1 ==> #[trigger] after.messages@[i]
                == before.messages@[i],
        pending_round(after).len() == pending_round(before).len(),
        after.messages@.last().role == before.messages@.last().role,
        after.messages@.last().log_seq == before.messages@.last().log_seq,
        after.messages@.last().content.words() == before.messages@.last().content.words(),
        after.id == before.id && after.model == before.model && after.tokens == before.tokens
            && after.log_entry_count == before.log_entry_count && after.dirty == before.dirty
            && after.title == before.title,
{
    let n = before.messages@.len();
    assert forall|i: int| 0 <= i < n - 1 implies #[trigger] after.messages@[i]
        == before.messages@[i] by {
        assert(after.messages@.take(n - 1)[i] == before.messages@.take(n - 1)[i]);
    }
}

/// Everything is written down where the results are and the images, if there are any. The log then
/// ends at what was written last.
pub proof fn law_log_ends_at_what_was_written_last(before: usize, answer: Append, images: Option<Append>)
    ensures
        all_appended(answer, images) <==> answer is At && (images is None || images->0 is At),
        images matches Some(Append::At(seq)) ==> entries_after(before, answer, images)
            == seq as usize,
        !(images matches Some(Append::At(_))) ==> (answer matches Append::At(seq)
            ==> entries_after(before, answer, images) == seq as usize),
        !(images matches Some(Append::At(_))) && !(answer is At) ==> entries_after(
            before,
            answer,
            images,
        ) == before,
{
}

} // verus!
