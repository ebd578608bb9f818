//! Rendering: log entries and advisories as events, each row numbered once.
use crate::events::{
    block_texts, emit, emit_seq, event_view, events_view, no_usage, AgentEvent, CompletionTokenUsage,
    ContentBlock, EventView, ModelEvent, NoticeEvent, SessionEvent, ToolEvent, ToolKind, UserEvent,
};
use crate::nats_event_sink::{AdvisoryEnvelope, Attachment, LiveEventState};
use crate::session_log::{
    rows_view, MessageContent, MessageRole, Row, SessionLogEntry, ToolCall, ToolOutput,
};
use crate::text::{opt_text, texts};
use crate::window::{
    active_context_window, at_seq, headed_context_window, headed_window_of, last_boundary, places,
    user_at_seq, window_of, ActiveContextWindow,
};
#[allow(unused_imports)]
use crate::window::{last_boundary_bounds, law_places_are_those_of_accepted_rows};
use std::collections::{HashSet, VecDeque};
use vstd::prelude::*;
use vstd::string::*;

verus! {

broadcast use {vstd::std_specs::hash::group_hash_axioms, vstd::string::group_string_axioms};

/// How rows are numbered.
#[derive(Clone, Copy, Debug, PartialEq, Eq, Structural)]
pub enum Numbering {
    /// Metadata lives outside the transcript: every log can be numbered from its first row.
    Transcript,
    /// The log opens with a header, which a worker puts in: until then there are no numbers.
    Headed,
}

/// The identifier, or nothing.
pub open spec fn id_or_empty(id: Option<String>) -> Seq<char> {
    match id {
        Some(t) => t@,
        None => Seq::empty(),
    }
}

fn id_text(id: &Option<String>) -> (r: String)
    ensures
        r@ == id_or_empty(*id),
{
    match id {
        Some(t) => t.clone(),
        None => String::new(),
    }
}

/// The events of a message.
pub open spec fn message_events(role: MessageRole, content: MessageContent) -> Seq<EventView> {
    match role {
        MessageRole::Assistant => seq![EventView::ModelFinal(content.words(), no_usage())],
        MessageRole::User => seq![EventView::UserMessage(content.words())],
        _ => Seq::empty(),
    }
}

/// The start of a tool call.
pub open spec fn call_event(call: ToolCall) -> EventView {
    EventView::ToolStarted {
        id: id_or_empty(call.id),
        name: call.name@,
        kind: ToolKind::Other,
        markdown: None,
        input: call.arguments,
        locations: Seq::empty(),
    }
}

/// The events of a tool round: its calls, then what the model said beside them.
pub open spec fn call_events(text: Seq<char>, calls: Seq<ToolCall>) -> Seq<EventView> {
    let started = Seq::new(calls.len(), |i: int| call_event(calls[i]));
    if text.len() == 0 {
        started
    } else {
        started.push(EventView::MessageChunk(seq![text]))
    }
}

/// The end of a tool call.
pub open spec fn result_event(result: ToolOutput) -> EventView {
    EventView::ToolCompleted {
        id: id_or_empty(result.id),
        output: result.output,
        markdown: opt_text(result.markdown),
    }
}

/// The events of an entry.
pub open spec fn entry_events(entry: SessionLogEntry) -> Seq<EventView> {
    match entry {
        SessionLogEntry::Message { role, content, .. } => message_events(role, content),
        SessionLogEntry::ToolCalls { text, calls, .. } => call_events(text@, calls@),
        SessionLogEntry::ToolResults { results } => Seq::new(
            results@.len(),
            |i: int| result_event(results@[i]),
        ),
        SessionLogEntry::Cancel { .. } => seq![EventView::Warning("Session cancelled"@)],
        SessionLogEntry::Error { message, .. } => seq![EventView::Error(message@)],
        _ => Seq::empty(),
    }
}

/// Whether an entry is a row that gets a number.
pub open spec fn is_numbered(entry: SessionLogEntry) -> bool {
    entry is Message || entry is ToolCalls
}

/// Rows that get a number.
pub open spec fn numbered_rows() -> spec_fn((u64, SessionLogEntry)) -> bool {
    |r: (u64, SessionLogEntry)| is_numbered(r.1)
}

/// The window that numbers count in.
pub open spec fn numbered_window(
    numbering: Numbering,
    rows: Seq<(u64, SessionLogEntry)>,
) -> Seq<(u64, SessionLogEntry)> {
    match numbering {
        Numbering::Transcript => window_of(rows),
        Numbering::Headed => headed_window_of(rows),
    }
}

/// Whether a window can be numbered.
pub open spec fn authoritative(numbering: Numbering, boundary: Option<usize>) -> bool {
    numbering == Numbering::Transcript || boundary is Some
}

/// The places of an entry in the window. Where several rows share its sequence number, a
/// message of the user stands for all of its kind and anything else for the last row.
pub open spec fn entry_places(
    numbering: Numbering,
    window: Seq<(u64, SessionLogEntry)>,
    physical_seq: u64,
    entry: SessionLogEntry,
) -> Seq<usize> {
    let all = places(window, at_seq(physical_seq));
    if all.len() <= 1 {
        all
    } else if entry.is_user_message() {
        match numbering {
            Numbering::Transcript => places(window, user_at_seq(physical_seq)),
            Numbering::Headed => all,
        }
    } else {
        seq![all.last()]
    }
}

/// Numbers as events.
pub open spec fn seq_events(numbers: Seq<usize>) -> Seq<EventView> {
    Seq::new(numbers.len(), |i: int| EventView::LogSeqAssigned(numbers[i]))
}

/// The events of a row: those of its entry, then its numbers.
pub open spec fn row_events(
    numbering: Numbering,
    window: Seq<(u64, SessionLogEntry)>,
    boundary: Option<usize>,
    row: (u64, SessionLogEntry),
) -> Seq<EventView> {
    if is_numbered(row.1) && authoritative(numbering, boundary) {
        entry_events(row.1) + seq_events(entry_places(numbering, window, row.0, row.1))
    } else {
        entry_events(row.1)
    }
}

/// The events of a log, without the rows at `skipped`.
pub open spec fn replay_events(
    numbering: Numbering,
    window: Seq<(u64, SessionLogEntry)>,
    boundary: Option<usize>,
    rows: Seq<(u64, SessionLogEntry)>,
    skipped: Option<u64>,
) -> Seq<EventView>
    decreases rows.len(),
{
    if rows.len() == 0 {
        Seq::empty()
    } else {
        let before = replay_events(numbering, window, boundary, rows.drop_last(), skipped);
        if skipped == Some(rows.last().0) {
            before
        } else {
            before + row_events(numbering, window, boundary, rows.last())
        }
    }
}

/// Whether replay leaves out the entry at `seq`: the prompt that is being answered now.
pub fn should_skip_replay_entry(seq: u64, user_msg_seq: u64) -> (skip: bool)
    ensures
        skip == (seq == user_msg_seq),
{
    seq == user_msg_seq
}

/// The window that numbers count in.
pub fn numbering_window<'w, 'a>(numbering: Numbering, rows: &'w [Row<'a>]) -> (w:
    ActiveContextWindow<'w, 'a>)
    ensures
        w.rows() == numbered_window(numbering, rows_view(rows@)),
        match w.boundary() {
            Some(b) => last_boundary(rows_view(rows@)) == Some(b as int),
            None => last_boundary(rows_view(rows@)) is None,
        },
{
    match numbering {
        Numbering::Transcript => active_context_window(rows),
        Numbering::Headed => headed_context_window(rows),
    }
}

pub fn render_message_entry(role: MessageRole, content: &MessageContent, sink: &mut Vec<AgentEvent>)
    ensures
        events_view(final(sink)@) == events_view(old(sink)@) + message_events(role, *content),
{
    if role.is_assistant() {
        emit(
            sink,
            AgentEvent::Model(
                ModelEvent::Final {
                    output: content.to_text(),
                    usage: CompletionTokenUsage { input_tokens: 0, output_tokens: 0 },
                },
            ),
        );
    } else if role.is_user() {
        emit(sink, AgentEvent::User(UserEvent::Message { content: content.to_text() }));
    }
    assert(events_view(sink@) =~= events_view(old(sink)@) + message_events(role, *content));
}

pub fn render_tool_calls_entry(text: &String, calls: &[ToolCall], sink: &mut Vec<AgentEvent>)
    ensures
        events_view(final(sink)@) == events_view(old(sink)@) + call_events(text@, calls@),
{
    let ghost before = events_view(sink@);
    let ghost started = Seq::new(calls@.len(), |i: int| call_event(calls@[i]));
    let mut i: usize = 0;
    assert(events_view(sink@) =~= before + started.take(0));
    while i < calls.len()
        invariant
            i <= calls@.len(),
            started == Seq::new(calls@.len(), |i: int| call_event(calls@[i])),
            events_view(sink@) == before + started.take(i as int),
        decreases calls@.len() - i,
    {
        let call = &calls[i];
        let locations: Vec<String> = Vec::new();
        assert(texts(locations@) =~= Seq::<Seq<char>>::empty());
        let event = AgentEvent::Tool(
            ToolEvent::Started {
                id: id_text(&call.id),
                name: call.name.clone(),
                kind: ToolKind::Other,
                markdown: None,
                input: call.arguments.clone(),
                locations,
            },
        );
        assert(event_view(event) == call_event(calls@[i as int]));
        emit(sink, event);
        assert(before + started.take(i + 1) =~= (before + started.take(i as int)).push(
            started[i as int],
        ));
        i += 1;
    }
    assert(started.take(i as int) =~= started);
    if !text.as_str().is_empty() {
        let mut blocks: Vec<ContentBlock> = Vec::new();
        blocks.push(ContentBlock::Text(text.clone()));
        assert(block_texts(blocks@) =~= seq![text@]);
        emit(sink, AgentEvent::Model(ModelEvent::MessageChunk { blocks }));
    }
    assert(events_view(sink@) =~= before + call_events(text@, calls@));
}

pub fn render_tool_results_entry(results: &[ToolOutput], sink: &mut Vec<AgentEvent>)
    ensures
        events_view(final(sink)@) == events_view(old(sink)@) + Seq::new(
            results@.len(),
            |i: int| result_event(results@[i]),
        ),
{
    let ghost before = events_view(sink@);
    let ghost done = Seq::new(results@.len(), |i: int| result_event(results@[i]));
    let mut i: usize = 0;
    assert(events_view(sink@) =~= before + done.take(0));
    while i < results.len()
        invariant
            i <= results@.len(),
            done == Seq::new(results@.len(), |i: int| result_event(results@[i])),
            events_view(sink@) == before + done.take(i as int),
        decreases results@.len() - i,
    {
        let result = &results[i];
        let event = AgentEvent::Tool(
            ToolEvent::Completed {
                id: id_text(&result.id),
                output: result.output.clone(),
                markdown: result.markdown.clone(),
            },
        );
        assert(event_view(event) == result_event(results@[i as int]));
        emit(sink, event);
        assert(before + done.take(i + 1) =~= (before + done.take(i as int)).push(done[i as int]));
        i += 1;
    }
    assert(done.take(i as int) =~= done);
}

pub fn render_cancel_entry(sink: &mut Vec<AgentEvent>)
    ensures
        events_view(final(sink)@) == events_view(old(sink)@).push(
            EventView::Warning("Session cancelled"@),
        ),
{
    emit(sink, AgentEvent::Notice(NoticeEvent::Warning(String::from_str("Session cancelled"))));
}

pub fn render_error_entry(message: &String, sink: &mut Vec<AgentEvent>)
    ensures
        events_view(final(sink)@) == events_view(old(sink)@).push(EventView::Error(message@)),
{
    emit(sink, AgentEvent::Notice(NoticeEvent::Error(message.clone())));
}

/// The places of an entry in the window.
pub fn logical_indices_for_entry(
    numbering: Numbering,
    physical_seq: u64,
    entry: &SessionLogEntry,
    window: &ActiveContextWindow,
) -> (r: Vec<usize>)
    ensures
        r@ == entry_places(numbering, window.rows(), physical_seq, *entry),
{
    let all = window.logical_indices_for_physical(physical_seq);
    if all.len() <= 1 {
        return all;
    }
    if entry.user_message() {
        match numbering {
            Numbering::Transcript => window.user_indices_for_physical(physical_seq),
            Numbering::Headed => all,
        }
    } else {
        let mut last: Vec<usize> = Vec::new();
        last.push(all[all.len() - 1]);
        assert(last@ =~= seq![all@.last()]);
        last
    }
}

/// Renders one entry of the log, with its numbers.
pub fn render_log_entry(
    numbering: Numbering,
    entry: &SessionLogEntry,
    physical_seq: u64,
    window: &ActiveContextWindow,
    sink: &mut Vec<AgentEvent>,
)
    ensures
        events_view(final(sink)@) == events_view(old(sink)@) + row_events(
            numbering,
            window.rows(),
            window.boundary(),
            (physical_seq, *entry),
        ),
{
    let ghost before = events_view(sink@);
    let rendered: bool = match entry {
        SessionLogEntry::Message { role, content, .. } => {
            render_message_entry(*role, content, sink);
            true
        },
        SessionLogEntry::ToolCalls { text, calls, .. } => {
            render_tool_calls_entry(text, calls.as_slice(), sink);
            true
        },
        SessionLogEntry::ToolResults { results } => {
            render_tool_results_entry(results.as_slice(), sink);
            false
        },
        SessionLogEntry::Cancel { .. } => {
            render_cancel_entry(sink);
            false
        },
        SessionLogEntry::Error { message, .. } => {
            render_error_entry(message, sink);
            false
        },
        _ => false,
    };
    assert(events_view(sink@) =~= before + entry_events(*entry));
    let numbers_count = match numbering {
        Numbering::Transcript => true,
        Numbering::Headed => window.boundary_index().is_some(),
    };
    if rendered && numbers_count {
        let numbers = logical_indices_for_entry(numbering, physical_seq, entry, window);
        let ghost head = events_view(sink@);
        let ghost tail = seq_events(numbers@);
        let mut i: usize = 0;
        assert(head + tail.take(0) =~= head);
        while i < numbers.len()
            invariant
                i <= numbers@.len(),
                tail == seq_events(numbers@),
                events_view(sink@) == head + tail.take(i as int),
            decreases numbers@.len() - i,
        {
            emit_seq(sink, numbers[i]);
            assert(head + tail.take(i + 1) =~= (head + tail.take(i as int)).push(tail[i as int]));
            i += 1;
        }
        assert(tail.take(i as int) =~= tail);
        assert(events_view(sink@) =~= before + (entry_events(*entry) + tail));
    }
}

/// Renders the rows of a log. A row at `skipped` is left out.
pub fn replay_rows(
    numbering: Numbering,
    rows: &[Row],
    window: &ActiveContextWindow,
    skipped: Option<u64>,
    sink: &mut Vec<AgentEvent>,
)
    ensures
        events_view(final(sink)@) == events_view(old(sink)@) + replay_events(
            numbering,
            window.rows(),
            window.boundary(),
            rows_view(rows@),
            skipped,
        ),
{
    let ghost before = events_view(sink@);
    let ghost all = rows_view(rows@);
    let mut i: usize = 0;
    assert(events_view(sink@) =~= before + replay_events(
        numbering,
        window.rows(),
        window.boundary(),
        all.take(0),
        skipped,
    ));
    while i < rows.len()
        invariant
            i <= rows@.len(),
            all == rows_view(rows@),
            events_view(sink@) == before + replay_events(
                numbering,
                window.rows(),
                window.boundary(),
                all.take(i as int),
                skipped,
            ),
        decreases rows@.len() - i,
    {
        let ghost here = events_view(sink@);
        assert(all.take(i + 1).drop_last() =~= all.take(i as int));
        assert(all[i as int] == (rows@[i as int].0, *rows@[i as int].1));
        let skip: bool = match skipped {
            Some(seq) => should_skip_replay_entry(rows[i].0, seq),
            None => false,
        };
        if !skip {
            render_log_entry(numbering, rows[i].1, rows[i].0, window, sink);
            assert(events_view(sink@) =~= before + replay_events(
                numbering,
                window.rows(),
                window.boundary(),
                all.take(i + 1),
                skipped,
            ));
        }
        i += 1;
    }
    assert(all.take(i as int) =~= all);
}

/// Numbers, each given at most once: those already given are left out.
pub open spec fn fresh_numbers(seen: Set<usize>, numbers: Seq<usize>) -> Seq<EventView>
    decreases numbers.len(),
{
    if numbers.len() == 0 {
        Seq::empty()
    } else {
        let before = fresh_numbers(seen, numbers.drop_last());
        if seen.contains(numbers.last()) || numbers.drop_last().contains(numbers.last()) {
            before
        } else {
            before.push(EventView::LogSeqAssigned(numbers.last()))
        }
    }
}

/// Gives a number unless it was given before.
pub fn emit_deduped_logical_seq(
    logical_index: usize,
    sink: &mut Vec<AgentEvent>,
    emitted: &mut HashSet<usize>,
)
    ensures
        final(emitted)@ == old(emitted)@.insert(logical_index),
        events_view(final(sink)@) == if old(emitted)@.contains(logical_index) {
            events_view(old(sink)@)
        } else {
            events_view(old(sink)@).push(EventView::LogSeqAssigned(logical_index))
        },
{
    if emitted.insert(logical_index) {
        emit_seq(sink, logical_index);
    }
}

/// The numbers that the rows of a log have now. A log without its header has none yet.
pub open spec fn numbers_due(numbering: Numbering, rows: Seq<(u64, SessionLogEntry)>) -> Seq<usize> {
    if numbering == Numbering::Headed && last_boundary(rows) is None {
        Seq::empty()
    } else {
        places(numbered_window(numbering, rows), numbered_rows())
    }
}

/// Gives a number to every row of the window that is rendered, where the window has numbers.
pub fn emit_all_logical_seqs_for_window(
    numbering: Numbering,
    effective: Option<&[Row]>,
    sink: &mut Vec<AgentEvent>,
    emitted: &mut HashSet<usize>,
)
    ensures
        match effective {
            None => events_view(final(sink)@) == events_view(old(sink)@) && final(emitted)@
                == old(emitted)@,
            Some(rows) => {
                let numbers = numbers_due(numbering, rows_view(rows@));
                events_view(final(sink)@) == events_view(old(sink)@) + fresh_numbers(
                    old(emitted)@,
                    numbers,
                ) && final(emitted)@ == old(emitted)@.union(numbers.to_set())
            },
        },
{
    let rows = match effective {
        Some(rows) => rows,
        None => {
            return;
        },
    };
    let window = numbering_window(numbering, rows);
    match numbering {
        Numbering::Headed => {
            if window.boundary_index().is_none() {
                let ghost none = Seq::<usize>::empty();
                assert(events_view(sink@) + fresh_numbers(emitted@, none) =~= events_view(sink@));
                assert(emitted@.union(none.to_set()) =~= emitted@);
                return;
            }
        },
        Numbering::Transcript => {},
    }
    let ghost before = events_view(sink@);
    let ghost seen = emitted@;
    let ghost all = window.rows();
    let entries = window.entries();
    let mut i: usize = 0;
    assert(before + fresh_numbers(seen, places(all.take(0), numbered_rows())) =~= before);
    assert(seen.union(places(all.take(0), numbered_rows()).to_set()) =~= seen);
    while i < entries.len()
        invariant
            i <= entries@.len(),
            all == rows_view(entries@),
            events_view(sink@) == before + fresh_numbers(
                seen,
                places(all.take(i as int), numbered_rows()),
            ),
            emitted@ == seen.union(places(all.take(i as int), numbered_rows()).to_set()),
        decreases entries@.len() - i,
    {
        let ghost here = places(all.take(i as int), numbered_rows());
        assert(all.take(i + 1).drop_last() =~= all.take(i as int));
        assert(all[i as int] == (entries@[i as int].0, *entries@[i as int].1));
        let renders: bool = match entries[i].1 {
            SessionLogEntry::Message { .. } | SessionLogEntry::ToolCalls { .. } => true,
            _ => false,
        };
        if renders {
            let ghost there = here.push(i);
            assert(there.drop_last() =~= here);
            emit_deduped_logical_seq(i, sink, emitted);
            assert(events_view(sink@) =~= before + fresh_numbers(seen, there));
            assert(there.to_set() =~= here.to_set().insert(i)) by {
                assert forall|n: usize| there.to_set().contains(n) == here.to_set().insert(
                    i,
                ).contains(n) by {
                    if here.contains(n) {
                        let k = choose|k: int| 0 <= k < here.len() && here[k] == n;
                        assert(there[k] == n);
                    }
                    if n == i {
                        assert(there[here.len() as int] == n);
                    }
                }
            }
            assert(emitted@ =~= seen.union(there.to_set()));
        }
        i += 1;
    }
    assert(all.take(i as int) =~= all);
}

/// Whether another flush can follow in this turn.
#[derive(Clone, Copy, Debug, PartialEq, Eq, Structural)]
pub enum AdvisoryFlush {
    /// In the middle of a turn: advisories that cannot be numbered yet stay queued.
    Live,
    /// The last flush: what stays queued is lost, so it goes out without a number.
    Final,
}

/// The advisories of a queue that are still to be rendered.
pub open spec fn admitted(
    queue: Seq<AdvisoryEnvelope>,
    live: LiveEventState,
    reader: Attachment,
    last_durable_seq: u64,
) -> Seq<AdvisoryEnvelope>
    decreases queue.len(),
{
    if queue.len() == 0 {
        queue
    } else {
        let before = admitted(queue.drop_last(), live, reader, last_durable_seq);
        if live.renders(reader, queue.last().after_seq, last_durable_seq) {
            before.push(queue.last())
        } else {
            before
        }
    }
}

/// The number that an advisory brings: that of the last row at the entry it follows.
pub open spec fn stamp(window: Option<Seq<(u64, SessionLogEntry)>>, after_seq: u64) -> Option<
    usize,
> {
    match window {
        None => None,
        Some(rows) => {
            let all = places(rows, at_seq(after_seq));
            if all.len() == 0 {
                None
            } else {
                Some(all.last())
            }
        },
    }
}

/// The numbers that a queue brings.
pub open spec fn stamps(
    window: Option<Seq<(u64, SessionLogEntry)>>,
    queue: Seq<AdvisoryEnvelope>,
) -> Set<usize>
    decreases queue.len(),
{
    if queue.len() == 0 {
        Set::empty()
    } else {
        let before = stamps(window, queue.drop_last());
        match stamp(window, queue.last().after_seq) {
            Some(n) => before.insert(n),
            None => before,
        }
    }
}

/// Whether an event is itself a number.
pub open spec fn is_number(event: AgentEvent) -> bool {
    event matches AgentEvent::Session(s) && s is LogSeqAssigned
}

/// The events of a queue: before each the number that it brings, if that is new. A number that
/// the publisher gave is dropped: it does not count in this window.
pub open spec fn flushed(
    window: Option<Seq<(u64, SessionLogEntry)>>,
    seen: Set<usize>,
    queue: Seq<AdvisoryEnvelope>,
) -> Seq<EventView>
    decreases queue.len(),
{
    if queue.len() == 0 {
        Seq::empty()
    } else {
        let head = queue.drop_last();
        let before = flushed(window, seen, head);
        let given = seen.union(stamps(window, head));
        let stamped = match stamp(window, queue.last().after_seq) {
            Some(n) => if given.contains(n) {
                before
            } else {
                before.push(EventView::LogSeqAssigned(n))
            },
            None => before,
        };
        if is_number(queue.last().event) {
            stamped
        } else {
            stamped.push(event_view(queue.last().event))
        }
    }
}

/// Drops the advisories that an interrupt or the log itself has overtaken.
fn drop_stale(
    pending: &mut VecDeque<AdvisoryEnvelope>,
    live: &LiveEventState,
    reader: Attachment,
    last_durable_seq: u64,
)
    ensures
        final(pending)@ == admitted(old(pending)@, *live, reader, last_durable_seq),
{
    let ghost queue = pending@;
    let mut kept: VecDeque<AdvisoryEnvelope> = VecDeque::new();
    let ghost mut k: int = 0;
    assert(queue.skip(0) =~= queue);
    loop
        invariant
            0 <= k <= queue.len(),
            pending@ == queue.skip(k),
            kept@ == admitted(queue.take(k), *live, reader, last_durable_seq),
        ensures
            k == queue.len(),
        decreases queue.len() - k,
    {
        match pending.pop_front() {
            Some(envelope) => {
                assert(envelope == queue[k]);
                assert(queue.take(k + 1).drop_last() =~= queue.take(k));
                if live.should_render(reader, &envelope, last_durable_seq) {
                    kept.push_back(envelope);
                }
                proof {
                    k = k + 1;
                }
                assert(pending@ =~= queue.skip(k));
            },
            None => {
                break;
            },
        }
    }
    assert(queue.take(k) =~= queue);
    *pending = kept;
}

/// Gives the number of the last row at the entry that an advisory follows.
pub fn emit_live_logical_seq_for_physical(
    physical_seq: u64,
    window: &ActiveContextWindow,
    sink: &mut Vec<AgentEvent>,
    emitted: &mut HashSet<usize>,
) -> (r: Option<usize>)
    ensures
        r == stamp(Some(window.rows()), physical_seq),
        match r {
            Some(n) => final(emitted)@ == old(emitted)@.insert(n) && events_view(final(sink)@)
                == if old(emitted)@.contains(n) {
                events_view(old(sink)@)
            } else {
                events_view(old(sink)@).push(EventView::LogSeqAssigned(n))
            },
            None => final(emitted)@ == old(emitted)@ && events_view(final(sink)@) == events_view(
                old(sink)@,
            ),
        },
{
    let all = window.logical_indices_for_physical(physical_seq);
    if all.len() == 0 {
        return None;
    }
    let logical_index: usize = all[all.len() - 1];
    emit_deduped_logical_seq(logical_index, sink, emitted);
    Some(logical_index)
}

/// Renders the queued advisories. What was overtaken is dropped first, before anything is
/// numbered. In the middle of a turn the rest waits until the log can be read.
pub fn flush_pending_advisories(
    numbering: Numbering,
    pending: &mut VecDeque<AdvisoryEnvelope>,
    effective: Option<&[Row]>,
    sink: &mut Vec<AgentEvent>,
    emitted: &mut HashSet<usize>,
    mode: AdvisoryFlush,
    live: &LiveEventState,
    reader: Attachment,
    last_durable_seq: u64,
)
    ensures
        ({
            let queue = admitted(old(pending)@, *live, reader, last_durable_seq);
            if effective is None && mode == AdvisoryFlush::Live {
                &&& final(pending)@ == queue
                &&& events_view(final(sink)@) == events_view(old(sink)@)
                &&& final(emitted)@ == old(emitted)@
            } else {
                let window = match effective {
                    Some(rows) => Some(numbered_window(numbering, rows_view(rows@))),
                    None => None,
                };
                &&& final(pending)@ == Seq::<AdvisoryEnvelope>::empty()
                &&& events_view(final(sink)@) == events_view(old(sink)@) + flushed(
                    window,
                    old(emitted)@,
                    queue,
                )
                &&& final(emitted)@ == old(emitted)@.union(stamps(window, queue))
            }
        }),
{
    drop_stale(pending, live, reader, last_durable_seq);
    let ghost queue = pending@;
    let window = match effective {
        Some(rows) => Some(numbering_window(numbering, rows)),
        None => {
            match mode {
                AdvisoryFlush::Live => {
                    return;
                },
                AdvisoryFlush::Final => {},
            }
            None
        },
    };
    let ghost shown = match effective {
        Some(rows) => Some(numbered_window(numbering, rows_view(rows@))),
        None => None,
    };
    let ghost before = events_view(sink@);
    let ghost seen = emitted@;
    let ghost mut k: int = 0;
    assert(queue.skip(0) =~= queue);
    assert(before + flushed(shown, seen, queue.take(0)) =~= before);
    assert(seen.union(stamps(shown, queue.take(0))) =~= seen);
    loop
        invariant
            0 <= k <= queue.len(),
            pending@ == queue.skip(k),
            match window {
                Some(w) => shown == Some(w.rows()),
                None => shown is None,
            },
            events_view(sink@) == before + flushed(shown, seen, queue.take(k)),
            emitted@ == seen.union(stamps(shown, queue.take(k))),
        ensures
            k == queue.len(),
            pending@.len() == 0,
        decreases queue.len() - k,
    {
        match pending.pop_front() {
            Some(envelope) => {
                assert(envelope == queue[k]);
                assert(queue.take(k + 1).drop_last() =~= queue.take(k));
                assert(queue.take(k + 1).last() == envelope);
                let ghost here = events_view(sink@);
                let ghost given = emitted@;
                match &window {
                    Some(w) => {
                        let _ = emit_live_logical_seq_for_physical(
                            envelope.after_seq,
                            w,
                            sink,
                            emitted,
                        );
                    },
                    None => {},
                }
                let ghost stamped = events_view(sink@);
                let number: bool = match &envelope.event {
                    AgentEvent::Session(SessionEvent::LogSeqAssigned { .. }) => true,
                    _ => false,
                };
                if !number {
                    emit(sink, envelope.event);
                }
                assert(events_view(sink@) =~= before + flushed(shown, seen, queue.take(k + 1)));
                assert(emitted@ =~= seen.union(stamps(shown, queue.take(k + 1))));
                proof {
                    k = k + 1;
                }
                assert(pending@ =~= queue.skip(k));
            },
            None => {
                break;
            },
        }
    }
    assert(queue.take(k) =~= queue);
    assert(pending@ =~= Seq::<AdvisoryEnvelope>::empty());
}

/// A number that was given is not given again.
pub proof fn law_numbers_are_given_once(seen: Set<usize>, numbers: Seq<usize>)
    ensures
        fresh_numbers(seen.union(numbers.to_set()), numbers) == Seq::<EventView>::empty(),
        forall|i: int, j: int|
            #![trigger fresh_numbers(seen, numbers)[i], fresh_numbers(seen, numbers)[j]]
            0 <= i < j < fresh_numbers(seen, numbers).len() ==> fresh_numbers(seen, numbers)[i]
                != fresh_numbers(seen, numbers)[j],
{
    nothing_fresh(seen.union(numbers.to_set()), numbers);
    fresh_are_members(seen, numbers);
}

proof fn nothing_fresh(seen: Set<usize>, numbers: Seq<usize>)
    requires
        forall|i: int| 0 <= i < numbers.len() ==> seen.contains(#[trigger] numbers[i]),
    ensures
        fresh_numbers(seen, numbers) == Seq::<EventView>::empty(),
    decreases numbers.len(),
{
    if numbers.len() > 0 {
        let t = numbers.drop_last();
        assert forall|i: int| 0 <= i < t.len() implies seen.contains(#[trigger] t[i]) by {
            assert(t[i] == numbers[i]);
        }
        nothing_fresh(seen, t);
        assert(seen.contains(numbers[numbers.len() - 1]));
    }
}

proof fn fresh_are_members(seen: Set<usize>, numbers: Seq<usize>)
    ensures
        forall|i: int|
            #![trigger fresh_numbers(seen, numbers)[i]]
            0 <= i < fresh_numbers(seen, numbers).len() ==> (fresh_numbers(
                seen,
                numbers,
            )[i] matches EventView::LogSeqAssigned(n) && numbers.contains(n)),
        forall|i: int, j: int|
            #![trigger fresh_numbers(seen, numbers)[i], fresh_numbers(seen, numbers)[j]]
            0 <= i < j < fresh_numbers(seen, numbers).len() ==> fresh_numbers(seen, numbers)[i]
                != fresh_numbers(seen, numbers)[j],
    decreases numbers.len(),
{
    if numbers.len() > 0 {
        let t = numbers.drop_last();
        fresh_are_members(seen, t);
        let f = fresh_numbers(seen, numbers);
        let g = fresh_numbers(seen, t);
        assert forall|i: int| #![trigger f[i]] 0 <= i < f.len() implies (
        f[i] matches EventView::LogSeqAssigned(n) && numbers.contains(n)) by {
            if i < g.len() {
                assert(f[i] == g[i]);
                let n = f[i]->LogSeqAssigned_0;
                let k = choose|k: int| 0 <= k < t.len() && t[k] == n;
                assert(numbers[k] == n);
            } else {
                assert(numbers[numbers.len() - 1] == numbers.last());
            }
        }
        assert forall|i: int, j: int| #![trigger f[i], f[j]] 0 <= i < j < f.len() implies f[i]
            != f[j] by {
            assert(f[i] == g[i]);
            if j < g.len() {
                assert(f[j] == g[j]);
            }
        }
    }
}

/// The events of advisories that are no numbers, in order.
pub open spec fn advisory_events(queue: Seq<AdvisoryEnvelope>) -> Seq<EventView>
    decreases queue.len(),
{
    if queue.len() == 0 {
        Seq::empty()
    } else {
        let before = advisory_events(queue.drop_last());
        if is_number(queue.last().event) {
            before
        } else {
            before.push(event_view(queue.last().event))
        }
    }
}

/// The last flush of a turn loses nothing: without a readable log every advisory that is still
/// to be rendered goes out, in order and as it is.
pub proof fn law_final_flush_delivers(seen: Set<usize>, queue: Seq<AdvisoryEnvelope>)
    ensures
        flushed(None, seen, queue) == advisory_events(queue),
    decreases queue.len(),
{
    if queue.len() > 0 {
        law_final_flush_delivers(seen, queue.drop_last());
    }
}

/// Events without those that only give numbers.
pub open spec fn without_numbers(events: Seq<EventView>) -> Seq<EventView>
    decreases events.len(),
{
    if events.len() == 0 {
        Seq::empty()
    } else {
        let before = without_numbers(events.drop_last());
        if events.last() is LogSeqAssigned {
            before
        } else {
            before.push(events.last())
        }
    }
}

/// A flush loses nothing and repeats nothing: but for the numbers, every advisory that is still
/// to be rendered goes out once, in order and as it is, whatever the log shows.
pub proof fn law_flush_delivers_in_order(
    window: Option<Seq<(u64, SessionLogEntry)>>,
    seen: Set<usize>,
    queue: Seq<AdvisoryEnvelope>,
)
    ensures
        without_numbers(flushed(window, seen, queue)) == advisory_events(queue),
    decreases queue.len(),
{
    if queue.len() > 0 {
        let head = queue.drop_last();
        law_flush_delivers_in_order(window, seen, head);
        let before = flushed(window, seen, head);
        let all = flushed(window, seen, queue);
        let stamped = match stamp(window, queue.last().after_seq) {
            Some(n) => if seen.union(stamps(window, head)).contains(n) {
                before
            } else {
                before.push(EventView::LogSeqAssigned(n))
            },
            None => before,
        };
        if stamped.len() > before.len() {
            assert(stamped.drop_last() =~= before);
        }
        assert(without_numbers(stamped) == without_numbers(before));
        if !is_number(queue.last().event) {
            assert(all.drop_last() =~= stamped);
        }
    }
}

/// What an interrupt has overtaken is never rendered, and what follows it is.
pub proof fn law_admitted_is_exactly_what_renders(
    queue: Seq<AdvisoryEnvelope>,
    live: LiveEventState,
    reader: Attachment,
    last_durable_seq: u64,
)
    ensures
        forall|e: AdvisoryEnvelope|
            #![trigger admitted(queue, live, reader, last_durable_seq).contains(e)]
            admitted(queue, live, reader, last_durable_seq).contains(e) <==> queue.contains(e)
                && live.renders(reader, e.after_seq, last_durable_seq),
    decreases queue.len(),
{
    if queue.len() > 0 {
        let t = queue.drop_last();
        let x = queue.last();
        law_admitted_is_exactly_what_renders(t, live, reader, last_durable_seq);
        let a = admitted(queue, live, reader, last_durable_seq);
        let b = admitted(t, live, reader, last_durable_seq);
        assert forall|e: AdvisoryEnvelope| #![trigger a.contains(e)] a.contains(e)
            <==> queue.contains(e) && live.renders(reader, e.after_seq, last_durable_seq) by {
            if a.contains(e) {
                let i = choose|i: int| 0 <= i < a.len() && a[i] == e;
                if i < b.len() {
                    assert(b[i] == e);
                    assert(b.contains(e));
                    let k = choose|k: int| 0 <= k < t.len() && t[k] == e;
                    assert(queue[k] == e);
                } else {
                    assert(queue[queue.len() - 1] == e);
                }
            }
            if queue.contains(e) && live.renders(reader, e.after_seq, last_durable_seq) {
                let k = choose|k: int| 0 <= k < queue.len() && queue[k] == e;
                if k < t.len() {
                    assert(t[k] == e);
                    assert(t.contains(e));
                    assert(b.contains(e));
                    let i = choose|i: int| 0 <= i < b.len() && b[i] == e;
                    assert(a[i] == e);
                } else {
                    assert(a[a.len() - 1] == e);
                }
            }
        }
    }
}

/// A tool round starts each of its calls once, in order, with the identifier, the name and the
/// input of the call. What the model said beside them comes last, where it said anything.
pub proof fn law_tool_round_starts_each_call_once(text: Seq<char>, calls: Seq<ToolCall>)
    ensures
        call_events(text, calls).len() == calls.len() + if text.len() == 0 {
            0nat
        } else {
            1nat
        },
        forall|i: int|
            0 <= i < calls.len() ==> (#[trigger] call_events(
                text,
                calls,
            )[i] matches EventView::ToolStarted { id, name, kind, markdown, input, locations }
                && id == (match calls[i].id {
                Some(own) => own@,
                None => Seq::empty(),
            }) && name == calls[i].name@ && kind is Other && markdown is None && input
                == calls[i].arguments && locations.len() == 0),
        text.len() > 0 ==> call_events(text, calls)[calls.len() as int] == EventView::MessageChunk(
            seq![text],
        ),
{
}

/// Tool results complete each call once, in order, with its identifier, output and markdown.
pub proof fn law_tool_results_complete_each_call_once(results: Vec<ToolOutput>)
    ensures
        ({
            let shown = entry_events(SessionLogEntry::ToolResults { results });
            &&& shown.len() == results@.len()
            &&& forall|i: int|
                0 <= i < results@.len() ==> (#[trigger] shown[i] matches EventView::ToolCompleted {
                    id,
                    output,
                    markdown,
                } && id == (match results@[i].id {
                    Some(own) => own@,
                    None => Seq::empty(),
                }) && output == results@[i].output && markdown == opt_text(results@[i].markdown))
        }),
        forall|i: int|
            0 <= i < results@.len() ==> result_event(#[trigger] results@[i]) == entry_events(
                SessionLogEntry::ToolResults { results },
            )[i],
{
}

/// A message is shown once, as what its speaker said; only the user and the assistant are shown.
pub proof fn law_messages_are_shown_as_their_speaker(role: MessageRole, content: MessageContent)
    ensures
        role is Assistant ==> message_events(role, content) == seq![
            EventView::ModelFinal(
                content.words(),
                CompletionTokenUsage { input_tokens: 0, output_tokens: 0 },
            ),
        ],
        role is User ==> message_events(role, content) == seq![
            EventView::UserMessage(content.words()),
        ],
        !(role is Assistant) && !(role is User) ==> message_events(role, content).len() == 0,
{
}

/// Every other entry shows what it says: an interrupt as a warning, a failure as its message, and
/// the rest nothing at all.
pub proof fn law_entries_show_what_they_say(entry: SessionLogEntry)
    ensures
        entry matches SessionLogEntry::Message { role, content, .. } ==> entry_events(entry)
            == message_events(role, content),
        entry matches SessionLogEntry::ToolCalls { text, calls, .. } ==> entry_events(entry)
            == call_events(text@, calls@),
        entry is Cancel ==> entry_events(entry) == seq![EventView::Warning("Session cancelled"@)],
        entry matches SessionLogEntry::Error { message, .. } ==> entry_events(entry) == seq![
            EventView::Error(message@),
        ],
        !(entry is Message) && !(entry is ToolCalls) && !(entry is ToolResults) && !(
        entry is Cancel) && !(entry is Error) ==> entry_events(entry).len() == 0,
{
}

/// Only messages and tool rounds get numbers, and only in a window that can be numbered: any of a
/// transcript, and one behind a header or a compaction else.
pub proof fn law_rows_are_numbered_behind_what_they_show(
    numbering: Numbering,
    window: Seq<(u64, SessionLogEntry)>,
    boundary: Option<usize>,
    row: (u64, SessionLogEntry),
)
    ensures
        ({
            let shown = row_events(numbering, window, boundary, row);
            let said = entry_events(row.1);
            let numbers = entry_places(numbering, window, row.0, row.1);
            let counts = (row.1 is Message || row.1 is ToolCalls) && (numbering is Transcript
                || boundary is Some);
            &&& counts ==> shown.len() == said.len() + numbers.len()
            &&& !counts ==> shown == said
            &&& forall|i: int| 0 <= i < said.len() ==> #[trigger] shown[i] == said[i]
            &&& forall|i: int|
                said.len() <= i < shown.len() ==> #[trigger] shown[i] == EventView::LogSeqAssigned(
                    numbers[i - said.len()],
                )
        }),
{
}

/// A row is numbered by its places in the window. Where several rows share its sequence number, a
/// message of the user has the places of the user's, or in a headed log all of them, and anything
/// else has the last place alone.
#[verifier::spinoff_prover]
#[verifier::rlimit(40)]
pub proof fn law_row_has_the_places_at_its_sequence(
    numbering: Numbering,
    window: Seq<(u64, SessionLogEntry)>,
    seq: u64,
    entry: SessionLogEntry,
)
    requires
        window.len() <= usize::MAX,
    ensures
        ({
            let numbers = entry_places(numbering, window, seq, entry);
            &&& forall|k: int, l: int|
                0 <= k < l < numbers.len() ==> #[trigger] numbers[k] < #[trigger] numbers[l]
            &&& forall|i: usize|
                #![trigger numbers.contains(i)]
                numbers.contains(i) <==> i < window.len() && window[i as int].0 == seq && {
                    ||| forall|j: int|
                        0 <= j < window.len() && (#[trigger] window[j]).0 == seq ==> j == i
                    ||| entry.is_user_message() && (numbering is Headed
                        || window[i as int].1.is_user_message())
                    ||| !entry.is_user_message() && forall|j: int|
                        i < j < window.len() ==> (#[trigger] window[j]).0 != seq
                }
        }),
{
    let all = places(window, at_seq(seq));
    let own = places(window, user_at_seq(seq));
    law_places_are_those_of_accepted_rows(window, at_seq(seq));
    law_places_are_those_of_accepted_rows(window, user_at_seq(seq));
    let numbers = entry_places(numbering, window, seq, entry);
    if all.len() > 1 {
        assert(all.contains(all[0]) && all.contains(all[1]));
        assert(all[0] < all[1]);
    }
    if all.len() > 0 {
        assert(all.contains(all.last()));
    }
    assert forall|i: usize| #![trigger numbers.contains(i)] numbers.contains(i) <==> i
        < window.len() && window[i as int].0 == seq && {
        ||| forall|j: int| 0 <= j < window.len() && (#[trigger] window[j]).0 == seq ==> j == i
        ||| entry.is_user_message() && (numbering is Headed || window[i as int].1.is_user_message())
        ||| !entry.is_user_message() && forall|j: int|
            i < j < window.len() ==> (#[trigger] window[j]).0 != seq
    } by {
        assert(all.contains(i) <==> i < window.len() && window[i as int].0 == seq);
        assert(own.contains(i) <==> i < window.len() && window[i as int].0 == seq
            && window[i as int].1.is_user_message());
        if all.len() <= 1 {
            if all.contains(i) {
                let k = choose|k: int| 0 <= k < all.len() && all[k] == i;
                assert forall|j: int| 0 <= j < window.len() && (#[trigger] window[j]).0
                    == seq implies j == i by {
                    assert(all.contains(j as usize));
                    let l = choose|l: int| 0 <= l < all.len() && all[l] == j as usize;
                    assert(l == k);
                }
            }
        } else {
            if forall|j: int| 0 <= j < window.len() && (#[trigger] window[j]).0 == seq ==> j == i {
                assert(window[all[0] as int].0 == seq);
                assert(window[all[1] as int].0 == seq);
            }
            if !entry.is_user_message() {
                assert(numbers =~= seq![all.last()]);
                if numbers.contains(i) {
                    assert(i == all.last());
                    assert forall|j: int| i < j < window.len() implies (#[trigger] window[j]).0
                        != seq by {
                        if window[j].0 == seq {
                            assert(all.contains(j as usize));
                            let l = choose|l: int| 0 <= l < all.len() && all[l] == j as usize;
                            if l < all.len() - 1 {
                                assert(all[l] < all[all.len() - 1]);
                            }
                        }
                    }
                }
                if i < window.len() && window[i as int].0 == seq && (forall|j: int|
                    i < j < window.len() ==> (#[trigger] window[j]).0 != seq) {
                    let last = all.last();
                    assert(window[last as int].0 == seq);
                    assert(last <= i);
                    let k = choose|k: int| 0 <= k < all.len() && all[k] == i;
                    if k < all.len() - 1 {
                        assert(all[k] < all[all.len() - 1]);
                    }
                    assert(numbers[0] == i);
                }
            }
        }
    }
}

/// A log is replayed row by row in its order, and a row that is left out changes nothing of the
/// others: it is as if the log did not have it.
pub proof fn law_replay_shows_each_row_in_its_order(
    numbering: Numbering,
    window: Seq<(u64, SessionLogEntry)>,
    boundary: Option<usize>,
    rows: Seq<(u64, SessionLogEntry)>,
    row: (u64, SessionLogEntry),
    skipped: u64,
)
    ensures
        replay_events(numbering, window, boundary, Seq::empty(), None).len() == 0,
        replay_events(numbering, window, boundary, rows.push(row), None) == replay_events(
            numbering,
            window,
            boundary,
            rows,
            None,
        ) + row_events(numbering, window, boundary, row),
        replay_events(numbering, window, boundary, rows, Some(skipped)) == replay_events(
            numbering,
            window,
            boundary,
            rows.filter(|r: (u64, SessionLogEntry)| r.0 != skipped),
            None,
        ),
    decreases rows.len(),
{
    reveal(Seq::filter);
    let p = |r: (u64, SessionLogEntry)| r.0 != skipped;
    assert(rows.push(row).drop_last() =~= rows);
    if rows.len() > 0 {
        let t = rows.drop_last();
        law_replay_shows_each_row_in_its_order(numbering, window, boundary, t, row, skipped);
        if p(rows.last()) {
            assert(rows.filter(p) =~= t.filter(p).push(rows.last()));
            assert(t.filter(p).push(rows.last()).drop_last() =~= t.filter(p));
        } else {
            assert(rows.filter(p) =~= t.filter(p));
        }
    }
}

/// The numbers that are due are the places of messages and tool rounds in the window, rising: in
/// the active window of a transcript, and in that of a headed log once it has a header.
pub proof fn law_due_numbers_are_places_of_what_is_shown(
    numbering: Numbering,
    rows: Seq<(u64, SessionLogEntry)>,
)
    requires
        rows.len() <= usize::MAX,
    ensures
        ({
            let window = if numbering is Transcript {
                window_of(rows)
            } else {
                headed_window_of(rows)
            };
            let due = numbers_due(numbering, rows);
            &&& numbered_window(numbering, rows) == window
            &&& forall|k: int, l: int|
                0 <= k < l < due.len() ==> #[trigger] due[k] < #[trigger] due[l]
            &&& forall|i: usize|
                #![trigger due.contains(i)]
                due.contains(i) <==> i < window.len() && (window[i as int].1 is Message
                    || window[i as int].1 is ToolCalls) && (numbering is Transcript
                    || last_boundary(rows) is Some)
        }),
{
    let window = numbered_window(numbering, rows);
    last_boundary_bounds(rows);
    assert(window.len() <= rows.len());
    law_places_are_those_of_accepted_rows(window, numbered_rows());
}

/// Of numbers that come once each, those that were not given before are given, in their order.
pub proof fn law_new_numbers_are_given_in_order(seen: Set<usize>, numbers: Seq<usize>)
    requires
        numbers.no_duplicates(),
    ensures
        fresh_numbers(seen, numbers) == numbers.filter(|n: usize| !seen.contains(n)).map_values(
            |n: usize| EventView::LogSeqAssigned(n),
        ),
    decreases numbers.len(),
{
    reveal(Seq::filter);
    let p = |n: usize| !seen.contains(n);
    let f = |n: usize| EventView::LogSeqAssigned(n);
    if numbers.len() > 0 {
        let t = numbers.drop_last();
        let x = numbers.last();
        assert(t.no_duplicates()) by {
            assert forall|i: int, j: int|
                0 <= i < t.len() && 0 <= j < t.len() && i != j implies t[i] != t[j] by {
                assert(t[i] == numbers[i] && t[j] == numbers[j]);
            }
        }
        law_new_numbers_are_given_in_order(seen, t);
        assert(!t.contains(x)) by {
            if t.contains(x) {
                let k = choose|k: int| 0 <= k < t.len() && t[k] == x;
                assert(numbers[k] == numbers[numbers.len() - 1]);
            }
        }
        if p(x) {
            assert(numbers.filter(p) =~= t.filter(p).push(x));
            assert(t.filter(p).push(x).map_values(f) =~= t.filter(p).map_values(f).push(f(x)));
        } else {
            assert(numbers.filter(p) =~= t.filter(p));
        }
    } else {
        assert(numbers.filter(p).map_values(f) =~= Seq::<EventView>::empty());
    }
}

/// What is still to be rendered of a queue keeps its order.
pub proof fn law_admitted_keeps_its_order(
    queue: Seq<AdvisoryEnvelope>,
    live: LiveEventState,
    reader: Attachment,
    last_durable_seq: u64,
)
    ensures
        admitted(queue, live, reader, last_durable_seq) == queue.filter(
            |e: AdvisoryEnvelope| live.renders(reader, e.after_seq, last_durable_seq),
        ),
    decreases queue.len(),
{
    reveal(Seq::filter);
    if queue.len() > 0 {
        law_admitted_keeps_its_order(queue.drop_last(), live, reader, last_durable_seq);
    }
}

/// An advisory brings the number of the last row at the entry it follows, and none where no row
/// is there or no window is known.
#[verifier::spinoff_prover]
#[verifier::rlimit(40)]
pub proof fn law_advisory_is_stamped_with_its_last_row(
    rows: Seq<(u64, SessionLogEntry)>,
    after_seq: u64,
    n: usize,
)
    requires
        rows.len() <= usize::MAX,
    ensures
        stamp(Some(rows), after_seq) == Some(n) <==> n < rows.len() && rows[n as int].0 == after_seq
            && forall|j: int| n < j < rows.len() ==> (#[trigger] rows[j]).0 != after_seq,
        stamp(Some(rows), after_seq) is None <==> forall|j: int|
            0 <= j < rows.len() ==> (#[trigger] rows[j]).0 != after_seq,
        stamp(None, after_seq) is None,
{
    let all = places(rows, at_seq(after_seq));
    law_places_are_those_of_accepted_rows(rows, at_seq(after_seq));
    if all.len() > 0 {
        let last = all.last();
        assert(all.contains(last));
        assert forall|j: int| last < j < rows.len() implies (#[trigger] rows[j]).0 != after_seq by {
            if rows[j].0 == after_seq {
                assert(all.contains(j as usize));
                let l = choose|l: int| 0 <= l < all.len() && all[l] == j as usize;
                if l < all.len() - 1 {
                    assert(all[l] < all[all.len() - 1]);
                }
            }
        }
        assert(rows[last as int].0 == after_seq);
        if n < rows.len() && rows[n as int].0 == after_seq && n != last {
            if n > last {
                assert(rows[n as int].0 != after_seq);
            } else {
                assert(n < last);
            }
        }
    } else {
        assert forall|j: int| 0 <= j < rows.len() implies (#[trigger] rows[j]).0 != after_seq by {
            if rows[j].0 == after_seq {
                assert(all.contains(j as usize));
            }
        }
    }
}

/// The numbers of a queue are those that its advisories bring.
pub proof fn law_queue_brings_the_numbers_of_its_advisories(
    window: Option<Seq<(u64, SessionLogEntry)>>,
    queue: Seq<AdvisoryEnvelope>,
    n: usize,
)
    ensures
        stamps(window, queue).contains(n) <==> exists|i: int|
            0 <= i < queue.len() && stamp(window, (#[trigger] queue[i]).after_seq) == Some(n),
    decreases queue.len(),
{
    if queue.len() > 0 {
        let t = queue.drop_last();
        let last = queue.len() - 1;
        law_queue_brings_the_numbers_of_its_advisories(window, t, n);
        assert(queue[last] == queue.last());
        if stamps(window, t).contains(n) {
            let k = choose|k: int|
                0 <= k < t.len() && stamp(window, (#[trigger] t[k]).after_seq) == Some(n);
            assert(queue[k] == t[k]);
        }
        if exists|i: int|
            0 <= i < queue.len() && stamp(window, (#[trigger] queue[i]).after_seq) == Some(n) {
            let k = choose|k: int|
                0 <= k < queue.len() && stamp(window, (#[trigger] queue[k]).after_seq) == Some(n);
            if k < last {
                assert(t[k] == queue[k]);
            }
        }
    }
}

/// One advisory more is flushed behind the others: first the number that it brings, unless it was
/// given before or an advisory before it brought it, then what it says, unless that is a number.
pub proof fn law_flush_numbers_each_advisory_before_it(
    window: Option<Seq<(u64, SessionLogEntry)>>,
    seen: Set<usize>,
    queue: Seq<AdvisoryEnvelope>,
    envelope: AdvisoryEnvelope,
)
    ensures
        ({
            let number = stamp(window, envelope.after_seq);
            let fresh = number is Some && !seen.contains(number->0) && forall|i: int|
                0 <= i < queue.len() ==> stamp(window, (#[trigger] queue[i]).after_seq) != number;
            let numbers = if fresh {
                seq![EventView::LogSeqAssigned(number->0)]
            } else {
                Seq::empty()
            };
            let said = if envelope.event matches AgentEvent::Session(
                SessionEvent::LogSeqAssigned { .. },
            ) {
                Seq::empty()
            } else {
                seq![event_view(envelope.event)]
            };
            flushed(window, seen, queue.push(envelope)) == flushed(window, seen, queue) + numbers
                + said
        }),
        flushed(window, seen, Seq::empty()).len() == 0,
{
    let more = queue.push(envelope);
    assert(more.drop_last() =~= queue);
    assert(more.last() == envelope);
    let number = stamp(window, envelope.after_seq);
    let before = flushed(window, seen, queue);
    if let Some(n) = number {
        law_queue_brings_the_numbers_of_its_advisories(window, queue, n);
        if seen.union(stamps(window, queue)).contains(n) {
            assert(before =~= before + Seq::<EventView>::empty());
        } else {
            assert(before.push(EventView::LogSeqAssigned(n)) =~= before + seq![
                EventView::LogSeqAssigned(n),
            ]);
        }
    } else {
        assert(before =~= before + Seq::<EventView>::empty());
    }
    let stamped = if number is Some && !seen.union(stamps(window, queue)).contains(number->0) {
        before + seq![EventView::LogSeqAssigned(number->0)]
    } else {
        before + Seq::<EventView>::empty()
    };
    assert(stamped + Seq::<EventView>::empty() =~= stamped);
    assert(stamped.push(event_view(envelope.event)) =~= stamped + seq![event_view(envelope.event)]);
}

/// What advisories say without numbers is every event that is no number, in order.
pub proof fn law_advisory_events_are_those_that_are_no_numbers(
    queue: Seq<AdvisoryEnvelope>,
    events: Seq<EventView>,
)
    ensures
        advisory_events(queue) == queue.filter(
            |e: AdvisoryEnvelope|
                !(e.event matches AgentEvent::Session(SessionEvent::LogSeqAssigned { .. })),
        ).map_values(|e: AdvisoryEnvelope| event_view(e.event)),
        without_numbers(events) == events.filter(|e: EventView| !(e is LogSeqAssigned)),
    decreases queue.len() + events.len(),
{
    reveal(Seq::filter);
    let p = |e: AdvisoryEnvelope|
        !(e.event matches AgentEvent::Session(SessionEvent::LogSeqAssigned { .. }));
    let f = |e: AdvisoryEnvelope| event_view(e.event);
    if queue.len() > 0 {
        let t = queue.drop_last();
        let x = queue.last();
        law_advisory_events_are_those_that_are_no_numbers(t, events);
        if p(x) {
            assert(queue.filter(p) =~= t.filter(p).push(x));
            assert(t.filter(p).push(x).map_values(f) =~= t.filter(p).map_values(f).push(f(x)));
        } else {
            assert(queue.filter(p) =~= t.filter(p));
        }
    } else {
        assert(queue.filter(p).map_values(f) =~= Seq::<EventView>::empty());
        if events.len() > 0 {
            law_advisory_events_are_those_that_are_no_numbers(queue, events.drop_last());
        }
    }
}

} // verus!
