//! The events of a running session: what a frontend renders.
use crate::session_log::{outcome_view, CompactOutcome, OutcomeView, SubAgentProgress};
use crate::text::{opt_text, texts};
use vstd::prelude::*;

verus! {

/// Tokens that a completion used.
#[derive(Clone, Copy, Debug, PartialEq, Eq, Structural)]
pub struct CompletionTokenUsage {
    pub input_tokens: u64,
    pub output_tokens: u64,
}

/// No tokens at all.
pub open spec fn no_usage() -> CompletionTokenUsage {
    CompletionTokenUsage { input_tokens: 0, output_tokens: 0 }
}

impl Default for CompletionTokenUsage {
    fn default() -> (r: Self)
        ensures
            r == no_usage(),
    {
        CompletionTokenUsage { input_tokens: 0, output_tokens: 0 }
    }
}

#[derive(Debug)]
pub enum ContentBlock {
    Text(String),
}

#[derive(Debug)]
pub enum ModelEvent {
    MessageChunk { blocks: Vec<ContentBlock> },
    ThoughtChunk { text: String },
    Final { output: String, usage: CompletionTokenUsage },
    Error(String),
}

#[derive(Clone, Copy, Debug, PartialEq, Eq, Structural)]
pub enum ToolKind {
    Read,
    Edit,
    Execute,
    Other,
}

#[derive(Debug)]
pub enum ToolEvent {
    Started {
        id: String,
        name: String,
        kind: ToolKind,
        markdown: Option<String>,
        input: serde_json::Value,
        locations: Vec<String>,
    },
    Progress { id: String, text: String },
    Completed { id: String, output: serde_json::Value, markdown: Option<String> },
}

#[derive(Debug)]
pub enum TurnEvent {
    Started,
    Ended,
    SubAgentProgress(SubAgentProgress),
}

#[derive(Debug)]
pub enum NoticeEvent {
    Info(String),
    Warning(String),
    Error(String),
}

#[derive(Debug)]
pub enum UserEvent {
    Message { content: String },
}

#[derive(Debug)]
pub enum SessionEvent {
    /// The row rendered last has this place in the active window.
    LogSeqAssigned { seq: usize },
    /// A line for the user.
    Generic { text: String },
    CompactingStarted { compaction_id: Option<String> },
    CompactingCompleted { compaction_id: Option<String>, outcome: CompactOutcome },
    CompactingFailed { compaction_id: Option<String>, error: String },
    TitleUpdated(String),
    TitleGenerationFailed(String),
}

/// Something that happened in a session.
#[derive(Debug)]
pub enum AgentEvent {
    Model(ModelEvent),
    Tool(ToolEvent),
    Turn(TurnEvent),
    Notice(NoticeEvent),
    User(UserEvent),
    Session(SessionEvent),
    /// An event of a sub-agent, which says nothing of the turn of its parent.
    SubAgent { invocation_id: String, event: Box<AgentEvent> },
}

/// What an event says.
pub enum EventView {
    MessageChunk(Seq<Seq<char>>),
    ThoughtChunk(Seq<char>),
    ModelFinal(Seq<char>, CompletionTokenUsage),
    ModelError(Seq<char>),
    ToolStarted {
        id: Seq<char>,
        name: Seq<char>,
        kind: ToolKind,
        markdown: Option<Seq<char>>,
        input: serde_json::Value,
        locations: Seq<Seq<char>>,
    },
    ToolProgress(Seq<char>, Seq<char>),
    ToolCompleted { id: Seq<char>, output: serde_json::Value, markdown: Option<Seq<char>> },
    TurnStarted,
    TurnEnded,
    SubAgentProgress(SubAgentProgress),
    Info(Seq<char>),
    Warning(Seq<char>),
    Error(Seq<char>),
    UserMessage(Seq<char>),
    LogSeqAssigned(usize),
    Generic(Seq<char>),
    CompactingStarted(Option<Seq<char>>),
    CompactingCompleted(Option<Seq<char>>, OutcomeView),
    CompactingFailed(Option<Seq<char>>, Seq<char>),
    TitleUpdated(Seq<char>),
    TitleGenerationFailed(Seq<char>),
    SubAgent(Seq<char>, Box<EventView>),
}

/// The texts of content blocks.
pub open spec fn block_texts(blocks: Seq<ContentBlock>) -> Seq<Seq<char>> {
    Seq::new(blocks.len(), |i: int| blocks[i]->Text_0@)
}

/// What an event says.
pub open spec fn event_view(e: AgentEvent) -> EventView
    decreases e,
{
    match e {
        AgentEvent::Model(m) => match m {
            ModelEvent::MessageChunk { blocks } => EventView::MessageChunk(block_texts(blocks@)),
            ModelEvent::ThoughtChunk { text } => EventView::ThoughtChunk(text@),
            ModelEvent::Final { output, usage } => EventView::ModelFinal(output@, usage),
            ModelEvent::Error(message) => EventView::ModelError(message@),
        },
        AgentEvent::Tool(t) => match t {
            ToolEvent::Started { id, name, kind, markdown, input, locations } =>
            EventView::ToolStarted {
                id: id@,
                name: name@,
                kind,
                markdown: opt_text(markdown),
                input,
                locations: texts(locations@),
            },
            ToolEvent::Progress { id, text } => EventView::ToolProgress(id@, text@),
            ToolEvent::Completed { id, output, markdown } => EventView::ToolCompleted {
                id: id@,
                output,
                markdown: opt_text(markdown),
            },
        },
        AgentEvent::Turn(t) => match t {
            TurnEvent::Started => EventView::TurnStarted,
            TurnEvent::Ended => EventView::TurnEnded,
            TurnEvent::SubAgentProgress(p) => EventView::SubAgentProgress(p),
        },
        AgentEvent::Notice(n) => match n {
            NoticeEvent::Info(text) => EventView::Info(text@),
            NoticeEvent::Warning(text) => EventView::Warning(text@),
            NoticeEvent::Error(text) => EventView::Error(text@),
        },
        AgentEvent::User(UserEvent::Message { content }) => EventView::UserMessage(content@),
        AgentEvent::Session(s) => match s {
            SessionEvent::LogSeqAssigned { seq } => EventView::LogSeqAssigned(seq),
            SessionEvent::Generic { text } => EventView::Generic(text@),
            SessionEvent::CompactingStarted { compaction_id } => EventView::CompactingStarted(
                opt_text(compaction_id),
            ),
            SessionEvent::CompactingCompleted { compaction_id, outcome } =>
            EventView::CompactingCompleted(opt_text(compaction_id), outcome_view(outcome)),
            SessionEvent::CompactingFailed { compaction_id, error } => EventView::CompactingFailed(
                opt_text(compaction_id),
                error@,
            ),
            SessionEvent::TitleUpdated(title) => EventView::TitleUpdated(title@),
            SessionEvent::TitleGenerationFailed(error) => EventView::TitleGenerationFailed(error@),
        },
        AgentEvent::SubAgent { invocation_id, event } => EventView::SubAgent(
            invocation_id@,
            Box::new(event_view(*event)),
        ),
    }
}

/// What events say, in order.
pub open spec fn events_view(events: Seq<AgentEvent>) -> Seq<EventView> {
    Seq::new(events.len(), |i: int| event_view(events[i]))
}

/// Adds an event to those already rendered.
pub fn emit(sink: &mut Vec<AgentEvent>, event: AgentEvent)
    ensures
        events_view(final(sink)@) == events_view(old(sink)@).push(event_view(event)),
{
    let ghost before = sink@;
    sink.push(event);
    assert(events_view(sink@) =~= events_view(before).push(event_view(event)));
}

/// Adds a number for the row rendered last.
pub fn emit_seq(sink: &mut Vec<AgentEvent>, seq: usize)
    ensures
        events_view(final(sink)@) == events_view(old(sink)@).push(EventView::LogSeqAssigned(seq)),
{
    emit(sink, AgentEvent::Session(SessionEvent::LogSeqAssigned { seq }));
}

impl SubAgentProgress {
    /// An equal report.
    pub fn copy(&self) -> (r: Self)
        ensures
            r == *self,
    {
        SubAgentProgress {
            invocation_id: self.invocation_id.clone(),
            agent: self.agent.clone(),
            session_id: self.session_id.clone(),
            status: self.status,
            elapsed_ms: self.elapsed_ms,
            tool_call_count: self.tool_call_count,
        }
    }
}

/// What an event says holds every part of it, under the kind that it is.
pub proof fn law_events_are_told_in_full(e: AgentEvent)
    ensures
        e matches AgentEvent::Model(ModelEvent::MessageChunk { blocks }) ==> (
        event_view(e) matches EventView::MessageChunk(told) && told.len() == blocks@.len()
            && forall|i: int|
            0 <= i < told.len() ==> #[trigger] told[i] == blocks@[i]->Text_0@),
        e matches AgentEvent::Model(ModelEvent::ThoughtChunk { text }) ==> event_view(e)
            == EventView::ThoughtChunk(text@),
        e matches AgentEvent::Model(ModelEvent::Final { output, usage }) ==> event_view(e)
            == EventView::ModelFinal(output@, usage),
        e matches AgentEvent::Model(ModelEvent::Error(text)) ==> event_view(e)
            == EventView::ModelError(text@),
        e matches AgentEvent::Tool(
            ToolEvent::Started { id, name, kind, markdown, input, locations },
        ) ==> (event_view(e) matches EventView::ToolStarted {
            id: told_id,
            name: told_name,
            kind: told_kind,
            markdown: told_markdown,
            input: told_input,
            locations: told_locations,
        } && told_id == id@ && told_name == name@ && told_kind == kind && told_markdown == opt_text(
            markdown,
        ) && told_input == input && told_locations == texts(locations@)),
        e matches AgentEvent::Tool(ToolEvent::Progress { id, text }) ==> event_view(e)
            == EventView::ToolProgress(id@, text@),
        e matches AgentEvent::Tool(ToolEvent::Completed { id, output, markdown }) ==> (event_view(
            e,
        ) matches EventView::ToolCompleted {
            id: told_id,
            output: told_output,
            markdown: told_markdown,
        } && told_id == id@ && told_output == output && told_markdown == opt_text(markdown)),
        e matches AgentEvent::Turn(TurnEvent::Started) ==> event_view(e) is TurnStarted,
        e matches AgentEvent::Turn(TurnEvent::Ended) ==> event_view(e) is TurnEnded,
        e matches AgentEvent::Turn(TurnEvent::SubAgentProgress(p)) ==> event_view(e)
            == EventView::SubAgentProgress(p),
        e matches AgentEvent::Notice(NoticeEvent::Info(text)) ==> event_view(e) == EventView::Info(
            text@,
        ),
        e matches AgentEvent::Notice(NoticeEvent::Warning(text)) ==> event_view(e)
            == EventView::Warning(text@),
        e matches AgentEvent::Notice(NoticeEvent::Error(text)) ==> event_view(e)
            == EventView::Error(text@),
        e matches AgentEvent::User(UserEvent::Message { content }) ==> event_view(e)
            == EventView::UserMessage(content@),
        e matches AgentEvent::Session(SessionEvent::LogSeqAssigned { seq }) ==> event_view(e)
            == EventView::LogSeqAssigned(seq),
        e matches AgentEvent::Session(SessionEvent::Generic { text }) ==> event_view(e)
            == EventView::Generic(text@),
        e matches AgentEvent::Session(SessionEvent::CompactingStarted { compaction_id })
            ==> event_view(e) == EventView::CompactingStarted(opt_text(compaction_id)),
        e matches AgentEvent::Session(
            SessionEvent::CompactingCompleted { compaction_id, outcome },
        ) ==> event_view(e) == EventView::CompactingCompleted(
            opt_text(compaction_id),
            outcome_view(outcome),
        ),
        e matches AgentEvent::Session(SessionEvent::CompactingFailed { compaction_id, error })
            ==> event_view(e) == EventView::CompactingFailed(opt_text(compaction_id), error@),
        e matches AgentEvent::Session(SessionEvent::TitleUpdated(title)) ==> event_view(e)
            == EventView::TitleUpdated(title@),
        e matches AgentEvent::Session(SessionEvent::TitleGenerationFailed(error)) ==> event_view(e)
            == EventView::TitleGenerationFailed(error@),
        e matches AgentEvent::SubAgent { invocation_id, event } ==> (event_view(
            e,
        ) matches EventView::SubAgent(told_id, told) && told_id == invocation_id@ && *told
            == event_view(*event)),
        no_usage().input_tokens == 0 && no_usage().output_tokens == 0,
{
}

/// Events are told one for one, in order.
pub proof fn law_events_are_told_in_order(events: Seq<AgentEvent>)
    ensures
        events_view(events).len() == events.len(),
        forall|i: int|
            0 <= i < events.len() ==> #[trigger] events_view(events)[i] == event_view(events[i]),
{
}

} // verus!
