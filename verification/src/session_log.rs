//! The entries of a durable session log.
use vstd::prelude::*;

verus! {

/// A JSON value, carried as it is: the arguments of a tool call, the output of a tool.
#[verifier::external_type_specification]
#[verifier::external_body]
pub struct ExJsonValue(serde_json::Value);

/// Cloning a `serde_json::Value` gives back an equal value.
pub assume_specification[ <serde_json::Value as Clone>::clone ](
    v: &serde_json::Value,
) -> (r: serde_json::Value)
    ensures
        r == *v,
;

/// Who speaks in a message.
#[derive(Clone, Copy, Debug, PartialEq, Eq, Structural)]
pub enum MessageRole {
    System,
    Assistant,
    User,
    Tool,
}

impl MessageRole {
    pub fn is_user(&self) -> (r: bool)
        ensures
            r == (*self == MessageRole::User),
    {
        *self == MessageRole::User
    }

    pub fn is_assistant(&self) -> (r: bool)
        ensures
            r == (*self == MessageRole::Assistant),
    {
        *self == MessageRole::Assistant
    }
}

/// One part of a message that holds more than text.
#[derive(Debug)]
pub enum MessageContentPart {
    Text { text: String },
    ImageUrl { url: String },
}

/// What a message says.
#[derive(Debug)]
pub enum MessageContent {
    Text(String),
    /// Several parts, and the words that they hold together.
    Array { text: String, parts: Vec<MessageContentPart> },
}

impl MessageContent {
    /// The words of the message.
    pub open spec fn words(self) -> Seq<char> {
        match self {
            MessageContent::Text(text) => text@,
            MessageContent::Array { text, parts } => text@,
        }
    }

    pub fn to_text(&self) -> (r: String)
        ensures
            r@ == self.words(),
    {
        match self {
            MessageContent::Text(text) => text.clone(),
            MessageContent::Array { text, parts } => text.clone(),
        }
    }
}

/// A tool call that the model asked for.
#[derive(Debug)]
pub struct ToolCall {
    pub name: String,
    pub arguments: serde_json::Value,
    pub id: Option<String>,
    pub thought_signature: Option<String>,
}

/// How far a sub-agent has come.
#[derive(Clone, Copy, Debug, PartialEq, Eq, Structural)]
pub enum SubAgentProgressStatus {
    Running,
    Done,
    Failed,
    Cancelled,
}

/// A report on a sub-agent, as a tool result carries it.
#[derive(Debug)]
pub struct SubAgentProgress {
    pub invocation_id: String,
    pub agent: String,
    pub session_id: String,
    pub status: SubAgentProgressStatus,
    pub elapsed_ms: u64,
    pub tool_call_count: u64,
}

/// The durable result of one tool call.
#[derive(Debug)]
pub struct ToolOutput {
    pub id: Option<String>,
    pub name: String,
    pub output: serde_json::Value,
    pub markdown: Option<String>,
    pub content: Vec<MessageContentPart>,
    pub switch_agent: Option<String>,
    /// The member `sub_agent_progress` of the output, where it reads as a report.
    pub sub_agent_progress: Option<SubAgentProgress>,
}

/// Why a compaction left the session as it was.
#[derive(Clone, Copy, Debug, PartialEq, Eq, Structural)]
pub enum UnchangedReason {
    NoUserMessages,
    NothingEligible,
    AlreadyCompacted,
}

/// How a compaction ended.
#[derive(Debug, PartialEq, Eq)]
pub enum CompactOutcome {
    Compacted,
    Unchanged(UnchangedReason),
    Failed(String),
}

/// What the end of a compaction says.
pub enum OutcomeView {
    Compacted,
    Unchanged(UnchangedReason),
    Failed(Seq<char>),
}

/// What the end of a compaction says.
pub open spec fn outcome_view(outcome: CompactOutcome) -> OutcomeView {
    match outcome {
        CompactOutcome::Compacted => OutcomeView::Compacted,
        CompactOutcome::Unchanged(reason) => OutcomeView::Unchanged(reason),
        CompactOutcome::Failed(message) => OutcomeView::Failed(message@),
    }
}

/// An entry that an edit puts into the log.
#[derive(Debug)]
pub enum Replacement {
    Entry(SessionLogEntry),
    /// A text that does not read as an entry.
    Malformed(String),
}

/// One entry of the session log.
#[derive(Debug)]
#[allow(inconsistent_fields)]
pub enum SessionLogEntry {
    Header { model_id: String, agent_name: Option<String>, session_id: Option<String> },
    Message {
        id: Option<String>,
        role: MessageRole,
        content: MessageContent,
        fence_token: Option<u64>,
    },
    ToolCalls {
        text: String,
        thought: Option<String>,
        calls: Vec<ToolCall>,
        fence_token: Option<u64>,
    },
    ToolResults { results: Vec<ToolOutput> },
    TurnEnd { through_seq: u64, fence_token: u64 },
    Cancel { fence_token: u64, cancellation_id: Option<String>, requested_by: Option<String> },
    Error { message: String, fence_token: u64 },
    Compress { prompt: String },
    CompactRequest { compaction_id: String, requested_by: Option<String> },
    CompactResult { compaction_id: String, outcome: CompactOutcome },
    SubAgentStarted {
        agent: String,
        session_id: String,
        invocation_id: Option<String>,
        tool_call_id: Option<String>,
    },
    HandoffCommitted {
        target_agent: String,
        target_session_id: String,
        handoff_tool_call_id: Option<String>,
    },
    HitlApprovalRequested { tool_call_id: String, summary: String, fence_token: u64 },
    HitlApprovalDecision {
        tool_call_id: String,
        approved: bool,
        note: Option<String>,
        fence_token: u64,
    },
    DataUrls { urls: Vec<(String, String)> },
    Title { title: String },
    Clear,
    EditEntries { from: usize, to: usize, replacements: Vec<Replacement> },
    Rewind { after_seq: usize },
    Unknown,
}

impl SessionLogEntry {
    /// A message of the user.
    pub open spec fn is_user_message(self) -> bool {
        self matches SessionLogEntry::Message { role, .. } && role == MessageRole::User
    }

    /// A message of the assistant.
    pub open spec fn is_assistant_message(self) -> bool {
        self matches SessionLogEntry::Message { role, .. } && role == MessageRole::Assistant
    }

    pub fn user_message(&self) -> (r: bool)
        ensures
            r == self.is_user_message(),
    {
        match self {
            SessionLogEntry::Message { role, .. } => role.is_user(),
            _ => false,
        }
    }

    /// A request to interrupt the running turn, outside any lease.
    pub fn cancel_request(cancellation_id: String, requested_by: String) -> (r: Self)
        ensures
            r == (SessionLogEntry::Cancel {
                fence_token: 0,
                cancellation_id: Some(cancellation_id),
                requested_by: Some(requested_by),
            }),
    {
        SessionLogEntry::Cancel {
            fence_token: 0,
            cancellation_id: Some(cancellation_id),
            requested_by: Some(requested_by),
        }
    }

    /// A request to compact the session.
    pub fn compact_request(compaction_id: String, requested_by: Option<String>) -> (r: Self)
        ensures
            r == (SessionLogEntry::CompactRequest { compaction_id, requested_by }),
    {
        SessionLogEntry::CompactRequest { compaction_id, requested_by }
    }

    /// The answer to a request to compact.
    pub fn compact_result(compaction_id: String, outcome: CompactOutcome) -> (r: Self)
        ensures
            r == (SessionLogEntry::CompactResult { compaction_id, outcome }),
    {
        SessionLogEntry::CompactResult { compaction_id, outcome }
    }
}

/// A row of the log: an entry and the sequence number at which it stands.
pub type Row<'a> = (u64, &'a SessionLogEntry);

/// The rows behind references.
pub open spec fn rows_view(rows: Seq<(u64, &SessionLogEntry)>) -> Seq<(u64, SessionLogEntry)> {
    Seq::new(rows.len(), |i: int| (rows[i].0, *rows[i].1))
}

/// The entries of a log as rows.
pub fn rows_of<'a>(entries: &'a [(u64, SessionLogEntry)]) -> (rows: Vec<Row<'a>>)
    ensures
        rows_view(rows@) == entries@,
{
    let mut rows: Vec<Row<'a>> = Vec::new();
    let mut i: usize = 0;
    while i < entries.len()
        invariant
            i <= entries@.len(),
            rows_view(rows@) == entries@.take(i as int),
        decreases entries@.len() - i,
    {
        let ghost before = rows@;
        rows.push((entries[i].0, &entries[i].1));
        assert(rows_view(rows@) =~= rows_view(before).push(entries@[i as int]));
        assert(entries@.take(i + 1) =~= entries@.take(i as int).push(entries@[i as int]));
        i += 1;
    }
    assert(entries@.take(i as int) =~= entries@);
    rows
}

/// A message speaks for the user, or for the assistant, exactly as its role says; no other entry
/// speaks for either.
pub proof fn law_roles_say_who_speaks(e: SessionLogEntry)
    ensures
        match e {
            SessionLogEntry::Message { role, .. } => e.is_user_message() == (role
                == MessageRole::User) && e.is_assistant_message() == (role
                == MessageRole::Assistant),
            _ => !e.is_user_message() && !e.is_assistant_message(),
        },
{
}

/// The words of a message are its text, whether it holds further parts or not.
pub proof fn law_words_are_the_text(content: MessageContent)
    ensures
        content matches MessageContent::Text(text) ==> content.words() == text@,
        content matches MessageContent::Array { text, .. } ==> content.words() == text@,
{
}

/// How a compaction ended is told with all that it says.
pub proof fn law_outcomes_are_told_in_full(outcome: CompactOutcome)
    ensures
        outcome is Compacted <==> outcome_view(outcome) is Compacted,
        outcome matches CompactOutcome::Unchanged(reason) ==> outcome_view(outcome)
            == OutcomeView::Unchanged(reason),
        outcome matches CompactOutcome::Failed(message) ==> outcome_view(outcome)
            == OutcomeView::Failed(message@),
{
}

/// Rows behind references are the rows themselves, one for one.
pub proof fn law_rows_are_kept(rows: Seq<(u64, &SessionLogEntry)>)
    ensures
        rows_view(rows).len() == rows.len(),
        forall|i: int|
            0 <= i < rows.len() ==> (#[trigger] rows_view(rows)[i]).0 == rows[i].0 && rows_view(
                rows,
            )[i].1 == *rows[i].1,
{
}

} // verus!
