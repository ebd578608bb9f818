//! A session in memory: its messages and its settings.
use crate::session_log::{
    MessageContent, MessageContentPart, MessageRole, SubAgentProgress, ToolCall,
};
use crate::text::{opt_text, texts};
use vstd::prelude::*;
use vstd::string::*;

verus! {

/// The model of a session, an agent or the whole program.
#[derive(Debug)]
pub struct Model {
    pub id: String,
    /// How many tokens an answer may have.
    pub max_output_tokens: Option<isize>,
    /// Whether the limit is always sent along.
    pub require_max_tokens: bool,
}

impl Model {
    pub fn new(id: &str) -> (r: Model)
        ensures
            r.id@ == id@,
            r.max_output_tokens is None,
            !r.require_max_tokens,
    {
        Model { id: String::from_str(id), max_output_tokens: None, require_max_tokens: false }
    }

    /// The model with another limit.
    pub open spec fn limited(self, limit: Option<isize>, required: bool) -> Model {
        Model { id: self.id, max_output_tokens: limit, require_max_tokens: required }
    }

    pub fn set_max_tokens(&mut self, limit: Option<isize>, required: bool)
        ensures
            *final(self) == old(self).limited(limit, required),
    {
        self.max_output_tokens = limit;
        self.require_max_tokens = required;
    }

    pub fn copy(&self) -> (r: Model)
        ensures
            r == *self,
    {
        Model {
            id: self.id.clone(),
            max_output_tokens: self.max_output_tokens,
            require_max_tokens: self.require_max_tokens,
        }
    }
}

/// What a tool saw of the place in which it ran.
#[derive(Debug, PartialEq, Eq)]
pub struct ExecutionContextObservation {
    pub root: String,
    pub path: String,
    pub call_id: Option<String>,
}

/// The result of one tool call.
#[derive(Debug)]
pub struct ToolResult {
    pub call: ToolCall,
    pub output: serde_json::Value,
    pub markdown: Option<String>,
    pub content: Vec<MessageContentPart>,
    pub switch_agent: Option<String>,
    pub execution_context: Option<ExecutionContextObservation>,
    /// The report on a sub-agent that the output holds.
    pub sub_agent_progress: Option<SubAgentProgress>,
}

/// What a message of a session holds.
#[derive(Debug)]
pub enum SessionContent {
    Said(MessageContent),
    /// A round of tool calls, with a result in waiting for each of them.
    ToolCalls { text: String, tool_results: Vec<ToolResult> },
}

impl SessionContent {
    /// The words of the message.
    pub open spec fn words(self) -> Seq<char> {
        match self {
            SessionContent::Said(content) => content.words(),
            SessionContent::ToolCalls { text, .. } => text@,
        }
    }

    pub fn to_text(&self) -> (r: String)
        ensures
            r@ == self.words(),
    {
        match self {
            SessionContent::Said(content) => content.to_text(),
            SessionContent::ToolCalls { text, .. } => text.clone(),
        }
    }
}

/// A message of a session.
#[derive(Debug)]
pub struct Message {
    pub role: MessageRole,
    pub content: SessionContent,
    /// Where it stands in the log.
    pub log_seq: Option<usize>,
}

impl Message {
    pub fn new(role: MessageRole, text: String) -> (r: Message)
        ensures
            r == (Message {
                role,
                content: SessionContent::Said(MessageContent::Text(text)),
                log_seq: None,
            }),
    {
        Message {
            role,
            content: SessionContent::Said(MessageContent::Text(text)),
            log_seq: None,
        }
    }
}

/// A session in memory.
#[derive(Debug)]
pub struct Session {
    pub id: String,
    pub session_id: Option<String>,
    pub title: Option<String>,
    /// A title is being made.
    pub titling: bool,
    /// How many tokens the session had when it got its title. The largest number says that the
    /// user gave the title.
    pub title_last_updated_tokens: usize,
    /// A compaction is running.
    pub compressing: bool,
    pub tokens: usize,
    pub messages: Vec<Message>,
    pub model: Model,
    /// A number in decimal, as it was given.
    pub temperature: Option<String>,
    /// A number in decimal, as it was given.
    pub top_p: Option<String>,
    pub use_tools: Option<Vec<String>>,
    pub model_fallbacks: Vec<String>,
    pub compaction_agent: Option<String>,
    pub compress_threshold: Option<usize>,
    pub agent_name: Option<String>,
    pub agent_variables: Vec<(String, String)>,
    /// What is in memory is not all in the log.
    pub dirty: bool,
    pub log_entry_count: usize,
}

impl Session {
    /// Each variable has one value.
    pub open spec fn well_formed(&self) -> bool {
        distinct(variables_view(self.agent_variables@))
    }

    /// Takes down how many tokens the session has.
    pub fn update_tokens(&mut self, tokens: usize)
        ensures
            *final(self) == (Session { tokens, ..*old(self) }),
    {
        self.tokens = tokens;
    }

    /// A session without messages.
    pub fn new(id: &str, model: Model) -> (r: Session)
        ensures
            r.well_formed(),
            r.id@ == id@,
            opt_text(r.session_id) == Some(id@),
            r.model == model,
            r.messages@.len() == 0,
            r.agent_variables@.len() == 0,
            r.model_fallbacks@.len() == 0,
            r.title is None,
            r.title_last_updated_tokens == 0,
            r.tokens == 0,
            r.log_entry_count == 0,
            !r.titling && !r.compressing && !r.dirty,
            r.temperature is None && r.top_p is None && r.use_tools is None,
            r.compaction_agent is None && r.compress_threshold is None && r.agent_name is None,
    {
        Session {
            id: String::from_str(id),
            session_id: Some(String::from_str(id)),
            title: None,
            titling: false,
            title_last_updated_tokens: 0,
            compressing: false,
            tokens: 0,
            messages: Vec::new(),
            model,
            temperature: None,
            top_p: None,
            use_tools: None,
            model_fallbacks: Vec::new(),
            compaction_agent: None,
            compress_threshold: None,
            agent_name: None,
            agent_variables: Vec::new(),
            dirty: false,
            log_entry_count: 0,
        }
    }

    pub fn is_empty(&self) -> (r: bool)
        ensures
            r == (self.messages@.len() == 0),
    {
        self.messages.len() == 0
    }

    pub fn title(&self) -> (r: Option<&str>)
        ensures
            match r {
                Some(t) => opt_text(self.title) == Some(t@),
                None => self.title is None,
            },
    {
        match &self.title {
            Some(t) => Some(t.as_str()),
            None => None,
        }
    }

    pub fn title_last_updated_tokens(&self) -> (r: usize)
        ensures
            r == self.title_last_updated_tokens,
    {
        self.title_last_updated_tokens
    }

    /// Whether the user has said something.
    pub open spec fn asked(&self) -> bool {
        exists|i: int| 0 <= i < self.messages@.len() && #[trigger] self.messages@[i].role is User
    }

    pub fn has_user_messages(&self) -> (r: bool)
        ensures
            r == self.asked(),
    {
        let mut i: usize = 0;
        while i < self.messages.len()
            invariant
                i <= self.messages@.len(),
                forall|k: int| 0 <= k < i ==> !(#[trigger] self.messages@[k].role is User),
            decreases self.messages@.len() - i,
        {
            if self.messages[i].role.is_user() {
                return true;
            }
            i += 1;
        }
        false
    }

    /// Whether the session is due for a title: it has none and the user has said something, or it
    /// has grown by so many tokens since. A title that is being made, or that the user gave, is
    /// left alone.
    pub open spec fn title_due(&self, threshold: usize) -> bool {
        &&& !self.titling
        &&& self.title_last_updated_tokens != usize::MAX
        &&& if self.title is None {
            self.asked()
        } else {
            self.tokens >= self.title_last_updated_tokens + threshold
        }
    }

    pub fn need_generate_title(&self, threshold: usize) -> (r: bool)
        ensures
            r == self.title_due(threshold),
    {
        if self.titling || self.title_last_updated_tokens == usize::MAX {
            return false;
        }
        match self.title {
            None => self.has_user_messages(),
            Some(_) => self.tokens >= self.title_last_updated_tokens && self.tokens
                - self.title_last_updated_tokens >= threshold,
        }
    }

    /// Whether the session has outgrown its own limit, or else that of the program. A limit of
    /// zero is none.
    pub open spec fn outgrown(&self, threshold: usize) -> bool {
        let limit = match self.compress_threshold {
            Some(t) => t,
            None => threshold,
        };
        limit > 0 && self.tokens > limit
    }

    pub fn need_compress(&self, threshold: usize) -> (r: bool)
        ensures
            r == self.outgrown(threshold),
    {
        let limit: usize = match self.compress_threshold {
            Some(t) => t,
            None => threshold,
        };
        limit > 0 && self.tokens > limit
    }

    /// Drops all messages.
    pub fn clear_messages(&mut self)
        ensures
            final(self).messages@.len() == 0,
            *final(self) == (Session { messages: final(self).messages, ..*old(self) }),
    {
        self.messages = Vec::new();
    }

    /// Takes over the name and the variables of an agent.
    pub fn sync_agent(&mut self, agent: &Agent)
        ensures
            agent.well_formed() ==> final(self).well_formed(),
            opt_text(final(self).agent_name) == Some(agent.name@),
            variables_view(final(self).agent_variables@) == variables_view(agent.variables@),
            *final(self) == (Session {
                agent_name: final(self).agent_name,
                agent_variables: final(self).agent_variables,
                ..*old(self)
            }),
    {
        self.agent_name = Some(agent.name.clone());
        self.agent_variables = copy_variables(agent.variables.as_slice());
    }
}

/// The agent that answers in a session.
#[derive(Debug)]
pub struct Agent {
    pub name: String,
    pub model: Model,
    pub temperature: Option<String>,
    pub top_p: Option<String>,
    pub use_tools: Option<Vec<String>>,
    pub model_fallbacks: Vec<String>,
    pub compaction_agent: Option<String>,
    pub title_agent: Option<String>,
    /// The variables of the running session.
    pub variables: Vec<(String, String)>,
}

impl Agent {
    /// Each variable has one value.
    pub open spec fn well_formed(&self) -> bool {
        distinct(variables_view(self.variables@))
    }

    pub fn new(name: &str, model: Model) -> (r: Agent)
        ensures
            r.well_formed(),
            r.name@ == name@,
            r.model == model,
            r.temperature is None && r.top_p is None && r.use_tools is None,
            r.model_fallbacks@.len() == 0,
            r.compaction_agent is None && r.title_agent is None,
            r.variables@.len() == 0,
    {
        Agent {
            name: String::from_str(name),
            model,
            temperature: None,
            top_p: None,
            use_tools: None,
            model_fallbacks: Vec::new(),
            compaction_agent: None,
            title_agent: None,
            variables: Vec::new(),
        }
    }
}

/// The names and values of variables.
pub open spec fn variables_view(v: Seq<(String, String)>) -> Seq<(Seq<char>, Seq<char>)> {
    Seq::new(v.len(), |i: int| (v[i].0@, v[i].1@))
}

/// No name stands twice among variables.
pub open spec fn distinct(v: Seq<(Seq<char>, Seq<char>)>) -> bool {
    forall|i: int, j: int| 0 <= i < j < v.len() ==> (#[trigger] v[i]).0 != (#[trigger] v[j]).0
}

pub fn copy_variables(v: &[(String, String)]) -> (r: Vec<(String, String)>)
    ensures
        variables_view(r@) == variables_view(v@),
{
    let mut r: Vec<(String, String)> = Vec::new();
    let mut i: usize = 0;
    while i < v.len()
        invariant
            i <= v@.len(),
            variables_view(r@) == variables_view(v@).take(i as int),
        decreases v@.len() - i,
    {
        let ghost before = r@;
        r.push((v[i].0.clone(), v[i].1.clone()));
        assert(variables_view(r@) =~= variables_view(before).push((v@[i as int].0@, v@[i as int].1@)));
        assert(variables_view(v@).take(i + 1) =~= variables_view(v@).take(i as int).push(
            variables_view(v@)[i as int],
        ));
        i += 1;
    }
    assert(variables_view(v@).take(i as int) =~= variables_view(v@));
    r
}

/// Copies of texts.
pub fn copy_texts(v: &[String]) -> (r: Vec<String>)
    ensures
        texts(r@) == texts(v@),
{
    let mut r: Vec<String> = Vec::new();
    let mut i: usize = 0;
    while i < v.len()
        invariant
            i <= v@.len(),
            texts(r@) == texts(v@).take(i as int),
        decreases v@.len() - i,
    {
        let ghost before = r@;
        r.push(v[i].clone());
        assert(texts(r@) =~= texts(before).push(v@[i as int]@));
        assert(texts(v@).take(i + 1) =~= texts(v@).take(i as int).push(texts(v@)[i as int]));
        i += 1;
    }
    assert(texts(v@).take(i as int) =~= texts(v@));
    r
}

/// A limit is put on a model with whether it must be told, and the model stays the same one.
pub proof fn law_limit_leaves_the_model(model: Model, limit: Option<isize>, required: bool)
    ensures
        model.limited(limit, required).id == model.id,
        model.limited(limit, required).max_output_tokens == limit,
        model.limited(limit, required).require_max_tokens == required,
{
}

/// A message says its content, and a tool round what was said beside its calls.
pub proof fn law_content_says_its_text(content: SessionContent)
    ensures
        content matches SessionContent::Said(said) ==> content.words() == said.words(),
        content matches SessionContent::ToolCalls { text, .. } ==> content.words() == text@,
{
}

/// A title is due where none is being made and none was set by hand: the first one once the user
/// has asked something, and another once the session has grown by the threshold.
pub proof fn law_title_is_due_once_asked_or_grown(session: Session, threshold: usize)
    ensures
        session.asked() <==> exists|i: int|
            0 <= i < session.messages@.len() && (#[trigger] session.messages@[i]).role is User,
        session.titling || session.title_last_updated_tokens == usize::MAX ==> !session.title_due(
            threshold,
        ),
        !session.titling && session.title_last_updated_tokens < usize::MAX && session.title is None
            ==> session.title_due(threshold) == session.asked(),
        !session.titling && session.title_last_updated_tokens < usize::MAX && session.title is Some
            ==> (session.title_due(threshold) <==> session.tokens
            >= session.title_last_updated_tokens + threshold),
{
}

/// A session is outgrown above its own limit, or above the common one where it has none; a limit
/// of zero is none.
pub proof fn law_session_is_outgrown_above_its_limit(session: Session, threshold: usize)
    ensures
        session.compress_threshold is None ==> (session.outgrown(threshold) <==> threshold > 0
            && session.tokens > threshold),
        session.compress_threshold matches Some(own) ==> (session.outgrown(threshold) <==> own > 0
            && session.tokens > own),
{
}

/// Variables are told pair by pair, and are distinct where no two have the same name.
pub proof fn law_variables_are_told_in_pairs(v: Seq<(String, String)>)
    ensures
        variables_view(v).len() == v.len(),
        forall|i: int|
            0 <= i < v.len() ==> (#[trigger] variables_view(v)[i]).0 == v[i].0@
                && variables_view(v)[i].1 == v[i].1@,
        distinct(variables_view(v)) <==> forall|i: int, j: int|
            0 <= i < v.len() && 0 <= j < v.len() && i != j ==> (#[trigger] v[i]).0@ != (
            #[trigger] v[j]).0@,
{
    let w = variables_view(v);
    if distinct(w) {
        assert forall|i: int, j: int|
            0 <= i < v.len() && 0 <= j < v.len() && i != j implies (#[trigger] v[i]).0@ != (
        #[trigger] v[j]).0@ by {
            if i < j {
                assert(w[i].0 != w[j].0);
            } else {
                assert(w[j].0 != w[i].0);
            }
        }
    } else {
        let (i, j) = choose|i: int, j: int|
            0 <= i < j < w.len() && (#[trigger] w[i]).0 == (#[trigger] w[j]).0;
        assert(v[i].0@ == v[j].0@);
    }
}

} // verus!
