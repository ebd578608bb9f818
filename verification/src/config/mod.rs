//! The state that a frontend keeps between turns, and what its commands do to it.
use crate::config::session::{Agent, Model, Session};
use crate::config::tools::ToolDeclaration;
use vstd::prelude::*;
use vstd::string::*;

pub mod compaction;
pub mod session;
pub mod session_ops;
pub mod session_ops_core;
pub mod session_ops_title;
pub mod session_persistence;
pub mod session_tool_results;
pub mod settings;
pub mod tool_images;
pub mod tool_servers;
pub mod tools;
pub mod variables;

verus! {

/// What was asked and answered last.
#[derive(Debug)]
pub struct LastMessage {
    pub input: String,
    /// An agent was asked.
    pub with_agent: bool,
    pub output: String,
    /// Nothing has been changed since: a new session may take it over.
    pub continuous: bool,
}

/// The documents that answers are looked up in.
#[derive(Debug)]
pub struct Rag {
    pub reranker_model: Option<String>,
    pub top_k: usize,
}

/// The state that a frontend keeps between turns.
#[derive(Debug)]
pub struct Config {
    pub model: Model,
    /// A number in decimal, as it was given.
    pub temperature: Option<String>,
    /// A number in decimal, as it was given.
    pub top_p: Option<String>,
    pub use_tools: Option<Vec<String>>,
    pub compress_threshold: usize,
    pub title_update_threshold: usize,
    pub title_agent: Option<String>,
    pub rag_reranker_model: Option<String>,
    pub rag_top_k: usize,
    pub wrap: Option<String>,
    pub dry_run: bool,
    pub show_sequence_numbers: bool,
    pub show_timestamps: bool,
    pub tool_use: bool,
    pub stream: bool,
    pub save: bool,
    pub highlight: bool,
    pub remote_agent: Option<String>,
    pub nats_servers: Vec<String>,
    pub rag: Option<Rag>,
    pub session: Option<Session>,
    pub agent: Option<Agent>,
    pub last_message: Option<LastMessage>,
    pub tools: Vec<ToolDeclaration>,
    pub nats_tool_declarations: Vec<ToolDeclaration>,
    /// What the frontend calls before it hands the terminal to an editor, by its own number.
    pub tui_before_editor: Option<u64>,
    /// What the frontend calls when it has the terminal back, by its own number.
    pub tui_after_editor: Option<u64>,
    /// What the frontend calls to have a tool call confirmed, by its own number.
    pub tui_confirm_tool_use: Option<u64>,
}

impl Config {
    /// The state before anything is configured: tools may be used, answers are streamed and
    /// highlighted.
    pub fn new() -> (r: Config)
        ensures
            r.well_formed(),
            r.model.id@ == ""@,
            r.model.max_output_tokens is None,
            r.temperature is None && r.top_p is None && r.use_tools is None,
            r.compress_threshold == 0 && r.title_update_threshold == 0 && r.rag_top_k == 0,
            r.title_agent is None && r.rag_reranker_model is None && r.wrap is None,
            !r.dry_run && !r.show_sequence_numbers && !r.show_timestamps && !r.save,
            r.tool_use && r.stream && r.highlight,
            r.remote_agent is None && r.nats_servers@.len() == 0,
            r.rag is None && r.session is None && r.agent is None && r.last_message is None,
            r.tools@.len() == 0 && r.nats_tool_declarations@.len() == 0,
            r.tui_before_editor is None && r.tui_after_editor is None,
            r.tui_confirm_tool_use is None,
    {
        Config {
            model: Model::new(""),
            temperature: None,
            top_p: None,
            use_tools: None,
            compress_threshold: 0,
            title_update_threshold: 0,
            title_agent: None,
            rag_reranker_model: None,
            rag_top_k: 0,
            wrap: None,
            dry_run: false,
            show_sequence_numbers: false,
            show_timestamps: false,
            tool_use: true,
            stream: true,
            save: false,
            highlight: true,
            remote_agent: None,
            nats_servers: Vec::new(),
            rag: None,
            session: None,
            agent: None,
            last_message: None,
            tools: Vec::new(),
            nats_tool_declarations: Vec::new(),
            tui_before_editor: None,
            tui_after_editor: None,
            tui_confirm_tool_use: None,
        }
    }

    /// Each variable of the session and of the agent has one value.
    pub open spec fn well_formed(&self) -> bool {
        &&& self.session matches Some(s) ==> s.well_formed()
        &&& self.agent matches Some(a) ==> a.well_formed()
    }

    /// The state with another session.
    pub open spec fn with_session(self, session: Option<Session>) -> Config {
        Config { session, ..self }
    }

    /// The state with another agent.
    pub open spec fn with_agent(self, agent: Option<Agent>) -> Config {
        Config { agent, ..self }
    }

    /// The state in which the last message is no longer taken over.
    pub open spec fn discontinued(self) -> Config {
        Config {
            last_message: match self.last_message {
                Some(m) => Some(LastMessage { continuous: false, ..m }),
                None => None,
            },
            ..self
        }
    }

    /// From now on no session takes over the last message.
    pub fn discontinuous_last_message(&mut self)
        ensures
            *final(self) == old(self).discontinued(),
    {
        match &mut self.last_message {
            Some(m) => {
                m.continuous = false;
            },
            None => {},
        }
    }
}

/// Another session, or another agent, takes the place of the one before and leaves the rest: the
/// last one set counts, setting the same one changes nothing, and the two do not touch each other.
pub proof fn law_session_and_agent_are_set_apart(
    c: Config,
    session: Option<Session>,
    other: Option<Session>,
    agent: Option<Agent>,
    another: Option<Agent>,
)
    ensures
        c.with_session(session).session == session,
        c.with_session(session).with_session(other) == c.with_session(other),
        c.with_session(c.session) == c,
        c.with_session(session).agent == c.agent,
        c.with_agent(agent).agent == agent,
        c.with_agent(agent).with_agent(another) == c.with_agent(another),
        c.with_agent(c.agent) == c,
        c.with_agent(agent).session == c.session,
        c.with_session(session).with_agent(agent) == c.with_agent(agent).with_session(session),
{
}

/// A last message that is discontinued stays as it was but is no longer continued; nothing else
/// changes, and doing it twice changes nothing more.
pub proof fn law_discontinued_message_is_kept(c: Config)
    ensures
        c.last_message is None ==> c.discontinued() == c,
        c.last_message matches Some(m) ==> (c.discontinued().last_message matches Some(n)
            && !n.continuous && n.input == m.input && n.output == m.output && n.with_agent
            == m.with_agent),
        c.discontinued() == (Config { last_message: c.discontinued().last_message, ..c }),
        c.discontinued().discontinued() == c.discontinued(),
        c.last_message matches Some(m) ==> !m.continuous ==> c.discontinued() == c,
{
}

} // verus!
