//! Sessions come and go: opening one, leaving it, emptying it, listing those of a cluster.
use crate::config::session::{variables_view, Agent, Message, Session, SessionContent};
use crate::config::Config;
use crate::session_log::{MessageContent, MessageRole};
use crate::text::{decimal, decimal_of, opt_text};
use vstd::prelude::*;
use vstd::string::*;

verus! {

/// How long sessions of a cluster are listed before the list is given up, in seconds.
pub const REMOTE_SESSION_LIST_TIMEOUT_SECS: u64 = 10;

/// Why a session was not opened, shown or emptied.
#[derive(Debug, PartialEq, Eq)]
pub enum SessionError {
    /// A new session gets its name from the cluster.
    MissingName,
    NoSession,
    /// The variables of the agent could not be set up.
    Variables(String),
    /// The messages could not be cleared from the log.
    NotCleared(String),
}

impl SessionError {
    pub open spec fn text(self) -> Seq<char> {
        match self {
            SessionError::MissingName =>
            "new session IDs must be reserved asynchronously in NATS"@,
            SessionError::NoSession => "No session"@,
            SessionError::Variables(e) => e@,
            SessionError::NotCleared(e) => e@,
        }
    }

    pub fn message(&self) -> (r: String)
        ensures
            r@ == self.text(),
            r@ == match *self {
                SessionError::MissingName =>
                "new session IDs must be reserved asynchronously in NATS"@,
                SessionError::NoSession => "No session"@,
                SessionError::Variables(e) => e@,
                SessionError::NotCleared(e) => e@,
            },
    {
        match self {
            SessionError::MissingName => String::from_str(
                "new session IDs must be reserved asynchronously in NATS",
            ),
            SessionError::NoSession => String::from_str("No session"),
            SessionError::Variables(e) => e.clone(),
            SessionError::NotCleared(e) => e.clone(),
        }
    }
}

/// Whether a session is one that was just opened under this name: without messages, with the
/// model of the agent or of the program, and with the agent.
pub open spec fn is_fresh(c: Config, id: Seq<char>, s: Session) -> bool {
    &&& s.id@ == id
    &&& opt_text(s.session_id) == Some(id)
    &&& s.model == match c.agent {
        Some(a) => a.model,
        None => c.model,
    }
    &&& opt_text(s.agent_name) == match c.agent {
        Some(a) => Some(a.name@),
        None => None,
    }
    &&& match c.agent {
        Some(a) => variables_view(s.agent_variables@)
            == variables_view(a.variables@),
        None => s.agent_variables@.len() == 0,
    }
    &&& s.title is None && s.title_last_updated_tokens == 0
    &&& !s.titling && !s.compressing && !s.dirty
    &&& s.tokens == 0 && s.log_entry_count == 0
    &&& s.temperature is None && s.top_p is None && s.use_tools is None
    &&& s.model_fallbacks@.len() == 0
    &&& s.compaction_agent is None && s.compress_threshold is None
}

/// The messages that a new session takes over from before it.
pub open spec fn taken_over(c: Config, take_over: bool) -> Seq<Message> {
    if take_over && c.offers() {
        let m = c.last_message->0;
        seq![message_of(MessageRole::User, m.input), message_of(MessageRole::Assistant, m.output)]
    } else {
        Seq::empty()
    }
}

/// A message that holds a text.
pub open spec fn message_of(role: MessageRole, text: String) -> Message {
    Message {
        role,
        content: SessionContent::Said(
            MessageContent::Text(text),
        ),
        log_seq: None,
    }
}

/// A new session under a name.
pub fn new_session(config: &Config, id: &str) -> (r: Session)
    ensures
        is_fresh(*config, id@, r),
        r.messages@.len() == 0,
        config.well_formed() ==> r.well_formed(),
{
    match &config.agent {
        Some(agent) => {
            let mut session = Session::new(id, agent.model.copy());
            session.sync_agent(agent);
            session
        },
        None => Session::new(id, config.model.copy()),
    }
}

impl Config {
    /// Whether a new session may take over the last question and answer: nothing came between,
    /// and the same kind of speaker is asked.
    pub open spec fn offers(&self) -> bool {
        self.last_message matches Some(m) && m.continuous && m.output@.len() > 0 && (self.agent
            is Some) == m.with_agent
    }

    pub fn offers_last_message(&self) -> (r: bool)
        ensures
            r == self.offers(),
    {
        match &self.last_message {
            Some(m) => m.continuous && !m.output.as_str().is_empty() && self.agent.is_some()
                == m.with_agent,
            None => false,
        }
    }

    /// Opens a session. `take_over` is the answer of the user to the question whether it takes
    /// over the last question and answer, where that question is put. Where the variables of the
    /// agent cannot be set up, everything stays as it is.
    pub fn use_session(
        &mut self,
        session_name: Option<&str>,
        take_over: bool,
        variables_error: Option<String>,
    ) -> (r: Result<(), SessionError>)
        ensures
            old(self).well_formed() ==> final(self).well_formed(),
            match (session_name, variables_error) {
                (None, _) => r == Err::<(), SessionError>(SessionError::MissingName)
                    && *final(self) == *old(self),
                (Some(_), Some(e)) => r == Err::<(), SessionError>(SessionError::Variables(e))
                    && *final(self) == *old(self),
                (Some(name), None) => {
                    &&& r is Ok
                    &&& final(self).session matches Some(s)
                    &&& is_fresh(*old(self), name@, s)
                    &&& s.messages@ == taken_over(*old(self), take_over)
                    &&& *final(self) == if old(self).session is Some {
                        old(self).discontinued().with_session(final(self).session)
                    } else {
                        old(self).with_session(final(self).session)
                    }
                },
            },
    {
        let name = match session_name {
            Some(name) => name,
            None => {
                return Err(SessionError::MissingName);
            },
        };
        match variables_error {
            Some(e) => {
                return Err(SessionError::Variables(e));
            },
            None => {},
        }
        let mut session = new_session(self, name);
        if take_over && self.offers_last_message() {
            match &self.last_message {
                Some(m) => {
                    session.messages.push(Message::new(MessageRole::User, m.input.clone()));
                    session.messages.push(Message::new(MessageRole::Assistant, m.output.clone()));
                },
                None => {},
            }
        }
        assert(session.messages@ =~= taken_over(*self, take_over));
        let replaces: bool = self.session.is_some();
        self.session = Some(session);
        if replaces {
            self.discontinuous_last_message();
        }
        Ok(())
    }

    /// The session, to be shown to the user.
    pub fn session_info(&self) -> (r: Result<&Session, SessionError>)
        ensures
            match self.session {
                Some(s) => r matches Ok(found) && *found == s,
                None => r == Err::<&Session, SessionError>(SessionError::NoSession),
            },
    {
        match &self.session {
            Some(session) => Ok(session),
            None => Err(SessionError::NoSession),
        }
    }

    /// Leaves the session, if there is one.
    pub fn exit_session(&mut self) -> (r: Result<(), SessionError>)
        ensures
            old(self).well_formed() ==> final(self).well_formed(),
            r is Ok,
            *final(self) == if old(self).session is Some {
                old(self).discontinued().with_session(None)
            } else {
                *old(self)
            },
    {
        if self.session.is_some() {
            self.session = None;
            self.discontinuous_last_message();
        }
        Ok(())
    }

    /// What the frontend calls around an editor.
    pub fn set_tui_editor_hooks(&mut self, before: Option<u64>, after: Option<u64>)
        ensures
            *final(self) == (Config {
                tui_before_editor: before,
                tui_after_editor: after,
                ..*old(self)
            }),
    {
        self.tui_before_editor = before;
        self.tui_after_editor = after;
    }

    /// What the frontend calls to have a tool call confirmed.
    pub fn set_tui_confirm_tool_use(&mut self, confirm: Option<u64>)
        ensures
            *final(self) == (Config { tui_confirm_tool_use: confirm, ..*old(self) }),
    {
        self.tui_confirm_tool_use = confirm;
    }

    /// Empties the session. Where the log cannot be cleared, the messages stay.
    pub fn empty_session(&mut self, clear_error: Option<String>) -> (r: Result<(), SessionError>)
        ensures
            old(self).well_formed() ==> final(self).well_formed(),
            match (old(self).session, clear_error) {
                (None, _) => r == Err::<(), SessionError>(SessionError::NoSession)
                    && *final(self) == *old(self),
                (Some(s), Some(e)) => {
                    &&& r == Err::<(), SessionError>(SessionError::NotCleared(e))
                    &&& final(self).session matches Some(t)
                    &&& t.messages == s.messages
                    &&& is_synced(old(self).agent, s, t)
                    &&& *final(self) == old(self).with_session(final(self).session)
                },
                (Some(s), None) => {
                    &&& r is Ok
                    &&& final(self).session matches Some(t)
                    &&& t.messages@.len() == 0
                    &&& is_synced(old(self).agent, s, t)
                    &&& *final(self) == old(self).discontinued().with_session(final(self).session)
                },
            },
    {
        match (&mut self.session, &self.agent) {
            (Some(session), Some(agent)) => {
                session.sync_agent(agent);
            },
            (Some(_), None) => {},
            (None, _) => {
                return Err(SessionError::NoSession);
            },
        }
        match clear_error {
            Some(e) => {
                return Err(SessionError::NotCleared(e));
            },
            None => {},
        }
        match &mut self.session {
            Some(session) => {
                session.clear_messages();
            },
            None => {},
        }
        self.discontinuous_last_message();
        Ok(())
    }

    /// Empties the session whose log is cleared already.
    pub fn empty_session_after_persisted_clear(&mut self) -> (r: Result<(), SessionError>)
        ensures
            old(self).well_formed() ==> final(self).well_formed(),
            match old(self).session {
                None => r == Err::<(), SessionError>(SessionError::NoSession) && *final(self)
                    == *old(self),
                Some(s) => {
                    &&& r is Ok
                    &&& final(self).session matches Some(t)
                    &&& t.messages@.len() == 0
                    &&& t == (Session { messages: t.messages, ..s })
                    &&& *final(self) == old(self).discontinued().with_session(final(self).session)
                },
            },
    {
        match &mut self.session {
            Some(session) => {
                session.clear_messages();
            },
            None => {
                return Err(SessionError::NoSession);
            },
        }
        self.discontinuous_last_message();
        Ok(())
    }

    /// Opens the session anew whose log is cleared already, under the same name. The agent
    /// forgets what it knew of the session.
    pub fn reset_session_after_persisted_clear(&mut self, variables_error: Option<String>) -> (r:
        Result<(), SessionError>)
        ensures
            old(self).well_formed() ==> final(self).well_formed(),
            match (old(self).session, variables_error) {
                (None, _) => r is Ok && final(self).is_left(*old(self)),
                (Some(_), Some(e)) => r == Err::<(), SessionError>(SessionError::Variables(e))
                    && final(self).is_left(*old(self)),
                (Some(s), None) => {
                    &&& r is Ok
                    &&& final(self).session matches Some(t)
                    &&& t.messages@.len() == 0
                    &&& is_fresh(*final(self), s.id@, t)
                    &&& final(self).with_session(None).is_left(*old(self))
                },
            },
    {
        let name: Option<String> = match &self.session {
            Some(session) => Some(session.id.clone()),
            None => None,
        };
        if name.is_some() {
            self.session = None;
            self.discontinuous_last_message();
        }
        match &mut self.agent {
            Some(agent) => {
                agent.variables = Vec::new();
            },
            None => {},
        }
        assert(self.is_left(*old(self)));
        match name {
            Some(name) => self.use_session(Some(name.as_str()), false, variables_error),
            None => Ok(()),
        }
    }

    /// The state without its session, after it is left.
    pub open spec fn left(&self) -> Config {
        if self.session is Some {
            self.discontinued().with_session(None)
        } else {
            *self
        }
    }

    /// Whether this is the state after a session was left and its agent has forgotten it.
    pub open spec fn is_left(&self, before: Config) -> bool {
        &&& *self == before.left().with_agent(self.agent)
        &&& match (before.agent, self.agent) {
            (Some(a), Some(b)) => b.variables@.len() == 0 && b == (Agent {
                variables: b.variables,
                ..a
            }),
            (None, None) => true,
            _ => false,
        }
    }

    /// Whether a compaction of the session is running.
    pub fn is_compacting_session(&self) -> (r: bool)
        ensures
            r == (self.session is Some && self.session->0.compressing),
    {
        match &self.session {
            Some(session) => session.compressing,
            None => false,
        }
    }
}

/// Whether a session has taken over the name and the variables of the agent, and kept the rest
/// but its messages.
pub open spec fn is_synced(agent: Option<Agent>, before: Session, after: Session) -> bool {
    match agent {
        None => after == (Session { messages: after.messages, ..before }),
        Some(a) => {
            &&& opt_text(after.agent_name) == Some(a.name@)
            &&& variables_view(after.agent_variables@)
                == variables_view(a.variables@)
            &&& after == (Session {
                messages: after.messages,
                agent_name: after.agent_name,
                agent_variables: after.agent_variables,
                ..before
            })
        },
    }
}

/// What a cluster keeps of a session. Times are in milliseconds.
#[derive(Debug)]
pub struct SessionMetadata {
    pub session_id: String,
    pub agent_name: Option<String>,
    pub title: Option<String>,
    pub created_at: i64,
    /// The places in which tools ran, where what is kept of them is valid.
    pub contexts: Option<Vec<String>>,
}

/// When a session was used.
#[derive(Clone, Copy, Debug, PartialEq, Eq, Structural)]
pub struct SessionActivity {
    pub first_activation_at: Option<i64>,
    pub last_activity_at: i64,
}

/// A session as a cluster lists it.
#[derive(Debug)]
pub struct ListedSession {
    pub metadata: SessionMetadata,
    pub metadata_revision: u64,
    pub activity: Option<SessionActivity>,
}

/// A session as it is shown to the user.
#[derive(Debug)]
pub struct SessionMeta {
    pub id: String,
    pub session_id: Option<String>,
    pub agent_name: Option<String>,
    pub title: Option<String>,
    pub modified: Option<i64>,
    pub contexts: Vec<String>,
}

/// A session as it is shown to the user: it was changed when it was last used, or when it was
/// made.
pub fn listed_session_to_meta(record: ListedSession) -> (r: SessionMeta)
    ensures
        r.id == record.metadata.session_id,
        r.session_id == Some(record.metadata.session_id),
        r.agent_name == record.metadata.agent_name,
        r.title == record.metadata.title,
        r.modified == Some(
            match record.activity {
                Some(a) => a.last_activity_at,
                None => record.metadata.created_at,
            },
        ),
        match record.metadata.contexts {
            Some(c) => r.contexts == c,
            None => r.contexts@.len() == 0,
        },
{
    let modified: i64 = match &record.activity {
        Some(a) => a.last_activity_at,
        None => record.metadata.created_at,
    };
    SessionMeta {
        id: record.metadata.session_id.clone(),
        session_id: Some(record.metadata.session_id),
        agent_name: record.metadata.agent_name,
        title: record.metadata.title,
        modified: Some(modified),
        contexts: match record.metadata.contexts {
            Some(c) => c,
            None => Vec::new(),
        },
    }
}

/// Why the sessions of a cluster cannot be listed. That there are none is no error.
#[derive(Clone, Copy, Debug, PartialEq, Eq, Structural)]
pub enum ListError {
    TimedOut,
    NotConnected,
    /// The cluster has not kept anything yet, which does not say that there are no sessions.
    NotInitialized,
    NoAccess,
    NotListed,
}

impl ListError {
    /// What the user is told. `bucket` is where a cluster keeps its sessions.
    pub fn message(&self, cluster: &str, bucket: &str) -> (r: String)
        ensures
            r@ == match *self {
                ListError::TimedOut => "Timed out listing sessions from NATS cluster '"@ + cluster@
                    + "' after "@ + decimal(REMOTE_SESSION_LIST_TIMEOUT_SECS as nat) + "s"@,
                ListError::NotConnected => "Failed to connect to NATS cluster '"@ + cluster@
                    + "' for session enumeration"@,
                ListError::NotInitialized =>
                "Session discovery is not available yet because canonical metadata for cluster '"@
                    + cluster@ + "' has not been initialized; try again shortly"@,
                ListError::NoAccess => "Failed to access session metadata bucket '"@ + bucket@
                    + "' for cluster '"@ + cluster@ + "'"@,
                ListError::NotListed => "Failed to list session metadata records for cluster '"@
                    + cluster@ + "'"@,
            },
    {
        match self {
            ListError::TimedOut => {
                let mut r = String::from_str("Timed out listing sessions from NATS cluster '");
                r.append(cluster);
                r.append("' after ");
                r.append(decimal_of(REMOTE_SESSION_LIST_TIMEOUT_SECS).as_str());
                r.append("s");
                r
            },
            ListError::NotConnected => {
                let mut r = String::from_str("Failed to connect to NATS cluster '");
                r.append(cluster);
                r.append("' for session enumeration");
                r
            },
            ListError::NotInitialized => {
                let mut r = String::from_str(
                    "Session discovery is not available yet because canonical metadata for cluster '",
                );
                r.append(cluster);
                r.append("' has not been initialized; try again shortly");
                r
            },
            ListError::NoAccess => {
                let mut r = String::from_str("Failed to access session metadata bucket '");
                r.append(bucket);
                r.append("' for cluster '");
                r.append(cluster);
                r.append("'");
                r
            },
            ListError::NotListed => {
                let mut r = String::from_str(
                    "Failed to list session metadata records for cluster '",
                );
                r.append(cluster);
                r.append("'");
                r
            },
        }
    }
}

/// A session that was opened, and then left, leaves nothing behind but that the last message is
/// no longer taken over.
pub proof fn law_leaving_undoes_opening(c: Config, opened: Config)
    requires
        c.session is None,
        opened == c.with_session(opened.session),
        opened.session is Some,
    ensures
        opened.left() == c.discontinued(),
{
}

/// After a session was left, no other takes over the last message.
pub proof fn law_left_session_is_not_taken_over(c: Config)
    requires
        c.session is Some,
    ensures
        !c.left().offers(),
{
}

/// A fresh session has its identifier, the model and the variables of the agent, or of the
/// configuration where there is no agent, and nothing else yet.
pub proof fn law_fresh_session_starts_with_its_agent(c: Config, id: Seq<char>, s: Session)
    requires
        is_fresh(c, id, s),
    ensures
        s.id@ == id,
        s.session_id matches Some(own) && own@ == id,
        c.agent matches Some(a) ==> s.model == a.model && (s.agent_name matches Some(n) && n@
            == a.name@) && variables_view(s.agent_variables@) == variables_view(a.variables@),
        c.agent is None ==> s.model == c.model && s.agent_name is None && s.agent_variables@.len()
            == 0,
        s.title is None && s.title_last_updated_tokens == 0 && s.tokens == 0 && s.log_entry_count
            == 0,
        !s.titling && !s.compressing && !s.dirty,
        s.temperature is None && s.top_p is None && s.use_tools is None
            && s.model_fallbacks@.len() == 0 && s.compaction_agent is None
            && s.compress_threshold is None,
{
}

/// The last exchange is offered to a session only where it goes on, was answered, and was made
/// with an agent exactly where there is one now.
pub proof fn law_last_exchange_is_offered_to_its_like(c: Config)
    ensures
        c.last_message is None ==> !c.offers(),
        c.last_message matches Some(m) ==> (c.offers() <==> m.continuous && m.output@.len() > 0
            && (m.with_agent <==> c.agent is Some)),
{
}

/// A session that takes the last exchange over starts with it, the question before the answer;
/// any other starts with nothing.
pub proof fn law_taken_over_exchange_is_question_and_answer(c: Config, take_over: bool)
    ensures
        take_over && c.offers() ==> {
            let taken = taken_over(c, take_over);
            let m = c.last_message->0;
            &&& taken.len() == 2
            &&& taken[0].role is User && taken[0].content.words() == m.input@
                && taken[0].log_seq is None
            &&& taken[1].role is Assistant && taken[1].content.words() == m.output@
                && taken[1].log_seq is None
        },
        !take_over || !c.offers() ==> taken_over(c, take_over).len() == 0,
{
}

/// A configuration without a session stays when it is left; with one it loses the session, and
/// its last message goes on no longer.
pub proof fn law_leaving_drops_the_session(c: Config)
    ensures
        c.session is None ==> c.left() == c,
        c.session is Some ==> c.left().session is None && c.left().last_message
            == c.discontinued().last_message,
        c.left().agent == c.agent,
        c.left().left() == c.left(),
        c.left().model == c.model,
        c.left().tools == c.tools,
{
}

/// A session that was left leaves its agent without variables, and else as it was.
pub proof fn law_left_agent_loses_its_variables(before: Config, after: Config)
    requires
        after.is_left(before),
    ensures
        after.session == before.left().session,
        after.last_message == before.left().last_message,
        after.agent is Some <==> before.agent is Some,
        after.agent matches Some(b) ==> b.variables@.len() == 0 && b.name == before.agent->0.name
            && b.model == before.agent->0.model && b.use_tools == before.agent->0.use_tools
            && b.temperature == before.agent->0.temperature && b.top_p == before.agent->0.top_p,
        after.with_agent(before.agent) == before.left(),
{
}

/// A session follows the name and the variables of its agent, where there is one, and keeps the
/// rest but for its messages.
pub proof fn law_session_follows_its_agent(agent: Option<Agent>, before: Session, after: Session)
    requires
        is_synced(agent, before, after),
    ensures
        agent matches Some(a) ==> (after.agent_name matches Some(n) && n@ == a.name@)
            && variables_view(after.agent_variables@) == variables_view(a.variables@),
        agent is None ==> after.agent_name == before.agent_name && after.agent_variables
            == before.agent_variables,
        after.id == before.id && after.model == before.model && after.title == before.title
            && after.tokens == before.tokens && after.use_tools == before.use_tools
            && after.temperature == before.temperature && after.top_p == before.top_p
            && after.log_entry_count == before.log_entry_count && after.dirty == before.dirty,
{
}

} // verus!
