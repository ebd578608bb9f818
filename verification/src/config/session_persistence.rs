//! What a session in memory does with the answers of its log.
use crate::config::session::{copy_texts, ExecutionContextObservation, Session};
use crate::config::settings::opt_texts;
use crate::text::{opt_text, texts};
use vstd::prelude::*;
use vstd::string::*;

verus! {

/// What the log said to an entry.
#[derive(Debug, PartialEq, Eq)]
pub enum Append {
    /// It stands at this sequence number, counted from one.
    At(u64),
    Failed(String),
    /// There is no log.
    NoLog,
}

/// Takes the answer of the log to an entry: whether the entry stands in it.
pub fn append_event(session: &mut Session, answer: &Append) -> (r: bool)
    ensures
        r == (*answer is At),
        *final(session) == match *answer {
            Append::At(seq) => Session { log_entry_count: seq as usize, ..*old(session) },
            _ => *old(session),
        },
{
    match answer {
        Append::At(seq) => {
            session.log_entry_count = *seq as usize;
            true
        },
        _ => false,
    }
}

/// Whether a session that lost an entry may go on: only where its log is not the authority.
pub fn require_authoritative_appends(all_appended: bool, log_is_authority: bool, operation: &str)
    -> (r: Result<(), String>)
    ensures
        r is Err <==> !all_appended && log_is_authority,
        r matches Err(e) ==> e@ == "failed to durably persist "@ + operation@,
{
    if all_appended || !log_is_authority {
        return Ok(());
    }
    let mut e = String::from_str("failed to durably persist ");
    e.append(operation);
    Err(e)
}

/// The settings that a session keeps for later turns.
#[derive(Debug)]
pub struct SessionOverrides {
    pub model: Option<String>,
    pub temperature: Option<String>,
    pub top_p: Option<String>,
    pub use_tools: Option<Vec<String>>,
    pub model_fallbacks: Vec<String>,
    pub compress_threshold: Option<usize>,
    pub compaction_agent: Option<String>,
    pub max_output_tokens: Option<isize>,
}

/// Whether these are the settings of the session as it stands in memory.
pub open spec fn are_settings_of(session: Session, o: SessionOverrides) -> bool {
    &&& o.model == Some(session.model.id)
    &&& o.temperature == session.temperature
    &&& o.top_p == session.top_p
    &&& opt_texts(o.use_tools) == opt_texts(session.use_tools)
    &&& texts(o.model_fallbacks@) == texts(session.model_fallbacks@)
    &&& o.compress_threshold == session.compress_threshold
    &&& o.compaction_agent == session.compaction_agent
    &&& o.max_output_tokens == session.model.max_output_tokens
}

fn copy_option(s: &Option<String>) -> (r: Option<String>)
    ensures
        r == *s,
{
    match s {
        Some(t) => Some(t.clone()),
        None => None,
    }
}

/// The settings that a session keeps: those that are written down, or else those in memory.
pub fn session_overrides(
    session: &Session,
    stored: Result<Option<SessionOverrides>, String>,
) -> (r: Result<SessionOverrides, String>)
    ensures
        match stored {
            Err(e) => r == Err::<SessionOverrides, String>(e),
            Ok(Some(o)) => r == Ok::<SessionOverrides, String>(o),
            Ok(None) => r matches Ok(o) && are_settings_of(*session, o),
        },
{
    match stored {
        Err(e) => Err(e),
        Ok(Some(o)) => Ok(o),
        Ok(None) => Ok(
            SessionOverrides {
                model: Some(session.model.id.clone()),
                temperature: copy_option(&session.temperature),
                top_p: copy_option(&session.top_p),
                use_tools: match &session.use_tools {
                    Some(tools) => Some(copy_texts(tools.as_slice())),
                    None => None,
                },
                model_fallbacks: copy_texts(session.model_fallbacks.as_slice()),
                compress_threshold: session.compress_threshold,
                compaction_agent: copy_option(&session.compaction_agent),
                max_output_tokens: session.model.max_output_tokens,
            },
        ),
    }
}

/// What tools saw of the places in which they ran, to be kept for the session.
#[derive(Debug)]
pub struct PendingExecutionContextPersistence {
    /// The results that hold it stand in the log.
    durable: bool,
    session_id: String,
    observations: Vec<ExecutionContextObservation>,
}

impl PendingExecutionContextPersistence {
    pub closed spec fn is_durable(&self) -> bool {
        self.durable
    }

    pub closed spec fn seen(&self) -> Seq<ExecutionContextObservation> {
        self.observations@
    }

    pub closed spec fn id(&self) -> Seq<char> {
        self.session_id@
    }

    /// Nothing to keep.
    pub fn none(session_id: &str) -> (r: Self)
        ensures
            !r.is_durable(),
            r.seen().len() == 0,
            r.id() == session_id@,
    {
        PendingExecutionContextPersistence {
            durable: false,
            session_id: String::from_str(session_id),
            observations: Vec::new(),
        }
    }

    pub fn for_session(
        session: &Session,
        observations: Vec<ExecutionContextObservation>,
        tool_results_are_durable: bool,
    ) -> (r: Self)
        ensures
            r.is_durable() == tool_results_are_durable,
            r.seen() == observations@,
            r.id() == session.id@,
    {
        PendingExecutionContextPersistence {
            durable: tool_results_are_durable,
            session_id: session.id.clone(),
            observations,
        }
    }

    /// What is to be kept: nothing unless the results stand in a log.
    pub fn to_persist(self, has_log: bool) -> (r: Option<Vec<ExecutionContextObservation>>)
        ensures
            r is Some <==> self.is_durable() && has_log && self.seen().len() > 0,
            r matches Some(v) ==> v@ == self.seen(),
    {
        if self.durable && has_log && self.observations.len() > 0 {
            Some(self.observations)
        } else {
            None
        }
    }
}

/// What is written down of a session is each of its own settings, under its own name.
pub proof fn law_each_setting_is_written_down(session: Session, o: SessionOverrides)
    requires
        are_settings_of(session, o),
    ensures
        o.model matches Some(id) && id@ == session.model.id@,
        opt_text(o.temperature) == opt_text(session.temperature),
        opt_text(o.top_p) == opt_text(session.top_p),
        o.use_tools is None <==> session.use_tools is None,
        o.use_tools matches Some(list) ==> texts(list@) == texts(session.use_tools->0@),
        texts(o.model_fallbacks@) == texts(session.model_fallbacks@),
        o.compress_threshold == session.compress_threshold,
        opt_text(o.compaction_agent) == opt_text(session.compaction_agent),
        o.max_output_tokens == session.model.max_output_tokens,
{
}

} // verus!
