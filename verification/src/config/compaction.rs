//! Compaction of a session in memory: when it starts, what it covers, how it ends.
use crate::compaction_request::CompactSubmit;
use crate::config::session::{Message, Session, SessionContent};
use crate::config::session_ops_title::{package_relative, resolve_package_relative_name};
use crate::config::Config;
use crate::events::{event_view, AgentEvent, EventView, SessionEvent};
use crate::session_log::{
    outcome_view, CompactOutcome, MessageContent, MessageRole, OutcomeView, UnchangedReason,
};
use crate::text::{contains_text, decimal, decimal_of, has_text, opt_text};
use vstd::prelude::*;
use vstd::string::*;

verus! {

/// What became of the wish to compact a session in memory.
#[derive(Clone, Copy, Debug, PartialEq, Eq, Structural)]
pub enum CompactionClaim {
    Claimed,
    AlreadyCompacting,
    NoSession,
}

/// Why a session was not compacted.
#[derive(Clone, Copy, Debug, PartialEq, Eq, Structural)]
pub enum CompactionError {
    NoSession,
    /// The user has said nothing yet.
    NoMessages,
    /// Everything is to be kept.
    NothingToCompact,
}

impl CompactionError {
    pub fn message(&self) -> (r: String)
        ensures
            r@ == match *self {
                CompactionError::NoSession => "No session"@,
                CompactionError::NoMessages =>
                "No need to compact since there are no messages in the session"@,
                CompactionError::NothingToCompact => "Nothing to compact"@,
            },
    {
        match self {
            CompactionError::NoSession => String::from_str("No session"),
            CompactionError::NoMessages => String::from_str(
                "No need to compact since there are no messages in the session",
            ),
            CompactionError::NothingToCompact => String::from_str("Nothing to compact"),
        }
    }
}

/// The line for the user on a compaction that there is no need for.
pub open spec fn outcome_line(outcome: CompactOutcome) -> Seq<char> {
    match outcome {
        CompactOutcome::Compacted => "Nothing to compact"@,
        CompactOutcome::Failed(_) => "Nothing to compact"@,
        CompactOutcome::Unchanged(reason) => match reason {
            UnchangedReason::NoUserMessages => "No user messages to compact"@,
            UnchangedReason::NothingEligible => "Nothing eligible for compaction"@,
            UnchangedReason::AlreadyCompacted => "Session already compacted"@,
        },
    }
}

pub fn compact_outcome_message(outcome: &CompactOutcome) -> (r: &'static str)
    ensures
        r@ == outcome_line(*outcome),
        *outcome matches CompactOutcome::Unchanged(UnchangedReason::NoUserMessages) ==> r@
            == "No user messages to compact"@,
        *outcome matches CompactOutcome::Unchanged(UnchangedReason::NothingEligible) ==> r@
            == "Nothing eligible for compaction"@,
        *outcome matches CompactOutcome::Unchanged(UnchangedReason::AlreadyCompacted) ==> r@
            == "Session already compacted"@,
        !(*outcome is Unchanged) ==> r@ == "Nothing to compact"@,
{
    match outcome {
        CompactOutcome::Compacted => "Nothing to compact",
        CompactOutcome::Failed(_) => "Nothing to compact",
        CompactOutcome::Unchanged(reason) => match reason {
            UnchangedReason::NoUserMessages => "No user messages to compact",
            UnchangedReason::NothingEligible => "Nothing eligible for compaction",
            UnchangedReason::AlreadyCompacted => "Session already compacted",
        },
    }
}

/// What a frontend is told of a request to compact. A request that stands in the log is reported
/// by those who carry it out.
pub fn submit_event(result: Result<CompactSubmit, String>) -> (r: Option<AgentEvent>)
    ensures
        match result {
            Ok(CompactSubmit::Submitted { .. }) => r is None,
            Ok(CompactSubmit::AlreadyInFlight { .. }) => r matches Some(e) && event_view(e)
                == EventView::Generic("Compaction already in progress"@),
            Ok(CompactSubmit::NothingToDo { outcome }) => r matches Some(e) && event_view(e)
                == EventView::Generic(outcome_line(outcome)),
            Err(error) => r matches Some(e) && event_view(e) == EventView::CompactingFailed(
                None,
                error@,
            ),
        },
{
    let event = match result {
        Ok(CompactSubmit::Submitted { .. }) => {
            return None;
        },
        Ok(CompactSubmit::AlreadyInFlight { .. }) => SessionEvent::Generic {
            text: String::from_str("Compaction already in progress"),
        },
        Ok(CompactSubmit::NothingToDo { outcome }) => SessionEvent::Generic {
            text: String::from_str(compact_outcome_message(&outcome)),
        },
        Err(error) => SessionEvent::CompactingFailed { compaction_id: None, error },
    };
    Some(AgentEvent::Session(event))
}

/// How a compaction ended, by its error in full.
pub open spec fn error_outcome(message: Seq<char>) -> OutcomeView {
    if contains_text(message, "No need to compact"@) || contains_text(
        message,
        "no messages in the session"@,
    ) {
        OutcomeView::Unchanged(UnchangedReason::NoUserMessages)
    } else if contains_text(message, "Nothing to compact"@) {
        OutcomeView::Unchanged(UnchangedReason::NothingEligible)
    } else {
        OutcomeView::Failed(message)
    }
}

/// How a compaction ended, by its error in full.
pub fn classify_compaction_error(message: &str) -> (r: CompactOutcome)
    ensures
        outcome_view(r) == error_outcome(message@),
{
    if has_text(message, "No need to compact") || has_text(message, "no messages in the session") {
        CompactOutcome::Unchanged(UnchangedReason::NoUserMessages)
    } else if has_text(message, "Nothing to compact") {
        CompactOutcome::Unchanged(UnchangedReason::NothingEligible)
    } else {
        CompactOutcome::Failed(String::from_str(message))
    }
}

/// An error: what it says, and the same with all that led to it.
#[derive(Debug)]
pub struct ErrorText {
    pub brief: String,
    pub full: String,
}

/// What a frontend is told at the end of a compaction that the user asked for. That there was
/// nothing to compact is no failure.
pub fn local_compaction_event(result: Result<(), ErrorText>) -> (r: AgentEvent)
    ensures
        event_view(r) == match result {
            Ok(_) => EventView::CompactingCompleted(None, OutcomeView::Compacted),
            Err(e) => match error_outcome(e.full@) {
                OutcomeView::Failed(_) => EventView::CompactingFailed(None, e.brief@),
                outcome => EventView::CompactingCompleted(None, outcome),
            },
        },
{
    let event = match result {
        Ok(_) => SessionEvent::CompactingCompleted {
            compaction_id: None,
            outcome: CompactOutcome::Compacted,
        },
        Err(e) => match classify_compaction_error(e.full.as_str()) {
            CompactOutcome::Failed(_) => SessionEvent::CompactingFailed {
                compaction_id: None,
                error: e.brief,
            },
            outcome => SessionEvent::CompactingCompleted { compaction_id: None, outcome },
        },
    };
    AgentEvent::Session(event)
}

/// What a frontend is told at the end of a compaction that started by itself.
pub fn handle_compaction_result(result: Result<(), ErrorText>) -> (r: AgentEvent)
    ensures
        event_view(r) == match result {
            Ok(_) => EventView::CompactingCompleted(None, OutcomeView::Compacted),
            Err(e) => EventView::CompactingFailed(None, e.full@),
        },
{
    match result {
        Ok(_) => AgentEvent::Session(
            SessionEvent::CompactingCompleted {
                compaction_id: None,
                outcome: CompactOutcome::Compacted,
            },
        ),
        Err(e) => AgentEvent::Session(
            SessionEvent::CompactingFailed { compaction_id: None, error: e.full },
        ),
    }
}

/// The smallest place in the log of the messages that have one.
pub open spec fn first_logged(messages: Seq<Message>) -> Option<usize>
    decreases messages.len(),
{
    if messages.len() == 0 {
        None
    } else {
        match (first_logged(messages.drop_last()), messages.last().log_seq) {
            (Some(a), Some(b)) => Some(
                if b < a {
                    b
                } else {
                    a
                },
            ),
            (Some(a), None) => Some(a),
            (None, b) => b,
        }
    }
}

/// The largest place in the log of the messages that have one.
pub open spec fn last_logged(messages: Seq<Message>) -> Option<usize>
    decreases messages.len(),
{
    if messages.len() == 0 {
        None
    } else {
        match (last_logged(messages.drop_last()), messages.last().log_seq) {
            (Some(a), Some(b)) => Some(
                if b > a {
                    b
                } else {
                    a
                },
            ),
            (Some(a), None) => Some(a),
            (None, b) => b,
        }
    }
}

/// The part of a session that a compaction covers.
#[derive(Clone, Copy, Debug, PartialEq, Eq, Structural)]
pub struct Covered {
    pub from: Option<usize>,
    pub to: Option<usize>,
    pub count: usize,
}

/// The part of a session that a compaction of its first messages covers.
pub fn covered_by(messages: &[Message], split: usize) -> (r: Covered)
    requires
        split <= messages@.len(),
    ensures
        r == (Covered {
            from: first_logged(messages@.take(split as int)),
            to: last_logged(messages@.take(split as int)),
            count: split,
        }),
{
    let mut from: Option<usize> = None;
    let mut to: Option<usize> = None;
    let mut i: usize = 0;
    while i < split
        invariant
            i <= split <= messages@.len(),
            from == first_logged(messages@.take(i as int)),
            to == last_logged(messages@.take(i as int)),
        decreases split - i,
    {
        assert(messages@.take(i + 1).drop_last() =~= messages@.take(i as int));
        assert(messages@.take(i + 1).last() == messages@[i as int]);
        match messages[i].log_seq {
            Some(seq) => {
                from = match from {
                    Some(a) => if seq < a {
                        Some(seq)
                    } else {
                        Some(a)
                    },
                    None => Some(seq),
                };
                to = match to {
                    Some(a) => if seq > a {
                        Some(seq)
                    } else {
                        Some(a)
                    },
                    None => Some(seq),
                };
            },
            None => {},
        }
        i += 1;
    }
    Covered { from, to, count: split }
}

/// A summary with a note on what it stands for.
pub open spec fn with_note(summary: Seq<char>, covered: Covered) -> Seq<char> {
    let range = match (covered.from, covered.to) {
        (Some(a), Some(b)) => " (log entries "@ + decimal(a as nat) + "–"@ + decimal(b as nat)
            + ")"@,
        _ => ""@,
    };
    summary + "\n\n[Earlier conversation: "@ + decimal(covered.count as nat) + " message(s)"@
        + range + " were summarized above. The full pre-compaction transcript remains in this session's log; use the `harnx_agent_session_history_read` tool to search it by entry index, type, tool name, or text.]"@
}

/// A summary with a note on what it stands for, so that a reader knows where to look it up.
pub fn append_recovery_note(summary: &str, covered: Covered) -> (r: String)
    ensures
        r@ == with_note(summary@, covered),
        r@ == summary@ + "\n\n[Earlier conversation: "@ + decimal(covered.count as nat)
            + " message(s)"@ + (if covered.from is Some && covered.to is Some {
            " (log entries "@ + decimal(covered.from->0 as nat) + "–"@ + decimal(
                covered.to->0 as nat,
            ) + ")"@
        } else {
            ""@
        }) + " were summarized above. The full pre-compaction transcript remains in this session's log; use the `harnx_agent_session_history_read` tool to search it by entry index, type, tool name, or text.]"@,
{
    let mut range = String::from_str("");
    match (covered.from, covered.to) {
        (Some(a), Some(b)) => {
            range = String::from_str(" (log entries ");
            range.append(decimal_of(a as u64).as_str());
            range.append("–");
            range.append(decimal_of(b as u64).as_str());
            range.append(")");
        },
        _ => {},
    }
    let mut r = String::from_str(summary);
    r.append("\n\n[Earlier conversation: ");
    r.append(decimal_of(covered.count as u64).as_str());
    r.append(" message(s)");
    r.append(range.as_str());
    r.append(
        " were summarized above. The full pre-compaction transcript remains in this session's log; use the `harnx_agent_session_history_read` tool to search it by entry index, type, tool name, or text.]",
    );
    r
}

/// The messages of a session whose first ones a summary has replaced.
pub open spec fn is_compacted(
    before: Seq<Message>,
    summary: Seq<char>,
    split: int,
    after: Seq<Message>,
) -> bool {
    &&& after.len() == before.len() - split + 1
    &&& after[0].role is System
    &&& after[0].content.words() == summary
    &&& after[0].log_seq is None
    &&& forall|i: int| split <= i < before.len() ==> after[i - split + 1] == #[trigger] before[i]
}

/// How many messages a summary replaces: those that it was made of, or all that are left.
pub open spec fn replaced(messages: nat, split: nat) -> int {
    if split <= messages {
        split as int
    } else {
        messages as int
    }
}

/// The agent that writes summaries, as it is called and in full: a name without a package belongs
/// to the package of the active agent.
pub fn compaction_agent_name(configured: Option<&str>, active_pkg: Option<&str>) -> (r: Option<
    (String, String),
>)
    ensures
        match configured {
            Some(name) => r matches Some((n, full)) && n@ == name@ && full@ == package_relative(
                name@,
                match active_pkg {
                    Some(p) => Some(p@),
                    None => None,
                },
            ),
            None => r is None,
        },
{
    match configured {
        Some(name) => Some(
            (String::from_str(name), resolve_package_relative_name(name, active_pkg)),
        ),
        None => None,
    }
}

/// The agent that writes the summary: the one that is configured, if it loads and its variables
/// can be filled in, else the default.
pub fn summarizer<A>(
    configured: Option<Result<A, String>>,
    variables: Result<(), String>,
    default: A,
) -> (r: A)
    ensures
        r == match (configured, variables) {
            (Some(Ok(agent)), Ok(_)) => agent,
            _ => default,
        },
{
    match (configured, variables) {
        (Some(Ok(agent)), Ok(_)) => agent,
        _ => default,
    }
}

/// A compaction that has started.
#[derive(Debug)]
pub struct CompactionStart {
    pub session_id: String,
    pub messages: usize,
    /// Another one is still running.
    pub overlapping: bool,
}

/// What is done after a turn.
#[derive(Debug)]
pub struct Maintenance {
    pub compaction: Option<CompactionStart>,
    /// The session for which a title is made.
    pub title: Option<String>,
}

impl Config {
    /// Whether the session lives in a cluster, which then compacts it.
    pub fn is_nats_session(&self) -> (r: bool)
        ensures
            r == (self.remote_agent is Some || self.nats_servers@.len() > 0),
    {
        self.remote_agent.is_some() || self.nats_servers.len() > 0
    }

    /// Marks the session as one that is being compacted, unless it is so already.
    pub fn claim_local_compaction(&mut self) -> (r: CompactionClaim)
        ensures
            match old(self).session {
                None => r is NoSession && *final(self) == *old(self),
                Some(s) => if s.compressing {
                    r is AlreadyCompacting && *final(self) == *old(self)
                } else {
                    r is Claimed && *final(self) == old(self).with_session(
                        Some(Session { compressing: true, ..s }),
                    )
                },
            },
    {
        match &mut self.session {
            None => CompactionClaim::NoSession,
            Some(session) => {
                if session.compressing {
                    CompactionClaim::AlreadyCompacting
                } else {
                    session.compressing = true;
                    CompactionClaim::Claimed
                }
            },
        }
    }

    /// Takes the mark back, but only from the session that was being compacted.
    pub fn clear_compacting(&mut self, session_id: &str)
        ensures
            *final(self) == match old(self).session {
                Some(s) => if s.id@ == session_id@ {
                    old(self).with_session(Some(Session { compressing: false, ..s }))
                } else {
                    *old(self)
                },
                None => *old(self),
            },
    {
        match &mut self.session {
            Some(session) => {
                if *session.id.as_str() == *session_id {
                    session.compressing = false;
                }
            },
            None => {},
        }
    }

    /// Starts a compaction if the session has outgrown its limit.
    pub fn maybe_compact_session(&mut self) -> (r: Option<CompactionStart>)
        ensures
            match old(self).session {
                Some(s) => if s.outgrown(old(self).compress_threshold) {
                    &&& r matches Some(start)
                    &&& start.session_id == s.id
                    &&& start.messages == s.messages@.len()
                    &&& start.overlapping == s.compressing
                    &&& *final(self) == old(self).with_session(
                        Some(Session { compressing: true, ..s }),
                    )
                } else {
                    r is None && *final(self) == *old(self)
                },
                None => r is None && *final(self) == *old(self),
            },
    {
        let threshold: usize = self.compress_threshold;
        match &mut self.session {
            Some(session) => {
                if !session.need_compress(threshold) {
                    return None;
                }
                let start = CompactionStart {
                    session_id: session.id.clone(),
                    messages: session.messages.len(),
                    overlapping: session.compressing,
                };
                session.compressing = true;
                Some(start)
            },
            None => None,
        }
    }

    /// What is done after a turn: a compaction if the session has outgrown its limit, then a
    /// title if one is due.
    pub fn run_post_turn_maintenance(&mut self, title_configured: bool) -> (r: Maintenance)
        ensures
            match old(self).session {
                Some(s) => {
                    let compact = s.outgrown(old(self).compress_threshold);
                    let title = s.title_due(old(self).title_update_threshold) && title_configured;
                    &&& r.compaction is Some == compact
                    &&& r.compaction matches Some(start) ==> start.session_id == s.id
                        && start.messages == s.messages@.len() && start.overlapping
                        == s.compressing
                    &&& opt_text(r.title) == if title {
                        Some(s.id@)
                    } else {
                        None
                    }
                    &&& *final(self) == if compact || title {
                        old(self).with_session(
                            Some(
                                Session {
                                    compressing: s.compressing || compact,
                                    titling: s.titling || title,
                                    ..s
                                },
                            ),
                        )
                    } else {
                        *old(self)
                    }
                },
                None => r.compaction is None && r.title is None && *final(self) == *old(self),
            },
    {
        let compaction = self.maybe_compact_session();
        let title = self.maybe_generate_title(title_configured);
        Maintenance { compaction, title }
    }

    /// Whether there is anything to compact.
    pub fn ensure_compactable(&self) -> (r: Result<(), CompactionError>)
        ensures
            r == match self.session {
                None => Err(CompactionError::NoSession),
                Some(s) => if s.asked() {
                    Ok::<(), CompactionError>(())
                } else {
                    Err(CompactionError::NoMessages)
                },
            },
    {
        match &self.session {
            None => Err(CompactionError::NoSession),
            Some(session) => if session.has_user_messages() {
                Ok(())
            } else {
                Err(CompactionError::NoMessages)
            },
        }
    }

    /// What a compaction of the first `split` messages covers, and the session it is for.
    pub fn build_compaction_transcript(&self, split: usize) -> (r: Result<
        (Covered, String),
        CompactionError,
    >)
        requires
            self.session matches Some(s) ==> split <= s.messages@.len(),
        ensures
            match self.session {
                None => r == Err::<(Covered, String), CompactionError>(CompactionError::NoSession),
                Some(s) => if split == 0 {
                    r == Err::<(Covered, String), CompactionError>(
                        CompactionError::NothingToCompact,
                    )
                } else {
                    r == Ok::<(Covered, String), CompactionError>(
                        (
                            Covered {
                                from: first_logged(s.messages@.take(split as int)),
                                to: last_logged(s.messages@.take(split as int)),
                                count: split,
                            },
                            s.id,
                        ),
                    )
                },
            },
    {
        match &self.session {
            None => Err(CompactionError::NoSession),
            Some(session) => {
                if split == 0 {
                    return Err(CompactionError::NothingToCompact);
                }
                Ok((covered_by(session.messages.as_slice(), split), session.id.clone()))
            },
        }
    }

    /// Whether the session is still the one that a compaction was started for.
    pub fn is_active_session(&self, session_id: &str) -> (r: bool)
        ensures
            r == (self.session is Some && self.session->0.id@ == session_id@),
    {
        match &self.session {
            Some(session) => *session.id.as_str() == *session_id,
            None => false,
        }
    }

    /// Replaces the first messages of the session by a summary, if the session is still the one
    /// that was compacted. Where it has lost some of them meanwhile, the summary replaces all that
    /// are left.
    pub fn apply_compaction_summary(
        &mut self,
        session_id: &str,
        summary_with_note: String,
        split: usize,
    ) -> (r: bool)
        ensures
            r == (old(self).session matches Some(s) && s.id@ == session_id@),
            match old(self).session {
                Some(s) => if s.id@ == session_id@ {
                    &&& final(self).session matches Some(t)
                    &&& is_compacted(
                        s.messages@,
                        summary_with_note@,
                        replaced(s.messages@.len(), split as nat),
                        t.messages@,
                    )
                    &&& t == (Session { messages: t.messages, ..s })
                    &&& *final(self) == old(self).discontinued().with_session(final(self).session)
                } else {
                    *final(self) == *old(self)
                },
                None => *final(self) == *old(self),
            },
    {
        match &mut self.session {
            None => {
                return false;
            },
            Some(session) => {
                if !(*session.id.as_str() == *session_id) {
                    return false;
                }
                let ghost before = session.messages@;
                let cut: usize = if split <= session.messages.len() {
                    split
                } else {
                    session.messages.len()
                };
                let mut kept = session.messages.split_off(cut);
                assert(kept@ =~= before.skip(cut as int));
                kept.insert(0, Message::new(MessageRole::System, summary_with_note));
                session.messages = kept;
                assert(is_compacted(before, summary_with_note@, cut as int, session.messages@)) by {
                    assert forall|i: int| cut <= i < before.len() implies session.messages@[i
                        - cut + 1] == #[trigger] before[i] by {
                        assert(before.skip(cut as int)[i - cut] == before[i]);
                    }
                }
            },
        }
        self.discontinuous_last_message();
        true
    }
}

/// The places in the log that a compaction covers lie between the first and the last that its
/// note names.
pub proof fn law_note_covers_all(messages: Seq<Message>, i: int)
    requires
        0 <= i < messages.len(),
        messages[i].log_seq is Some,
    ensures
        first_logged(messages) matches Some(a) && a <= messages[i].log_seq->0,
        last_logged(messages) matches Some(b) && messages[i].log_seq->0 <= b,
    decreases messages.len(),
{
    if i < messages.len() - 1 {
        assert(messages.drop_last()[i] == messages[i]);
        law_note_covers_all(messages.drop_last(), i);
    }
}

/// That nobody has said anything yet is no failure of a compaction.
pub proof fn law_empty_session_is_no_failure()
    ensures
        error_outcome("No need to compact since there are no messages in the session"@)
            == OutcomeView::Unchanged(UnchangedReason::NoUserMessages),
{
    let m = "No need to compact since there are no messages in the session"@;
    reveal_strlit("No need to compact since there are no messages in the session");
    reveal_strlit("No need to compact");
    assert(m.subrange(0, "No need to compact"@.len() as int) =~= "No need to compact"@);
    assert(crate::text::occurs_at(m, "No need to compact"@, 0));
}

/// A failure that says there was nothing to do is no failure: the session had no messages, or none
/// that could be compacted. Any other is told as it is.
pub proof fn law_nothing_to_do_is_no_failure(message: Seq<char>)
    ensures
        contains_text(message, "No need to compact"@) || contains_text(
            message,
            "no messages in the session"@,
        ) <==> error_outcome(message) == OutcomeView::Unchanged(UnchangedReason::NoUserMessages),
        error_outcome(message) == OutcomeView::Unchanged(UnchangedReason::NothingEligible)
            <==> contains_text(message, "Nothing to compact"@) && !contains_text(
            message,
            "No need to compact"@,
        ) && !contains_text(message, "no messages in the session"@),
        error_outcome(message) is Failed <==> !contains_text(message, "No need to compact"@)
            && !contains_text(message, "no messages in the session"@) && !contains_text(
            message,
            "Nothing to compact"@,
        ),
        error_outcome(message) matches OutcomeView::Failed(text) ==> text == message,
{
}

/// What is told of an unchanged session is its reason.
pub proof fn law_unchanged_session_tells_its_reason(outcome: CompactOutcome)
    ensures
        outcome matches CompactOutcome::Unchanged(UnchangedReason::NoUserMessages) ==> outcome_line(
            outcome,
        ) == "No user messages to compact"@,
        outcome matches CompactOutcome::Unchanged(UnchangedReason::NothingEligible)
            ==> outcome_line(outcome) == "Nothing eligible for compaction"@,
        outcome matches CompactOutcome::Unchanged(UnchangedReason::AlreadyCompacted)
            ==> outcome_line(outcome) == "Session already compacted"@,
        !(outcome is Unchanged) ==> outcome_line(outcome) == "Nothing to compact"@,
{
}

/// The ends of what a note covers are places of messages, and there are none exactly where no
/// message has a place.
pub proof fn law_note_ends_at_messages(messages: Seq<Message>)
    ensures
        first_logged(messages) is None <==> forall|i: int|
            0 <= i < messages.len() ==> (#[trigger] messages[i]).log_seq is None,
        last_logged(messages) is None <==> first_logged(messages) is None,
        first_logged(messages) is Some ==> exists|i: int|
            0 <= i < messages.len() && (#[trigger] messages[i]).log_seq == first_logged(messages),
        last_logged(messages) is Some ==> exists|i: int|
            0 <= i < messages.len() && (#[trigger] messages[i]).log_seq == last_logged(messages),
    decreases messages.len(),
{
    if messages.len() > 0 {
        let t = messages.drop_last();
        let last = messages.len() - 1;
        law_note_ends_at_messages(t);
        assert(messages[last] == messages.last());
        assert forall|i: int| 0 <= i < t.len() implies #[trigger] t[i] == messages[i] by {}
        if first_logged(t) is Some {
            let k = choose|k: int|
                0 <= k < t.len() && (#[trigger] t[k]).log_seq == first_logged(t);
            assert(messages[k].log_seq == first_logged(t));
        }
        if last_logged(t) is Some {
            let k = choose|k: int| 0 <= k < t.len() && (#[trigger] t[k]).log_seq == last_logged(t);
            assert(messages[k].log_seq == last_logged(t));
        }
        if first_logged(t) is None {
            assert forall|i: int| 0 <= i < t.len() implies (#[trigger] messages[i]).log_seq is None by {
                assert(t[i] == messages[i]);
            }
        }
    }
}

/// A compaction puts one message of the system, with the summary, in the place of the first ones
/// and keeps the others as they are, in order.
pub proof fn law_compaction_keeps_what_it_does_not_cover(
    before: Seq<Message>,
    summary: Seq<char>,
    split: int,
    after: Seq<Message>,
)
    requires
        0 <= split <= before.len(),
        is_compacted(before, summary, split, after),
    ensures
        after.len() == before.len() - split + 1,
        after[0].role is System,
        after[0].content.words() == summary,
        after[0].log_seq is None,
        after.skip(1) == before.skip(split),
{
    assert forall|i: int| 0 <= i < before.len() - split implies after.skip(1)[i] == before.skip(
        split,
    )[i] by {
        assert(after[i + 1] == before[i + split]);
    }
    assert(after.skip(1) =~= before.skip(split));
}

/// No more messages are replaced than there are.
pub proof fn law_no_more_is_replaced_than_there_is(messages: nat, split: nat)
    ensures
        split <= messages ==> replaced(messages, split) == split,
        split >= messages ==> replaced(messages, split) == messages,
        0 <= replaced(messages, split) <= messages,
{
}

} // verus!
