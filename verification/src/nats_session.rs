//! A session in a cluster as its clients use it: opening it, queueing prompts, waking workers.
use crate::completion::{
    find_last_prompt, last_prompt, request_status, requested_seq_status, RequestedSeqStatus,
};
use crate::config::session::{distinct, variables_view};
use crate::config::variables::{gather_variables, gathered};
use crate::execution::{id_view, owner_of, prompt_owner, OwnershipError, RecoveryHistory};
use crate::ids::{is_uuid, random_id};
use crate::local_orchestrator::SessionActivationRoute;
use crate::mutations::{
    apply_log_mutations, effective, mutations_readable, unreadable_at, MutationError,
};
use crate::nats_client_session::ThinClientTurnResult;
use crate::session_log::{
    rows_of, rows_view, MessageContent, MessageRole, Replacement, Row, SessionLogEntry,
};
use crate::session_reconstruct::{reconstruct_turn_status, turn_status, TurnStatus};
use crate::text::opt_text;
use crate::turn::NatsTurnResult;
use vstd::prelude::*;
use vstd::string::*;

verus! {

/// Who answers in a session. It never changes.
#[derive(Debug, PartialEq, Eq)]
pub enum AgentSource {
    /// An agent by its name.
    Named(String),
    /// An agent that came with the session, by its prompt.
    Inline(String),
}

/// Whether two sources are the same.
pub open spec fn same_source(a: AgentSource, b: AgentSource) -> bool {
    match (a, b) {
        (AgentSource::Named(x), AgentSource::Named(y)) => x@ == y@,
        (AgentSource::Inline(x), AgentSource::Inline(y)) => x@ == y@,
        _ => false,
    }
}

impl AgentSource {
    pub fn is_same(&self, other: &AgentSource) -> (r: bool)
        ensures
            r == same_source(*self, *other),
    {
        match (self, other) {
            (AgentSource::Named(x), AgentSource::Named(y)) => *x.as_str() == *y.as_str(),
            (AgentSource::Inline(x), AgentSource::Inline(y)) => *x.as_str() == *y.as_str(),
            _ => false,
        }
    }
}

/// What a new session starts with.
#[derive(Debug)]
pub struct SessionInitializer {
    pub agent: AgentSource,
    pub variables: Vec<(String, String)>,
}

impl SessionInitializer {
    /// Each variable has one value.
    pub open spec fn well_formed(&self) -> bool {
        distinct(variables_view(self.variables@))
    }

    /// A session of an agent, with these variables. Of a name that stands twice the last value
    /// counts.
    pub fn new(agent: AgentSource, variables: &[(String, String)]) -> (r: SessionInitializer)
        ensures
            r.well_formed(),
            r.agent == agent,
            variables_view(r.variables@) == gathered(variables_view(variables@)),
    {
        SessionInitializer { agent, variables: gather_variables(variables) }
    }
}

/// Which session of which cluster, and who is woken for it.
#[derive(Debug)]
pub struct NatsSessionConfig {
    pub cluster: String,
    pub initializer: SessionInitializer,
    /// The session to resume. Without one a new session starts.
    pub session_id: Option<String>,
    pub activation_route: SessionActivationRoute,
}

/// What a client does about what the cluster keeps of a session.
#[derive(Clone, Copy, Debug, PartialEq, Eq, Structural)]
pub enum MetadataStep {
    /// It is there and agrees: note that the session is in use.
    Reserve,
    /// It is there, and names another agent.
    Mismatch,
    /// It is not there: look at the log before it is made.
    Inspect,
    /// The log is empty: make it.
    Create,
    /// The log is not empty, so that something is lost.
    Inconsistent,
    /// It was made.
    Done,
    /// Somebody else made it, and it is gone again.
    NoWinner,
}

/// What is done about what was found.
pub fn metadata_found(found: Option<&AgentSource>, wanted: &AgentSource) -> (r: MetadataStep)
    ensures
        r == match found {
            Some(agent) => if same_source(*agent, *wanted) {
                MetadataStep::Reserve
            } else {
                MetadataStep::Mismatch
            },
            None => MetadataStep::Inspect,
        },
{
    match found {
        Some(agent) => if agent.is_same(wanted) {
            MetadataStep::Reserve
        } else {
            MetadataStep::Mismatch
        },
        None => MetadataStep::Inspect,
    }
}

/// What is done about the log of a session of which nothing is kept.
pub fn metadata_inspected(entries: &[(u64, SessionLogEntry)]) -> (r: MetadataStep)
    ensures
        r == if entries@.len() == 0 {
            MetadataStep::Create
        } else {
            MetadataStep::Inconsistent
        },
{
    if entries.len() == 0 {
        MetadataStep::Create
    } else {
        MetadataStep::Inconsistent
    }
}

/// What is done after the attempt to make it. Of two clients that try, the one that loses must
/// agree with the one that won.
pub fn metadata_created(created: bool, winner: Option<&AgentSource>, wanted: &AgentSource) -> (r:
    MetadataStep)
    ensures
        r == if created {
            MetadataStep::Done
        } else {
            match winner {
                Some(agent) => if same_source(*agent, *wanted) {
                    MetadataStep::Reserve
                } else {
                    MetadataStep::Mismatch
                },
                None => MetadataStep::NoWinner,
            }
        },
{
    if created {
        return MetadataStep::Done;
    }
    match winner {
        Some(agent) => if agent.is_same(wanted) {
            MetadataStep::Reserve
        } else {
            MetadataStep::Mismatch
        },
        None => MetadataStep::NoWinner,
    }
}

/// The complaint about a log without anything else kept of its session.
pub fn inconsistent_message(session_id: &str) -> (r: String)
    ensures
        r@ == "session '"@ + session_id@
            + "' has transcript entries but no canonical metadata; legacy or inconsistent sessions are not supported"@,
{
    let mut r = String::from_str("session '");
    r.append(session_id);
    r.append(
        "' has transcript entries but no canonical metadata; legacy or inconsistent sessions are not supported",
    );
    r
}

/// The complaint about a race that nobody won.
pub fn no_winner_message(session_id: &str) -> (r: String)
    ensures
        r@ == "session metadata creation race for '"@ + session_id@ + "' had no winner"@,
{
    let mut r = String::from_str("session metadata creation race for '");
    r.append(session_id);
    r.append("' had no winner");
    r
}

/// An identifier for a message of a client.
pub fn new_client_message_id() -> (r: String)
    ensures
        is_uuid(r@, '4'),
{
    random_id()
}

/// Whether an entry is a message of the user with a fresh identifier.
pub open spec fn is_prompt_entry(entry: SessionLogEntry, content: MessageContent, id: Seq<char>)
    -> bool {
    &&& entry matches SessionLogEntry::Message {
        id: own,
        role,
        content: c,
        fence_token,
    }
    &&& opt_text(own) == Some(id)
    &&& role is User
    &&& c == content
    &&& fence_token is None
}

/// The entry that queues a prompt, and the identifier of its message.
pub fn prompt_entry(content: MessageContent) -> (r: (SessionLogEntry, String))
    ensures
        is_uuid(r.1@, '4'),
        is_prompt_entry(r.0, content, r.1@),
{
    let id = new_client_message_id();
    let entry = SessionLogEntry::Message {
        id: Some(id.clone()),
        role: MessageRole::User,
        content,
        fence_token: None,
    };
    (entry, id)
}

/// The entry that takes a prompt back. Nothing where its place has no such number.
pub fn retraction_entry(seq: u64) -> (r: Option<SessionLogEntry>)
    ensures
        r is Some <==> seq <= usize::MAX,
        r matches Some(e) ==> e matches SessionLogEntry::EditEntries { from, to, replacements }
            && from == seq && to == seq && replacements@.len() == 0,
{
    if seq > usize::MAX as u64 {
        return None;
    }
    Some(
        SessionLogEntry::EditEntries {
            from: seq as usize,
            to: seq as usize,
            replacements: Vec::new(),
        },
    )
}

/// The entry that puts another prompt in the place of one. Nothing where its place has no such
/// number.
pub fn edit_entry(seq: u64, new_text: String) -> (r: Option<SessionLogEntry>)
    ensures
        r is Some <==> seq <= usize::MAX,
        r matches Some(e) ==> {
            &&& e matches SessionLogEntry::EditEntries { from, to, replacements }
            &&& from == seq && to == seq
            &&& replacements@.len() == 1
            &&& replacements@[0] matches Replacement::Entry(entry)
            &&& exists|id: Seq<char>| #[trigger]
                is_uuid(id, '4') && is_prompt_entry(entry, MessageContent::Text(new_text), id)
        },
{
    if seq > usize::MAX as u64 {
        return None;
    }
    let (entry, id) = prompt_entry(MessageContent::Text(new_text));
    let mut replacements: Vec<Replacement> = Vec::new();
    replacements.push(Replacement::Entry(entry));
    assert(is_uuid(id@, '4') && is_prompt_entry(entry, MessageContent::Text(new_text), id@));
    Some(
        SessionLogEntry::EditEntries { from: seq as usize, to: seq as usize, replacements },
    )
}

/// A text that was queued, and may still need a worker to be woken for it.
#[derive(Debug)]
pub struct DurableTextEnqueue {
    user_msg_seq: u64,
    activation_error: Option<String>,
}

impl DurableTextEnqueue {
    pub closed spec fn seq(&self) -> u64 {
        self.user_msg_seq
    }

    pub closed spec fn error(&self) -> Option<String> {
        self.activation_error
    }

    pub fn new(user_msg_seq: u64, activation_error: Option<String>) -> (r: DurableTextEnqueue)
        ensures
            r.seq() == user_msg_seq,
            r.error() == activation_error,
    {
        DurableTextEnqueue { user_msg_seq, activation_error }
    }

    /// Where the message stands in the log, whether or not a worker was woken.
    pub fn user_msg_seq(&self) -> (r: u64)
        ensures
            r == self.seq(),
    {
        self.user_msg_seq
    }

    /// Why no worker was woken.
    pub fn activation_error(&self) -> (r: Option<&String>)
        ensures
            match r {
                Some(e) => self.error() == Some(*e),
                None => self.error() is None,
            },
    {
        match &self.activation_error {
            Some(e) => Some(e),
            None => None,
        }
    }

    /// Where the message stands in the log, or why no worker was woken.
    pub fn into_activation_result(self) -> (r: Result<u64, String>)
        ensures
            r == match self.error() {
                Some(e) => Err::<u64, String>(e),
                None => Ok(self.seq()),
            },
    {
        match self.activation_error {
            Some(e) => Err(e),
            None => Ok(self.user_msg_seq),
        }
    }
}

/// What a worker is told when it is woken.
#[derive(Debug, PartialEq, Eq)]
pub struct SessionActivate {
    pub session_id: String,
    /// The agent that is to answer, where the client names it.
    pub agent: Option<String>,
    /// The prompt that it is woken for.
    pub requested_seq: Option<u64>,
    /// The worker that is meant.
    pub worker_id: Option<String>,
    /// Where it asks before it calls a tool.
    pub tool_confirmation_subject: Option<String>,
}

/// Whether this wakes a worker for a prompt along a route. One of many workers finds the prompt by
/// itself; a worker that is meant is told which prompt it is.
pub open spec fn is_activation(
    route: SessionActivationRoute,
    session_id: Seq<char>,
    seq: u64,
    subject: Option<Seq<char>>,
    a: SessionActivate,
) -> bool {
    &&& a.session_id@ == session_id
    &&& a.agent is None
    &&& opt_text(a.tool_confirmation_subject) == subject
    &&& match route {
        SessionActivationRoute::ClusterShared => a.requested_seq is None && a.worker_id is None,
        SessionActivationRoute::WorkerTargeted { worker_id, .. } => a.requested_seq == Some(seq)
            && opt_text(a.worker_id) == Some(worker_id@),
    }
}

fn copy_subject(subject: Option<&str>) -> (r: Option<String>)
    ensures
        opt_text(r) == match subject {
            Some(s) => Some(s@),
            None => None,
        },
{
    match subject {
        Some(s) => Some(String::from_str(s)),
        None => None,
    }
}

/// Wakes a worker for a prompt.
pub fn activation(
    route: &SessionActivationRoute,
    session_id: &str,
    user_msg_seq: u64,
    tool_confirmation_subject: Option<&str>,
) -> (r: SessionActivate)
    ensures
        is_activation(
            *route,
            session_id@,
            user_msg_seq,
            match tool_confirmation_subject {
                Some(s) => Some(s@),
                None => None,
            },
            r,
        ),
{
    match route {
        SessionActivationRoute::ClusterShared => SessionActivate {
            session_id: String::from_str(session_id),
            agent: None,
            requested_seq: None,
            worker_id: None,
            tool_confirmation_subject: copy_subject(tool_confirmation_subject),
        },
        SessionActivationRoute::WorkerTargeted { worker_id, .. } => SessionActivate {
            session_id: String::from_str(session_id),
            agent: None,
            requested_seq: Some(user_msg_seq),
            worker_id: Some(worker_id.clone()),
            tool_confirmation_subject: copy_subject(tool_confirmation_subject),
        },
    }
}

/// Wakes a worker of a cluster on behalf of a client that names the agent. The worker finds the
/// prompt by itself.
pub fn thin_client_activation(session_id: &str, agent: &str) -> (r: SessionActivate)
    ensures
        r.session_id@ == session_id@,
        opt_text(r.agent) == Some(agent@),
        r.requested_seq is None,
        r.worker_id is None,
        r.tool_confirmation_subject is None,
{
    SessionActivate {
        session_id: String::from_str(session_id),
        agent: Some(String::from_str(agent)),
        requested_seq: None,
        worker_id: None,
        tool_confirmation_subject: None,
    }
}

/// Wakes a worker to wind up after something that stands in the log: an interrupt, or a request
/// to compact. Any worker is told where it stands.
pub fn control_activation(route: &SessionActivationRoute, session_id: &str, seq: u64) -> (r:
    SessionActivate)
    ensures
        r.session_id@ == session_id@,
        r.agent is None,
        r.requested_seq == Some(seq),
        r.tool_confirmation_subject is None,
        match *route {
            SessionActivationRoute::ClusterShared => r.worker_id is None,
            SessionActivationRoute::WorkerTargeted { worker_id, .. } => opt_text(r.worker_id)
                == Some(worker_id@),
        },
{
    SessionActivate {
        session_id: String::from_str(session_id),
        agent: None,
        requested_seq: Some(seq),
        worker_id: match route {
            SessionActivationRoute::ClusterShared => None,
            SessionActivationRoute::WorkerTargeted { worker_id, .. } => Some(worker_id.clone()),
        },
        tool_confirmation_subject: None,
    }
}

/// What a client that attaches to a session wakes a worker for: an interrupt that was not wound
/// up, or the last prompt of a turn that is under way. Nothing where the session is idle.
pub open spec fn republished(log: Seq<(u64, SessionLogEntry)>) -> Option<u64> {
    match turn_status(effective(log)) {
        TurnStatus::Idle => None,
        TurnStatus::Interrupted { cancel_seq } => Some(cancel_seq),
        TurnStatus::InFlight => match last_prompt(log) {
            Some(seq) => Some(seq),
            None => Some(0),
        },
    }
}

/// What a client that attaches to a session wakes a worker for.
pub fn republish_pending_activation(entries: &[(u64, SessionLogEntry)]) -> (r: Result<
    Option<u64>,
    MutationError,
>)
    ensures
        r is Ok <==> mutations_readable(entries@),
        r matches Ok(seq) ==> seq == republished(entries@),
        r matches Err(MutationError::MalformedReplacement(seq)) ==> exists|i: int|
            unreadable_at(entries@, i) && #[trigger] entries@[i].0 == seq,
{
    let rows = match apply_log_mutations(entries) {
        Ok(rows) => rows,
        Err(e) => {
            return Err(e);
        },
    };
    match reconstruct_turn_status(rows.as_slice()) {
        TurnStatus::Idle => Ok(None),
        TurnStatus::Interrupted { cancel_seq } => Ok(Some(cancel_seq)),
        TurnStatus::InFlight => {
            let raw = rows_of(entries);
            match find_last_prompt(raw.as_slice()) {
                Some(seq) => Ok(Some(seq)),
                None => Ok(Some(0)),
            }
        },
    }
}

/// What a client does while it waits for a turn to be cancelled.
#[derive(Clone, Copy, Debug, PartialEq, Eq, Structural)]
pub enum CancelStep {
    /// The turn is over.
    Cancelled,
    /// Ask again a little later.
    Retry,
    TimedOut,
}

/// What a client does while it waits for a turn to be cancelled. A worker that says so settles
/// it, and so does the log. A log that cannot be read settles nothing.
pub fn cancel_step(
    acknowledged: bool,
    entries: Option<&[(u64, SessionLogEntry)]>,
    user_msg_seq: u64,
    deadline_passed: bool,
) -> (r: Result<CancelStep, MutationError>)
    ensures
        acknowledged ==> r == Ok::<CancelStep, MutationError>(CancelStep::Cancelled),
        !acknowledged && entries is None ==> r == Ok::<CancelStep, MutationError>(
            if deadline_passed {
                CancelStep::TimedOut
            } else {
                CancelStep::Retry
            },
        ),
        !acknowledged && entries is Some ==> {
            let log = entries->0@;
            &&& r is Ok <==> mutations_readable(log)
            &&& r matches Ok(step) ==> step == if request_status(
                log,
                effective(log),
                user_msg_seq,
            ) == RequestedSeqStatus::Covered {
                CancelStep::Cancelled
            } else if deadline_passed {
                CancelStep::TimedOut
            } else {
                CancelStep::Retry
            }
            &&& r matches Err(MutationError::MalformedReplacement(seq)) ==> exists|i: int|
                unreadable_at(log, i) && #[trigger] log[i].0 == seq
        },
{
    if acknowledged {
        return Ok(CancelStep::Cancelled);
    }
    match entries {
        Some(entries) => match requested_seq_status(entries, user_msg_seq) {
            Ok(RequestedSeqStatus::Covered) => {
                return Ok(CancelStep::Cancelled);
            },
            Ok(RequestedSeqStatus::Pending) => {},
            Err(e) => {
                return Err(e);
            },
        },
        None => {},
    }
    if deadline_passed {
        Ok(CancelStep::TimedOut)
    } else {
        Ok(CancelStep::Retry)
    }
}

/// The complaint about a turn that nobody cancelled in time.
pub fn cancel_timeout_message(session_id: &str) -> (r: String)
    ensures
        r@ == "timed out waiting for worker to durably cancel session '"@ + session_id@ + "'"@,
{
    let mut r = String::from_str("timed out waiting for worker to durably cancel session '");
    r.append(session_id);
    r.append("'");
    r
}

/// The last message of the user.
pub open spec fn last_prompt_row(rows: Seq<(u64, SessionLogEntry)>) -> Option<(u64, SessionLogEntry)>
    decreases rows.len(),
{
    if rows.len() == 0 {
        None
    } else if rows.last().1.is_user_message() {
        Some(rows.last())
    } else {
        last_prompt_row(rows.drop_last())
    }
}

fn find_prompt_row<'a>(rows: &[Row<'a>]) -> (r: Option<Row<'a>>)
    ensures
        match r {
            Some(row) => last_prompt_row(rows_view(rows@)) == Some((row.0, *row.1))
                && row.1.is_user_message(),
            None => last_prompt_row(rows_view(rows@)) is None,
        },
{
    let ghost all = rows_view(rows@);
    let mut i: usize = rows.len();
    assert(all.take(i as int) =~= all);
    while i > 0
        invariant
            i <= rows@.len(),
            all == rows_view(rows@),
            last_prompt_row(all) == last_prompt_row(all.take(i as int)),
        decreases i,
    {
        assert(all.take(i as int).drop_last() =~= all.take(i - 1));
        assert(all.take(i as int).last() == all[i - 1]);
        if rows[i - 1].1.user_message() {
            return Some(rows[i - 1]);
        }
        i -= 1;
    }
    None
}

/// The identifier of a message.
pub open spec fn message_id(entry: SessionLogEntry) -> Option<Seq<char>> {
    match entry {
        SessionLogEntry::Message { id, .. } => opt_text(id),
        _ => None,
    }
}

/// Why the execution of the history cannot be named.
#[derive(Clone, Copy, Debug, PartialEq, Eq, Structural)]
pub enum HistoryError {
    Log(MutationError),
    Ownership(OwnershipError),
}

/// The place of the execution that took on the last prompt of the effective log. A prompt that
/// none took on belongs to none.
pub fn history_generation(
    entries: &[(u64, SessionLogEntry)],
    history: &[RecoveryHistory],
) -> (r: Result<Option<usize>, HistoryError>)
    ensures
        r matches Err(HistoryError::Log(_)) <==> !mutations_readable(entries@),
        mutations_readable(entries@) ==> match last_prompt_row(effective(entries@)) {
            None => r == Ok::<Option<usize>, HistoryError>(None),
            Some((seq, entry)) => match owner_of(history@, message_id(entry), seq) {
                Ok(Some(i)) => r matches Ok(Some(k)) && k == i && k < history@.len(),
                Ok(None) => r == Ok::<Option<usize>, HistoryError>(None),
                Err(e) => r == Err::<Option<usize>, HistoryError>(HistoryError::Ownership(e)),
            },
        },
        r matches Err(HistoryError::Log(MutationError::MalformedReplacement(seq))) ==> exists|i: int|
            unreadable_at(entries@, i) && #[trigger] entries@[i].0 == seq,
{
    let rows = match apply_log_mutations(entries) {
        Ok(rows) => rows,
        Err(e) => {
            return Err(HistoryError::Log(e));
        },
    };
    let row = match find_prompt_row(rows.as_slice()) {
        Some(row) => row,
        None => {
            return Ok(None);
        },
    };
    let id: Option<&String> = match row.1 {
        SessionLogEntry::Message { id: Some(id), .. } => Some(id),
        _ => None,
    };
    assert(id_view(id) == message_id(*row.1));
    match prompt_owner(history, id, row.0) {
        Ok(found) => Ok(found),
        Err(e) => Err(HistoryError::Ownership(e)),
    }
}

/// What a turn of a thin client came to, from the turn that it followed.
pub fn thin_client_result(result: NatsTurnResult) -> (r: ThinClientTurnResult)
    ensures
        r.response == result.response,
        r.session_id == result.session_id,
        r.was_cancelled == result.was_cancelled,
        r.error == result.error,
        r.user_msg_seq == result.user_msg_seq,
        r.user_msg_id == result.user_msg_id,
{
    ThinClientTurnResult {
        response: result.response,
        session_id: result.session_id,
        was_cancelled: result.was_cancelled,
        error: result.error,
        user_msg_seq: result.user_msg_seq,
        user_msg_id: result.user_msg_id,
    }
}

/// Two clients that race to open a session go on only if they mean the same agent.
pub proof fn law_source_agreement_is_symmetric(a: AgentSource, b: AgentSource, c: AgentSource)
    ensures
        same_source(a, a),
        same_source(a, b) == same_source(b, a),
        same_source(a, b) && same_source(b, c) ==> same_source(a, c),
{
}

/// Two sources of an agent are the same where both have the same name, or both the same text.
pub proof fn law_sources_are_the_same_by_kind_and_text(a: String, b: String)
    ensures
        same_source(AgentSource::Named(a), AgentSource::Named(b)) <==> a@ == b@,
        same_source(AgentSource::Inline(a), AgentSource::Inline(b)) <==> a@ == b@,
        !same_source(AgentSource::Named(a), AgentSource::Inline(b)),
        !same_source(AgentSource::Inline(a), AgentSource::Named(b)),
{
}

/// A prompt is a message of the user, under its identifier, with its content and no fence.
pub proof fn law_prompt_is_a_message_of_the_user(
    entry: SessionLogEntry,
    content: MessageContent,
    id: Seq<char>,
)
    ensures
        is_prompt_entry(entry, content, id) <==> (entry matches SessionLogEntry::Message {
            id: Some(own),
            role,
            content: said,
            fence_token,
        } && own@ == id && role is User && said == content && fence_token is None),
{
}

/// A request to any worker names only its session; one to a certain worker names the worker and
/// the prompt too. Neither names an agent.
pub proof fn law_activation_names_what_its_route_needs(
    route: SessionActivationRoute,
    session_id: Seq<char>,
    seq: u64,
    subject: Option<Seq<char>>,
    a: SessionActivate,
)
    requires
        is_activation(route, session_id, seq, subject, a),
    ensures
        a.session_id@ == session_id,
        a.agent is None,
        subject is None <==> a.tool_confirmation_subject is None,
        a.tool_confirmation_subject matches Some(s) ==> subject == Some(s@),
        route is ClusterShared ==> a.requested_seq is None && a.worker_id is None,
        route matches SessionActivationRoute::WorkerTargeted { worker_id, .. } ==> a.requested_seq
            == Some(seq) && (a.worker_id matches Some(w) && w@ == worker_id@),
{
}

/// What is asked for again is the last prompt of a turn in flight, or the interrupt that stopped
/// one; a session that is idle asks for nothing.
pub proof fn law_open_turn_is_asked_for_again(log: Seq<(u64, SessionLogEntry)>)
    ensures
        republished(log) is None <==> turn_status(effective(log)) is Idle,
        turn_status(effective(log)) matches TurnStatus::Interrupted { cancel_seq }
            ==> republished(log) == Some(cancel_seq),
        turn_status(effective(log)) is InFlight ==> (last_prompt(log) matches Some(seq)
            ==> republished(log) == Some(seq)),
        turn_status(effective(log)) is InFlight && last_prompt(log) is None ==> republished(log)
            == Some(0u64),
{
}

/// The last prompt of the rows is a message of the user with none behind it, and there is none
/// exactly where the user said nothing.
#[verifier::spinoff_prover]
#[verifier::rlimit(40)]
pub proof fn law_last_prompt_row_has_none_behind_it(rows: Seq<(u64, SessionLogEntry)>)
    ensures
        forall|i: int|
            0 <= i < rows.len() && (#[trigger] rows[i]).1.is_user_message() && (forall|j: int|
                i < j < rows.len() ==> !(#[trigger] rows[j]).1.is_user_message())
                ==> last_prompt_row(rows) == Some(rows[i]),
        last_prompt_row(rows) is None <==> forall|i: int|
            0 <= i < rows.len() ==> !(#[trigger] rows[i]).1.is_user_message(),
    decreases rows.len(),
{
    if rows.len() > 0 {
        let t = rows.drop_last();
        let last = rows.len() - 1;
        law_last_prompt_row_has_none_behind_it(t);
        assert(rows[last] == rows.last());
        assert forall|i: int| 0 <= i < t.len() implies #[trigger] rows[i] == t[i] by {}
        if !rows.last().1.is_user_message() {
            assert forall|i: int|
                0 <= i < rows.len() && (#[trigger] rows[i]).1.is_user_message() && (forall|j: int|
                    i < j < rows.len() ==> !(
                    #[trigger] rows[j]).1.is_user_message()) implies last_prompt_row(rows) == Some(
                rows[i],
            ) by {
                assert(t[i] == rows[i]);
                assert forall|j: int| i < j < t.len() implies !(
                #[trigger] t[j]).1.is_user_message() by {
                    assert(rows[j] == t[j]);
                }
            }
            if last_prompt_row(t) is Some {
                let k = choose|k: int| 0 <= k < t.len() && (#[trigger] t[k]).1.is_user_message();
                assert(rows[k] == t[k]);
            }
        }
    }
}

/// A message is known by the identifier that it carries; nothing else has one.
pub proof fn law_only_messages_have_identifiers(entry: SessionLogEntry)
    ensures
        entry matches SessionLogEntry::Message { id: Some(id), .. } ==> message_id(entry) == Some(
            id@,
        ),
        entry matches SessionLogEntry::Message { id: None, .. } ==> message_id(entry) is None,
        !(entry is Message) ==> message_id(entry) is None,
{
}

} // verus!
