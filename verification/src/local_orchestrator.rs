//! The worker that a frontend runs for itself: its route, its health, its restarts.
use crate::ids::{is_uuid, random_id};
use crate::nats_session_log::{is_valid_stream_name_char, valid_stream_char};
use crate::text::{chars_of, decimal, decimal_of, trim, trim_back, trim_end_set, trimmed, CharSet};
use vstd::prelude::*;
use vstd::string::*;

verus! {

/// The cluster of the workers that run on the same machine.
pub const LOCAL_CLUSTER_KEY: &'static str = "local";

pub const READINESS_POLL_INITIAL_MS: u64 = 50;

pub const READINESS_POLL_MAX_MS: u64 = 500;

/// A healthy worker reports every 250 ms: four reports in a row must be missing.
pub const WORKER_HEALTH_TIMEOUT_MS: u64 = 1000;

pub const WORKER_SLOW_NOTICE_AFTER_MS: u64 = 5000;

pub const WORKER_SLOW_NOTICE_INTERVAL_MS: u64 = 10000;

pub const MAX_WORKER_CRASHES: u32 = 3;

pub const WORKER_OUTPUT_TAIL_BYTES: u64 = 4096;

/// How a session is activated.
#[derive(Debug, PartialEq, Eq)]
pub enum SessionActivationRoute {
    /// By any worker of the cluster.
    ClusterShared,
    /// By one worker.
    WorkerTargeted { session_scope: String, worker_id: String },
}

/// The stable target of the activations of one frontend.
#[derive(Debug, PartialEq, Eq)]
pub struct LocalWorkerRoute {
    session_scope: String,
    worker_id: String,
}

/// Whether a text may name a worker: at least one character, and none that ends or joins parts
/// of a subject.
pub open spec fn worker_id_valid(id: Seq<char>) -> bool {
    id.len() > 0 && forall|i: int| 0 <= i < id.len() ==> valid_stream_char(#[trigger] id[i])
}

/// Whether a text may name a worker.
pub fn validate_worker_id(id: &str) -> (r: bool)
    ensures
        r == worker_id_valid(id@),
{
    let v = chars_of(id);
    let mut i: usize = 0;
    while i < v.len()
        invariant
            i <= v@.len(),
            v@ == id@,
            forall|k: int| 0 <= k < i ==> valid_stream_char(#[trigger] v@[k]),
        decreases v@.len() - i,
    {
        if !is_valid_stream_name_char(v[i]) {
            assert(!valid_stream_char(id@[i as int]));
            return false;
        }
        i += 1;
    }
    v.len() > 0
}

impl LocalWorkerRoute {
    pub closed spec fn scope_view(&self) -> Seq<char> {
        self.session_scope@
    }

    pub closed spec fn worker_view(&self) -> Seq<char> {
        self.worker_id@
    }

    /// A route of its own, to a worker on this machine.
    pub fn new() -> (r: LocalWorkerRoute)
        ensures
            r.scope_view() == LOCAL_CLUSTER_KEY@,
            r.worker_view().len() == 42,
            r.worker_view().take(6) == "local-"@,
            is_uuid(r.worker_view().skip(6), '4'),
            worker_id_valid(r.worker_view()),
    {
        let mut worker_id = String::from_str("local-");
        let id = random_id();
        worker_id.append(id.as_str());
        proof {
            reveal_strlit("local-");
            assert(worker_id@.take(6) =~= "local-"@);
            assert(worker_id@.skip(6) =~= id@);
            assert forall|i: int| 0 <= i < worker_id@.len() implies valid_stream_char(
                #[trigger] worker_id@[i],
            ) by {
                if i >= 6 {
                    assert(worker_id@[i] == id@[i - 6]);
                }
            }
        }
        LocalWorkerRoute { session_scope: String::from_str(LOCAL_CLUSTER_KEY), worker_id }
    }

    pub fn session_scope(&self) -> (r: &str)
        ensures
            r@ == self.scope_view(),
    {
        self.session_scope.as_str()
    }

    pub fn worker_id(&self) -> (r: &str)
        ensures
            r@ == self.worker_view(),
    {
        self.worker_id.as_str()
    }

    /// The activation by exactly this worker.
    pub fn activation_route(&self) -> (r: SessionActivationRoute)
        ensures
            r matches SessionActivationRoute::WorkerTargeted { session_scope, worker_id }
                && session_scope@ == self.scope_view() && worker_id@ == self.worker_view(),
    {
        SessionActivationRoute::WorkerTargeted {
            session_scope: self.session_scope.clone(),
            worker_id: self.worker_id.clone(),
        }
    }

    pub fn copy(&self) -> (r: LocalWorkerRoute)
        ensures
            r.scope_view() == self.scope_view(),
            r.worker_view() == self.worker_view(),
    {
        LocalWorkerRoute {
            session_scope: self.session_scope.clone(),
            worker_id: self.worker_id.clone(),
        }
    }
}

/// Whether sessions of this cluster run in a worker that the frontend starts for itself.
pub fn needs_local_worker(cluster: &str) -> (r: bool)
    ensures
        r == (cluster@ == LOCAL_CLUSTER_KEY@),
{
    *cluster == *LOCAL_CLUSTER_KEY
}

/// How a frontend activates sessions of a cluster. `local` is the route to its own worker, which
/// counts for the local cluster alone: without one, sessions there cannot be activated.
pub fn activation_route_for_cluster(cluster: &str, local: Option<&LocalWorkerRoute>) -> (r: Option<
    SessionActivationRoute,
>)
    ensures
        if cluster@ != LOCAL_CLUSTER_KEY@ {
            r == Some(SessionActivationRoute::ClusterShared)
        } else {
            match local {
                None => r is None,
                Some(route) => r matches Some(
                    SessionActivationRoute::WorkerTargeted { session_scope, worker_id },
                ) && session_scope@ == route.scope_view() && worker_id@ == route.worker_view(),
            }
        },
{
    if !needs_local_worker(cluster) {
        return Some(SessionActivationRoute::ClusterShared);
    }
    match local {
        None => None,
        Some(route) => Some(route.activation_route()),
    }
}

/// Where the program of the worker is taken from.
#[derive(Clone, Copy, Debug, PartialEq, Eq, Structural)]
pub enum WorkerBinary {
    /// The file that the environment names.
    Override,
    /// The file beside the program of the frontend.
    Sibling,
    /// A file on the search path.
    SearchPath,
    /// The environment names something that is no file.
    OverrideIsNoFile,
    /// There is none.
    NotFound,
}

/// Where the program of the worker is taken from: the environment wins, even where what it names
/// is no file.
pub fn worker_binary(
    override_is_file: Option<bool>,
    sibling_is_file: bool,
    on_search_path: bool,
) -> (r: WorkerBinary)
    ensures
        r == match override_is_file {
            Some(is_file) => if is_file {
                WorkerBinary::Override
            } else {
                WorkerBinary::OverrideIsNoFile
            },
            None => if sibling_is_file {
                WorkerBinary::Sibling
            } else if on_search_path {
                WorkerBinary::SearchPath
            } else {
                WorkerBinary::NotFound
            },
        },
{
    match override_is_file {
        Some(is_file) => if is_file {
            WorkerBinary::Override
        } else {
            WorkerBinary::OverrideIsNoFile
        },
        None => if sibling_is_file {
            WorkerBinary::Sibling
        } else if on_search_path {
            WorkerBinary::SearchPath
        } else {
            WorkerBinary::NotFound
        },
    }
}

/// The complaint about a program in the environment that is no file.
pub fn override_message(variable: &str, path: &str) -> (r: String)
    ensures
        r@ == variable@ + " points at "@ + path@ + ", which is not a file"@,
{
    let mut r = String::from_str(variable);
    r.append(" points at ");
    r.append(path);
    r.append(", which is not a file");
    r
}

/// The complaint about a program that is nowhere.
pub fn not_found_message(binary: &str, current: &str, variable: &str) -> (r: String)
    ensures
        r@ == "worker binary '"@ + binary@ + "' not found next to "@ + current@
            + " or on PATH; install it or set "@ + variable@,
{
    let mut r = String::from_str("worker binary '");
    r.append(binary);
    r.append("' not found next to ");
    r.append(current);
    r.append(" or on PATH; install it or set ");
    r.append(variable);
    r
}

/// The arguments of the worker that a frontend starts.
pub fn worker_arguments(worker_id: &str) -> (r: Vec<String>)
    ensures
        r@.len() == 5,
        r@[0]@ == "--session-scope"@,
        r@[1]@ == LOCAL_CLUSTER_KEY@,
        r@[2]@ == "--worker-id"@,
        r@[3]@ == worker_id@,
        r@[4]@ == "--manage-servers"@,
{
    let mut r: Vec<String> = Vec::new();
    r.push(String::from_str("--session-scope"));
    r.push(String::from_str(LOCAL_CLUSTER_KEY));
    r.push(String::from_str("--worker-id"));
    r.push(String::from_str(worker_id));
    r.push(String::from_str("--manage-servers"));
    r
}

/// What a worker reports about itself.
#[derive(Debug, PartialEq, Eq)]
pub struct WorkerReadiness {
    pub session_scope: String,
    pub worker_id: String,
    pub pid: u32,
    pub build: String,
}

/// What a report is worth.
#[derive(Clone, Copy, Debug, PartialEq, Eq, Structural)]
pub enum Readiness {
    /// The expected worker is ready.
    Ready,
    /// A process that is gone sent it.
    Stale,
    /// It comes from another route: an error.
    WrongRoute,
}

/// What a report is worth to the owner of a route that waits for one process.
pub fn accept_readiness(
    route: &LocalWorkerRoute,
    record: &WorkerReadiness,
    expected_pid: u32,
) -> (r: Readiness)
    ensures
        r == if record.session_scope@ != route.scope_view() || record.worker_id@
            != route.worker_view() {
            Readiness::WrongRoute
        } else if record.pid != expected_pid {
            Readiness::Stale
        } else {
            Readiness::Ready
        },
{
    if !(*record.session_scope.as_str() == *route.session_scope()) || !(*record.worker_id.as_str()
        == *route.worker_id()) {
        Readiness::WrongRoute
    } else if record.pid != expected_pid {
        Readiness::Stale
    } else {
        Readiness::Ready
    }
}

/// What a supervisor does at the start of a turn.
#[derive(Clone, Copy, Debug, PartialEq, Eq, Structural)]
pub enum EnsureWorker {
    /// The worker that runs is kept: it is never restarted for another program or configuration.
    Keep,
    /// Stop what runs, and start a worker.
    Restart,
    /// Start a worker.
    Start,
}

/// What a supervisor does at the start of a turn. A worker belongs to the broker whose address it
/// was given, so it cannot outlive it; a worker that reports nothing has stalled.
pub fn ensure_worker(broker_replaced: bool, running: bool, reports: bool) -> (r: EnsureWorker)
    ensures
        r == if !running {
            EnsureWorker::Start
        } else if broker_replaced || !reports {
            EnsureWorker::Restart
        } else {
            EnsureWorker::Keep
        },
{
    if !running {
        EnsureWorker::Start
    } else if broker_replaced || !reports {
        EnsureWorker::Restart
    } else {
        EnsureWorker::Keep
    }
}

/// What a supervisor does while it waits for its worker.
#[derive(Clone, Copy, Debug, PartialEq, Eq, Structural)]
pub enum WaitStep {
    /// Nothing: the worker runs.
    Wait,
    /// Start another worker.
    Respawn,
    /// Give up after so many crashes.
    GiveUp { crashes: u32 },
}

/// The wait for a worker to become ready. Times are in milliseconds since the wait began.
#[derive(Debug)]
pub struct ReadinessWait {
    pub crashes: u32,
    pub poll_ms: u64,
    pub next_notice_ms: u64,
}

impl ReadinessWait {
    pub fn new() -> (r: ReadinessWait)
        ensures
            r.crashes == 0,
            r.poll_ms == READINESS_POLL_INITIAL_MS,
            r.next_notice_ms == WORKER_SLOW_NOTICE_AFTER_MS,
            r.well_formed(),
    {
        ReadinessWait {
            crashes: 0,
            poll_ms: READINESS_POLL_INITIAL_MS,
            next_notice_ms: WORKER_SLOW_NOTICE_AFTER_MS,
        }
    }

    pub open spec fn well_formed(&self) -> bool {
        self.poll_ms <= READINESS_POLL_MAX_MS
    }

    /// The worker has left.
    pub fn exited(&mut self)
        ensures
            final(self).crashes == if old(self).crashes < u32::MAX {
                (old(self).crashes + 1) as u32
            } else {
                u32::MAX
            },
            final(self).poll_ms == old(self).poll_ms,
            final(self).next_notice_ms == old(self).next_notice_ms,
    {
        if self.crashes < u32::MAX {
            self.crashes = self.crashes + 1;
        }
    }

    /// What is done after a wait without a report.
    pub fn step(&self, running: bool) -> (r: WaitStep)
        ensures
            r == if running {
                WaitStep::Wait
            } else if self.crashes >= MAX_WORKER_CRASHES {
                WaitStep::GiveUp { crashes: self.crashes }
            } else {
                WaitStep::Respawn
            },
    {
        if running {
            WaitStep::Wait
        } else if self.crashes >= MAX_WORKER_CRASHES {
            WaitStep::GiveUp { crashes: self.crashes }
        } else {
            WaitStep::Respawn
        }
    }

    /// Ends a round: whether the user is told now that the wait is slow. The next round waits
    /// twice as long, up to a limit.
    pub fn round(&mut self, waited_ms: u64) -> (notice: bool)
        requires
            old(self).well_formed(),
            waited_ms + WORKER_SLOW_NOTICE_INTERVAL_MS <= u64::MAX,
        ensures
            notice == (waited_ms >= old(self).next_notice_ms),
            final(self).next_notice_ms == if notice {
                (waited_ms + WORKER_SLOW_NOTICE_INTERVAL_MS) as u64
            } else {
                old(self).next_notice_ms
            },
            final(self).poll_ms == if old(self).poll_ms * 2 <= READINESS_POLL_MAX_MS {
                (old(self).poll_ms * 2) as u64
            } else {
                READINESS_POLL_MAX_MS
            },
            final(self).crashes == old(self).crashes,
            final(self).well_formed(),
    {
        let notice = waited_ms >= self.next_notice_ms;
        if notice {
            self.next_notice_ms = waited_ms + WORKER_SLOW_NOTICE_INTERVAL_MS;
        }
        let twice: u64 = self.poll_ms * 2;
        self.poll_ms = if twice <= READINESS_POLL_MAX_MS {
            twice
        } else {
            READINESS_POLL_MAX_MS
        };
        notice
    }
}

/// What the user is told while the worker starts.
pub fn worker_wait_notice(waited_ms: u64, worker_pid: u32, destination: &str) -> (r: String)
    ensures
        r@ == "Still waiting for local worker pid "@ + decimal(worker_pid as nat) + " to start ("@
            + decimal((waited_ms / 1000) as nat)
            + "s). Ctrl-C to cancel; worker output goes to "@ + destination@ + "."@,
{
    let mut r = String::from_str("Still waiting for local worker pid ");
    r.append(decimal_of(worker_pid as u64).as_str());
    r.append(" to start (");
    r.append(decimal_of(waited_ms / 1000).as_str());
    r.append("s). Ctrl-C to cancel; worker output goes to ");
    r.append(destination);
    r.append(".");
    r
}

/// What the user is told after the last crash.
pub fn crash_message(crashes: u32, tail: &str) -> (r: String)
    ensures
        r@ == "local worker exited "@ + decimal(crashes as nat)
            + " times without becoming ready:\n"@ + tail@,
{
    let mut r = String::from_str("local worker exited ");
    r.append(decimal_of(crashes as u64).as_str());
    r.append(" times without becoming ready:\n");
    r.append(tail);
    r
}

/// Where the end of a log file begins that is shown to the user.
pub fn output_tail_start(length: u64) -> (r: u64)
    ensures
        r == if length >= WORKER_OUTPUT_TAIL_BYTES {
            (length - WORKER_OUTPUT_TAIL_BYTES) as u64
        } else {
            0
        },
{
    if length >= WORKER_OUTPUT_TAIL_BYTES {
        length - WORKER_OUTPUT_TAIL_BYTES
    } else {
        0
    }
}

/// The end of a log file as it is shown to the user.
pub fn render_output_tail(path: &str, body: &str) -> (r: String)
    ensures
        r@ == if trimmed(body@).len() == 0 {
            "(no output in "@ + path@ + ")"@
        } else {
            "--- tail of "@ + path@ + " ---\n"@ + trim_back(body@, CharSet::White)
        },
{
    let text = trim(body);
    if text.as_str().is_empty() {
        let mut r = String::from_str("(no output in ");
        r.append(path);
        r.append(")");
        r
    } else {
        let mut r = String::from_str("--- tail of ");
        r.append(path);
        r.append(" ---\n");
        r.append(trim_end_set(body, CharSet::White).as_str());
        r
    }
}

/// The state of a wait after so many exits in a row.
pub open spec fn crashes_after(exits: nat) -> nat
    decreases exits,
{
    if exits == 0 {
        0
    } else if crashes_after((exits - 1) as nat) < u32::MAX {
        crashes_after((exits - 1) as nat) + 1
    } else {
        crashes_after((exits - 1) as nat)
    }
}

/// A worker is started again after its first and its second crash, and not after its third.
pub proof fn law_third_crash_ends_the_wait(exits: nat)
    ensures
        crashes_after(exits) >= MAX_WORKER_CRASHES <==> exits >= MAX_WORKER_CRASHES,
        exits <= u32::MAX ==> crashes_after(exits) == exits,
        crashes_after(exits) <= u32::MAX,
    decreases exits,
{
    if exits > 0 {
        law_third_crash_ends_the_wait((exits - 1) as nat);
    }
}

/// The identifier of a worker is made of the characters that a stream may be named with, at least
/// one.
pub proof fn law_worker_identifiers_can_name_streams(id: Seq<char>)
    ensures
        worker_id_valid(id) <==> id.len() >= 1 && forall|i: int|
            0 <= i < id.len() ==> '0' <= #[trigger] id[i] <= '9' || 'a' <= id[i] <= 'z' || 'A'
                <= id[i] <= 'Z' || id[i] == '-' || id[i] == '_',
{
    if worker_id_valid(id) {
        assert forall|i: int| 0 <= i < id.len() implies '0' <= #[trigger] id[i] <= '9' || 'a'
            <= id[i] <= 'z' || 'A' <= id[i] <= 'Z' || id[i] == '-' || id[i] == '_' by {
            assert(valid_stream_char(id[i]));
        }
    } else if id.len() >= 1 {
        let i = choose|i: int| 0 <= i < id.len() && !valid_stream_char(#[trigger] id[i]);
        assert(!('0' <= id[i] <= '9' || 'a' <= id[i] <= 'z' || 'A' <= id[i] <= 'Z' || id[i] == '-'
            || id[i] == '_'));
    }
}

} // verus!
