//! Hooks: which of them an event reaches, in which order, and what their replies come to.
use crate::text::{chars_of, has_prefix, join, joined, opt_text, starts_with, texts};
use vstd::prelude::*;
use vstd::string::*;

verus! {

/// How long a hook may take that says nothing about it, in seconds.
pub const DEFAULT_HOOK_TIMEOUT_SECS: u64 = 30;

/// What a hook server must know of the session besides the event.
#[derive(Debug)]
pub struct HookDispatchMeta {
    pub session_id: String,
    pub cwd: String,
    pub resume_count: u32,
}

/// What happens to a call when its hook cannot be reached.
#[derive(Clone, Copy, Debug, PartialEq, Eq, Structural)]
pub enum FailPolicy {
    /// It goes on.
    Open,
    /// It is blocked.
    Closed,
}

/// One hook of a server.
#[derive(Debug, PartialEq, Eq)]
pub struct HookSpec {
    pub event: String,
    pub matcher: Option<String>,
    pub priority: i32,
    pub timeout_secs: Option<u64>,
    pub fail_policy: FailPolicy,
}

/// A hook with the server that runs it.
#[derive(Debug, PartialEq, Eq)]
pub struct DiscoveredHook {
    pub server: String,
    pub spec: HookSpec,
}

/// What hooks are told about.
#[derive(Debug)]
pub enum HookEvent {
    PreToolUse { tool_name: String, tool_input: serde_json::Value, tool_use_id: String },
    PostToolUse {
        tool_name: String,
        tool_input: serde_json::Value,
        tool_response: serde_json::Value,
        tool_use_id: String,
    },
    PostToolUseFailure {
        tool_name: String,
        tool_input: serde_json::Value,
        error: String,
        tool_use_id: String,
    },
    SessionStart { source: String, model: String },
    SessionEnd { reason: String },
    UserPromptSubmit { prompt: String },
    Stop { stop_hook_active: bool, last_assistant_message: Option<String> },
    StopFailure { error: String, error_type: String },
    InstructionsLoaded { file_path: String, memory_type: String, load_reason: String },
    CwdChanged { old_cwd: String, new_cwd: String },
}

/// How the hooks of an event are run.
#[derive(Clone, Copy, Debug, PartialEq, Eq, Structural)]
pub enum HookMode {
    /// One after another, each with the input that the ones before it left.
    PreTool,
    /// One after another; the event waits for them.
    Blocking,
    /// In the background; the event goes on at once.
    BestEffort,
}

impl HookEvent {
    pub open spec fn name(&self) -> Seq<char> {
        match self {
            HookEvent::PreToolUse { .. } => "PreToolUse"@,
            HookEvent::PostToolUse { .. } => "PostToolUse"@,
            HookEvent::PostToolUseFailure { .. } => "PostToolUseFailure"@,
            HookEvent::SessionStart { .. } => "SessionStart"@,
            HookEvent::SessionEnd { .. } => "SessionEnd"@,
            HookEvent::UserPromptSubmit { .. } => "UserPromptSubmit"@,
            HookEvent::Stop { .. } => "Stop"@,
            HookEvent::StopFailure { .. } => "StopFailure"@,
            HookEvent::InstructionsLoaded { .. } => "InstructionsLoaded"@,
            HookEvent::CwdChanged { .. } => "CwdChanged"@,
        }
    }

    /// The name under which hooks ask for the event.
    pub fn event_name(&self) -> (r: &'static str)
        ensures
            r@ == self.name(),
            *self matches HookEvent::PreToolUse { .. } ==> r@ == "PreToolUse"@,
            *self matches HookEvent::PostToolUse { .. } ==> r@ == "PostToolUse"@,
            *self matches HookEvent::PostToolUseFailure { .. } ==> r@ == "PostToolUseFailure"@,
            *self matches HookEvent::SessionStart { .. } ==> r@ == "SessionStart"@,
            *self matches HookEvent::SessionEnd { .. } ==> r@ == "SessionEnd"@,
            *self matches HookEvent::UserPromptSubmit { .. } ==> r@ == "UserPromptSubmit"@,
            *self matches HookEvent::Stop { .. } ==> r@ == "Stop"@,
            *self matches HookEvent::StopFailure { .. } ==> r@ == "StopFailure"@,
            *self matches HookEvent::InstructionsLoaded { .. } ==> r@ == "InstructionsLoaded"@,
            *self matches HookEvent::CwdChanged { .. } ==> r@ == "CwdChanged"@,
    {
        match self {
            HookEvent::PreToolUse { .. } => "PreToolUse",
            HookEvent::PostToolUse { .. } => "PostToolUse",
            HookEvent::PostToolUseFailure { .. } => "PostToolUseFailure",
            HookEvent::SessionStart { .. } => "SessionStart",
            HookEvent::SessionEnd { .. } => "SessionEnd",
            HookEvent::UserPromptSubmit { .. } => "UserPromptSubmit",
            HookEvent::Stop { .. } => "Stop",
            HookEvent::StopFailure { .. } => "StopFailure",
            HookEvent::InstructionsLoaded { .. } => "InstructionsLoaded",
            HookEvent::CwdChanged { .. } => "CwdChanged",
        }
    }

    /// The name of the tool, which the matchers of hooks look at.
    pub fn matcher_text(&self) -> (r: Option<&str>)
        ensures
            match self {
                HookEvent::PreToolUse { tool_name, .. } => r matches Some(t) && t@ == tool_name@,
                HookEvent::PostToolUse { tool_name, .. } => r matches Some(t) && t@ == tool_name@,
                HookEvent::PostToolUseFailure { tool_name, .. } => r matches Some(t) && t@
                    == tool_name@,
                _ => r is None,
            },
    {
        match self {
            HookEvent::PreToolUse { tool_name, .. } => Some(tool_name.as_str()),
            HookEvent::PostToolUse { tool_name, .. } => Some(tool_name.as_str()),
            HookEvent::PostToolUseFailure { tool_name, .. } => Some(tool_name.as_str()),
            _ => None,
        }
    }

    pub open spec fn spec_mode(&self) -> HookMode {
        match self {
            HookEvent::PreToolUse { .. } => HookMode::PreTool,
            HookEvent::SessionStart { .. } => HookMode::Blocking,
            HookEvent::SessionEnd { .. } => HookMode::Blocking,
            HookEvent::UserPromptSubmit { .. } => HookMode::Blocking,
            HookEvent::Stop { .. } => HookMode::Blocking,
            HookEvent::StopFailure { .. } => HookMode::Blocking,
            HookEvent::InstructionsLoaded { .. } => HookMode::BestEffort,
            HookEvent::CwdChanged { .. } => HookMode::BestEffort,
            HookEvent::PostToolUse { .. } => HookMode::BestEffort,
            HookEvent::PostToolUseFailure { .. } => HookMode::BestEffort,
        }
    }

    /// How the hooks of the event are run.
    pub fn mode(&self) -> (r: HookMode)
        ensures
            r == self.spec_mode(),
            r is PreTool <==> *self matches HookEvent::PreToolUse { .. },
            r is Blocking <==> (*self matches HookEvent::SessionStart { .. })
                || (*self matches HookEvent::SessionEnd { .. })
                || (*self matches HookEvent::UserPromptSubmit { .. })
                || (*self matches HookEvent::Stop { .. })
                || (*self matches HookEvent::StopFailure { .. }),
            r is BestEffort <==> (*self matches HookEvent::PostToolUse { .. })
                || (*self matches HookEvent::PostToolUseFailure { .. })
                || (*self matches HookEvent::InstructionsLoaded { .. })
                || (*self matches HookEvent::CwdChanged { .. }),
    {
        match self {
            HookEvent::PreToolUse { .. } => HookMode::PreTool,
            HookEvent::SessionStart { .. } => HookMode::Blocking,
            HookEvent::SessionEnd { .. } => HookMode::Blocking,
            HookEvent::UserPromptSubmit { .. } => HookMode::Blocking,
            HookEvent::Stop { .. } => HookMode::Blocking,
            HookEvent::StopFailure { .. } => HookMode::Blocking,
            HookEvent::InstructionsLoaded { .. } => HookMode::BestEffort,
            HookEvent::CwdChanged { .. } => HookMode::BestEffort,
            HookEvent::PostToolUse { .. } => HookMode::BestEffort,
            HookEvent::PostToolUseFailure { .. } => HookMode::BestEffort,
        }
    }
}

/// The event with another input for its tool. Only an event before a call has one to replace.
pub fn with_pre_tool_input(event: HookEvent, input: serde_json::Value) -> (r: HookEvent)
    ensures
        r == match event {
            HookEvent::PreToolUse { tool_name, tool_use_id, .. } => HookEvent::PreToolUse {
                tool_name,
                tool_input: input,
                tool_use_id,
            },
            _ => event,
        },
{
    match event {
        HookEvent::PreToolUse { tool_name, tool_use_id, .. } => HookEvent::PreToolUse {
            tool_name,
            tool_input: input,
            tool_use_id,
        },
        other => other,
    }
}

/// Whether `a` comes before `b`: at the first place where they differ it has the smaller
/// character, or it ends there.
pub open spec fn text_before(a: Seq<char>, b: Seq<char>) -> bool
    decreases a.len(),
{
    if b.len() == 0 {
        false
    } else if a.len() == 0 {
        true
    } else if a[0] != b[0] {
        a[0] < b[0]
    } else {
        text_before(a.subrange(1, a.len() as int), b.subrange(1, b.len() as int))
    }
}

/// Whether `a` comes before `b`.
pub fn is_text_before(a: &str, b: &str) -> (r: bool)
    ensures
        r == text_before(a@, b@),
{
    let v = chars_of(a);
    let w = chars_of(b);
    let mut i: usize = 0;
    assert(v@.subrange(0, v@.len() as int) =~= v@);
    assert(w@.subrange(0, w@.len() as int) =~= w@);
    while i < v.len() && i < w.len()
        invariant
            i <= v@.len(),
            i <= w@.len(),
            v@ == a@,
            w@ == b@,
            text_before(a@, b@) == text_before(
                v@.subrange(i as int, v@.len() as int),
                w@.subrange(i as int, w@.len() as int),
            ),
        decreases v@.len() - i,
    {
        let ghost p = v@.subrange(i as int, v@.len() as int);
        let ghost q = w@.subrange(i as int, w@.len() as int);
        assert(p[0] == v@[i as int] && q[0] == w@[i as int]);
        assert(p.subrange(1, p.len() as int) =~= v@.subrange(i + 1, v@.len() as int));
        assert(q.subrange(1, q.len() as int) =~= w@.subrange(i + 1, w@.len() as int));
        if v[i] != w[i] {
            return v[i] < w[i];
        }
        i += 1;
    }
    i < w.len()
}

proof fn text_before_is_total(a: Seq<char>, b: Seq<char>)
    ensures
        text_before(a, b) || text_before(b, a) || a == b,
        !(text_before(a, b) && text_before(b, a)),
        a == b ==> !text_before(a, b),
    decreases a.len(),
{
    if a.len() == 0 || b.len() == 0 {
        if a.len() == 0 && b.len() == 0 {
            assert(a =~= b);
        }
    } else if a[0] == b[0] {
        let p = a.subrange(1, a.len() as int);
        let q = b.subrange(1, b.len() as int);
        text_before_is_total(p, q);
        if p == q {
            assert(a =~= seq![a[0]] + p);
            assert(b =~= seq![b[0]] + q);
        }
    }
}

proof fn text_before_is_transitive(a: Seq<char>, b: Seq<char>, c: Seq<char>)
    requires
        text_before(a, b),
        text_before(b, c),
    ensures
        text_before(a, c),
    decreases a.len(),
{
    if a.len() > 0 && b.len() > 0 && c.len() > 0 && a[0] == b[0] && b[0] == c[0] {
        text_before_is_transitive(
            a.subrange(1, a.len() as int),
            b.subrange(1, b.len() as int),
            c.subrange(1, c.len() as int),
        );
    }
}

/// Whether the hook at `i` runs before the hook at `j`: by priority, then by server, then by
/// where they stand.
pub open spec fn runs_before(hooks: Seq<DiscoveredHook>, i: int, j: int) -> bool {
    if hooks[i].spec.priority != hooks[j].spec.priority {
        hooks[i].spec.priority < hooks[j].spec.priority
    } else if hooks[i].server@ != hooks[j].server@ {
        text_before(hooks[i].server@, hooks[j].server@)
    } else {
        i < j
    }
}

proof fn runs_before_is_total(hooks: Seq<DiscoveredHook>, i: int, j: int)
    requires
        i != j,
    ensures
        runs_before(hooks, i, j) != runs_before(hooks, j, i),
{
    text_before_is_total(hooks[i].server@, hooks[j].server@);
}

proof fn runs_before_is_transitive(hooks: Seq<DiscoveredHook>, i: int, j: int, k: int)
    requires
        runs_before(hooks, i, j),
        runs_before(hooks, j, k),
    ensures
        runs_before(hooks, i, k),
{
    text_before_is_total(hooks[i].server@, hooks[j].server@);
    text_before_is_total(hooks[j].server@, hooks[k].server@);
    if hooks[i].spec.priority == hooks[j].spec.priority && hooks[j].spec.priority
        == hooks[k].spec.priority && hooks[i].server@ != hooks[j].server@ && hooks[j].server@
        != hooks[k].server@ {
        text_before_is_transitive(hooks[i].server@, hooks[j].server@, hooks[k].server@);
        text_before_is_total(hooks[i].server@, hooks[k].server@);
    }
}

/// Whether the hook at `i` runs for an event of this name. For the call of a tool, `accepted`
/// says of each hook whether its matcher accepts the name of the tool; a hook without a matcher
/// takes every tool. Other events reach only hooks without a matcher.
pub open spec fn selects(
    hooks: Seq<DiscoveredHook>,
    event_name: Seq<char>,
    accepted: Option<Seq<bool>>,
    i: int,
) -> bool {
    &&& hooks[i].spec.event@ == event_name
    &&& match accepted {
        Some(accepted) => hooks[i].spec.matcher is None || (i < accepted.len() && accepted[i]),
        None => hooks[i].spec.matcher is None,
    }
}

/// Whether these are the places of the hooks that run for an event, in the order in which they
/// run.
pub open spec fn is_dispatch_order(
    hooks: Seq<DiscoveredHook>,
    event_name: Seq<char>,
    accepted: Option<Seq<bool>>,
    places: Seq<usize>,
) -> bool {
    &&& forall|k: int| 0 <= k < places.len() ==> #[trigger] places[k] < hooks.len()
    &&& forall|k: int, l: int|
        0 <= k < l < places.len() ==> runs_before(
            hooks,
            #[trigger] places[k] as int,
            #[trigger] places[l] as int,
        )
    &&& forall|i: int|
        0 <= i < hooks.len() ==> (#[trigger] selects(hooks, event_name, accepted, i)
            <==> places.contains(i as usize))
}

fn hook_runs_before(hooks: &[DiscoveredHook], i: usize, j: usize) -> (r: bool)
    requires
        i < hooks@.len(),
        j < hooks@.len(),
    ensures
        r == runs_before(hooks@, i as int, j as int),
{
    if hooks[i].spec.priority != hooks[j].spec.priority {
        hooks[i].spec.priority < hooks[j].spec.priority
    } else if !(*hooks[i].server.as_str() == *hooks[j].server.as_str()) {
        is_text_before(hooks[i].server.as_str(), hooks[j].server.as_str())
    } else {
        i < j
    }
}

/// Puts the place `i` where it belongs among places that are in order.
fn insert_place(hooks: &[DiscoveredHook], places: &mut Vec<usize>, i: usize)
    requires
        i < hooks@.len(),
        forall|k: int| 0 <= k < old(places)@.len() ==> #[trigger] old(places)@[k] < i,
        forall|k: int, l: int|
            0 <= k < l < old(places)@.len() ==> runs_before(
                hooks@,
                #[trigger] old(places)@[k] as int,
                #[trigger] old(places)@[l] as int,
            ),
    ensures
        exists|at: int|
            0 <= at <= old(places)@.len() && final(places)@ == #[trigger] old(places)@.insert(
                at,
                i,
            ),
        forall|k: int, l: int|
            0 <= k < l < final(places)@.len() ==> runs_before(
                hooks@,
                #[trigger] final(places)@[k] as int,
                #[trigger] final(places)@[l] as int,
            ),
{
    let mut at: usize = 0;
    let ghost before = places@;
    while at < places.len() && !hook_runs_before(hooks, i, places[at])
        invariant
            at <= places@.len(),
            places@ == before,
            i < hooks@.len(),
            forall|k: int| 0 <= k < before.len() ==> #[trigger] before[k] < i,
            forall|k: int|
                0 <= k < at ==> runs_before(hooks@, #[trigger] before[k] as int, i as int),
        decreases places@.len() - at,
    {
        proof {
            runs_before_is_total(hooks@, i as int, before[at as int] as int);
        }
        at += 1;
    }
    places.insert(at, i);
    proof {
        let after = places@;
        assert(after == before.insert(at as int, i));
        assert forall|k: int, l: int| 0 <= k < l < after.len() implies runs_before(
            hooks@,
            #[trigger] after[k] as int,
            #[trigger] after[l] as int,
        ) by {
            if k < at && l > at {
                assert(after[k] == before[k] && after[l] == before[l - 1]);
            } else if l < at {
                assert(after[k] == before[k] && after[l] == before[l]);
            } else if k > at {
                assert(after[k] == before[k - 1] && after[l] == before[l - 1]);
            } else if k == at {
                assert(after[l] == before[l - 1]);
                if l - 1 > at {
                    assert(runs_before(hooks@, i as int, before[at as int] as int));
                    assert(runs_before(hooks@, before[at as int] as int, before[l - 1] as int));
                    runs_before_is_transitive(
                        hooks@,
                        i as int,
                        before[at as int] as int,
                        before[l - 1] as int,
                    );
                }
            } else {
                assert(after[k] == before[k]);
            }
        }
    }
}

/// The places of the hooks that run for an event, in the order in which they run.
pub fn matching_places(
    hooks: &[DiscoveredHook],
    event_name: &str,
    accepted: Option<&[bool]>,
) -> (r: Vec<usize>)
    ensures
        is_dispatch_order(
            hooks@,
            event_name@,
            match accepted {
                Some(a) => Some(a@),
                None => None,
            },
            r@,
        ),
{
    let ghost acc = match accepted {
        Some(a) => Some(a@),
        None => None,
    };
    let mut places: Vec<usize> = Vec::new();
    let mut i: usize = 0;
    while i < hooks.len()
        invariant
            i <= hooks@.len(),
            acc == match accepted {
                Some(a) => Some(a@),
                None => None,
            },
            forall|k: int| 0 <= k < places@.len() ==> #[trigger] places@[k] < i,
            forall|k: int, l: int|
                0 <= k < l < places@.len() ==> runs_before(
                    hooks@,
                    #[trigger] places@[k] as int,
                    #[trigger] places@[l] as int,
                ),
            forall|j: int|
                0 <= j < i ==> (#[trigger] selects(hooks@, event_name@, acc, j)
                    <==> places@.contains(j as usize)),
        decreases hooks@.len() - i,
    {
        let takes: bool = match accepted {
            Some(a) => hooks[i].spec.matcher.is_none() || (i < a.len() && a[i]),
            None => hooks[i].spec.matcher.is_none(),
        };
        let chosen: bool = *hooks[i].spec.event.as_str() == *event_name && takes;
        assert(chosen == selects(hooks@, event_name@, acc, i as int));
        let ghost before = places@;
        if chosen {
            insert_place(hooks, &mut places, i);
            proof {
                let at = choose|at: int|
                    0 <= at <= before.len() && places@ == #[trigger] before.insert(at, i);
                assert(places@[at] == i);
                assert forall|k: int| 0 <= k < places@.len() implies #[trigger] places@[k] <= i by {
                    if k < at {
                        assert(places@[k] == before[k]);
                    } else if k > at {
                        assert(places@[k] == before[k - 1]);
                    }
                }
                assert forall|j: int| 0 <= j <= i implies (#[trigger] selects(
                    hooks@,
                    event_name@,
                    acc,
                    j,
                ) <==> places@.contains(j as usize)) by {
                    if j < i {
                        if before.contains(j as usize) {
                            let k = choose|k: int| 0 <= k < before.len() && before[k] == j;
                            if k < at {
                                assert(places@[k] == j);
                            } else {
                                assert(places@[k + 1] == j);
                            }
                        }
                        if places@.contains(j as usize) {
                            let k = choose|k: int| 0 <= k < places@.len() && places@[k] == j;
                            if k < at {
                                assert(before[k] == j);
                            } else {
                                assert(before[k - 1] == j);
                            }
                        }
                    }
                }
            }
        } else {
            proof {
                if places@.contains(i) {
                    let k = choose|k: int| 0 <= k < places@.len() && places@[k] == i;
                    assert(places@[k] < i);
                }
            }
        }
        i += 1;
    }
    places
}

/// The hooks that run for an event, in the order in which they run.
pub fn matching_hooks<'a>(
    hooks: &'a [DiscoveredHook],
    event_name: &str,
    accepted: Option<&[bool]>,
) -> (r: Vec<&'a DiscoveredHook>)
    ensures
        exists|places: Seq<usize>|
            #![trigger is_dispatch_order(hooks@, event_name@, opt_seq(accepted), places)]
            is_dispatch_order(hooks@, event_name@, opt_seq(accepted), places) && r@.len()
                == places.len() && forall|k: int|
                0 <= k < r@.len() ==> *(#[trigger] r@[k]) == hooks@[places[k] as int],
{
    let places = matching_places(hooks, event_name, accepted);
    let mut r: Vec<&'a DiscoveredHook> = Vec::new();
    let mut k: usize = 0;
    while k < places.len()
        invariant
            k <= places@.len(),
            r@.len() == k,
            forall|j: int| 0 <= j < places@.len() ==> #[trigger] places@[j] < hooks@.len(),
            forall|j: int| 0 <= j < k ==> *(#[trigger] r@[j]) == hooks@[places@[j] as int],
        decreases places@.len() - k,
    {
        r.push(&hooks[places[k]]);
        k += 1;
    }
    assert(is_dispatch_order(hooks@, event_name@, opt_seq(accepted), places@));
    r
}

pub open spec fn opt_seq(accepted: Option<&[bool]>) -> Option<Seq<bool>> {
    match accepted {
        Some(a) => Some(a@),
        None => None,
    }
}

/// The order of the hooks of an event is settled: nothing is left to chance.
pub proof fn law_dispatch_order_is_unique(
    hooks: Seq<DiscoveredHook>,
    event_name: Seq<char>,
    accepted: Option<Seq<bool>>,
    a: Seq<usize>,
    b: Seq<usize>,
)
    requires
        hooks.len() <= usize::MAX,
        is_dispatch_order(hooks, event_name, accepted, a),
        is_dispatch_order(hooks, event_name, accepted, b),
    ensures
        a == b,
    decreases a.len(),
{
    orders_agree(hooks, a, b);
    assert forall|x: usize| a.contains(x) <==> b.contains(x) by {
        if a.contains(x) {
            let k = choose|k: int| 0 <= k < a.len() && a[k] == x;
            assert(selects(hooks, event_name, accepted, x as int));
        }
        if b.contains(x) {
            let k = choose|k: int| 0 <= k < b.len() && b[k] == x;
            assert(selects(hooks, event_name, accepted, x as int));
        }
    }
}

/// Two sequences that hold the same places, both in order, are the same.
proof fn orders_agree(hooks: Seq<DiscoveredHook>, a: Seq<usize>, b: Seq<usize>)
    ensures
        (forall|k: int, l: int|
            0 <= k < l < a.len() ==> runs_before(
                hooks,
                #[trigger] a[k] as int,
                #[trigger] a[l] as int,
            )) && (forall|k: int, l: int|
            0 <= k < l < b.len() ==> runs_before(
                hooks,
                #[trigger] b[k] as int,
                #[trigger] b[l] as int,
            )) && (forall|x: usize| a.contains(x) <==> b.contains(x)) ==> a == b,
    decreases a.len(),
{
    let ordered = (forall|k: int, l: int|
        0 <= k < l < a.len() ==> runs_before(hooks, #[trigger] a[k] as int, #[trigger] a[l] as int))
        && (forall|k: int, l: int|
        0 <= k < l < b.len() ==> runs_before(hooks, #[trigger] b[k] as int, #[trigger] b[l] as int))
        && (forall|x: usize| a.contains(x) <==> b.contains(x));
    if ordered {
        if a.len() == 0 {
            if b.len() > 0 {
                assert(b.contains(b[0]));
            }
            assert(a =~= b);
        } else {
            assert(a.contains(a.last()));
            assert(b.contains(a.last()));
            let i = choose|i: int| 0 <= i < b.len() && b[i] == a.last();
            assert(b.contains(b.last()));
            let j = choose|j: int| 0 <= j < a.len() && a[j] == b.last();
            // The last place of either is the last place of both.
            if a.last() != b.last() {
                assert(runs_before(hooks, b[i] as int, b[b.len() - 1] as int));
                assert(runs_before(hooks, a[j] as int, a[a.len() - 1] as int));
                runs_before_is_total(hooks, a.last() as int, b.last() as int);
            }
            let p = a.drop_last();
            let q = b.drop_last();
            assert forall|x: usize| p.contains(x) <==> q.contains(x) by {
                if p.contains(x) {
                    let k = choose|k: int| 0 <= k < p.len() && p[k] == x;
                    assert(a[k] == x);
                    assert(b.contains(x));
                    let m = choose|m: int| 0 <= m < b.len() && b[m] == x;
                    if m == b.len() - 1 {
                        assert(runs_before(hooks, a[k] as int, a[a.len() - 1] as int));
                        irreflexive(hooks, x as int);
                    }
                    assert(q[m] == x);
                }
                if q.contains(x) {
                    let k = choose|k: int| 0 <= k < q.len() && q[k] == x;
                    assert(b[k] == x);
                    assert(a.contains(x));
                    let m = choose|m: int| 0 <= m < a.len() && a[m] == x;
                    if m == a.len() - 1 {
                        assert(runs_before(hooks, b[k] as int, b[b.len() - 1] as int));
                        irreflexive(hooks, x as int);
                    }
                    assert(p[m] == x);
                }
            }
            orders_agree(hooks, p, q);
            assert(p == q);
            assert(a =~= p.push(a.last()));
            assert(b =~= q.push(b.last()));
        }
    }
}

proof fn irreflexive(hooks: Seq<DiscoveredHook>, i: int)
    ensures
        !runs_before(hooks, i, i),
{
}

/// What a hook decides about its event.
#[derive(Debug, PartialEq, Eq)]
#[allow(inconsistent_fields)]
pub enum HookResultControl {
    /// Go on.
    Continue,
    /// Stop here.
    Block { reason: String },
    /// Ask the user.
    Ask { reason: Option<String> },
}

/// What a hook hands back besides its decision.
#[derive(Debug)]
pub struct HookResult {
    pub additional_context: Option<String>,
    pub system_message: Option<String>,
    pub mutated_tool_input: Option<serde_json::Value>,
    pub mutated_tool_response: Option<serde_json::Value>,
    pub resume: Option<bool>,
}

/// The answer of a hook, or of all the hooks of an event.
#[derive(Debug)]
pub struct HookOutcome {
    pub control: HookResultControl,
    pub result: HookResult,
}

impl HookResult {
    /// Nothing is handed back.
    pub open spec fn is_empty(&self) -> bool {
        &&& self.additional_context is None
        &&& self.system_message is None
        &&& self.mutated_tool_input is None
        &&& self.mutated_tool_response is None
        &&& self.resume is None
    }

    pub fn empty() -> (r: HookResult)
        ensures
            r.is_empty(),
    {
        HookResult {
            additional_context: None,
            system_message: None,
            mutated_tool_input: None,
            mutated_tool_response: None,
            resume: None,
        }
    }
}

/// The answer that lets an event go on, with at most another input for its tool.
pub fn continue_outcome(mutated_tool_input: Option<serde_json::Value>) -> (r: HookOutcome)
    ensures
        r.control is Continue,
        r.result == (HookResult {
            additional_context: None,
            system_message: None,
            mutated_tool_input,
            mutated_tool_response: None,
            resume: None,
        }),
{
    let mut result = HookResult::empty();
    result.mutated_tool_input = mutated_tool_input;
    HookOutcome { control: HookResultControl::Continue, result }
}

/// The answer that stands in for a hook that could not be asked.
pub fn unavailable_outcome(server: &str, fail_policy: FailPolicy) -> (r: HookOutcome)
    ensures
        r.result.is_empty(),
        match fail_policy {
            FailPolicy::Open => r.control is Continue,
            FailPolicy::Closed => r.control matches HookResultControl::Block { reason } && reason@
                == server@ + " hook unavailable"@,
        },
{
    match fail_policy {
        FailPolicy::Open => continue_outcome(None),
        FailPolicy::Closed => {
            let mut reason = String::from_str(server);
            reason.append(" hook unavailable");
            HookOutcome {
                control: HookResultControl::Block { reason },
                result: HookResult::empty(),
            }
        },
    }
}

/// How long a hook is waited for, in seconds.
pub fn hook_timeout_secs(spec: &HookSpec) -> (r: u64)
    ensures
        r == match spec.timeout_secs {
            Some(s) => s,
            None => DEFAULT_HOOK_TIMEOUT_SECS,
        },
{
    match spec.timeout_secs {
        Some(s) => s,
        None => DEFAULT_HOOK_TIMEOUT_SECS,
    }
}

/// The subject under which a server is asked about an event.
pub fn hook_subject(instance_id: &str, server: &str, event_name: &str) -> (r: String)
    ensures
        r@ == "harnx.v1."@ + instance_id@ + ".hook."@ + server@ + "."@ + event_name@,
{
    let mut r = String::from_str("harnx.v1.");
    r.append(instance_id);
    r.append(".hook.");
    r.append(server);
    r.append(".");
    r.append(event_name);
    r
}

/// What the replies of a chain have come to so far, as mathematics.
pub struct ChainView {
    pub contexts: Seq<Seq<char>>,
    pub messages: Seq<Seq<char>>,
    pub resume: bool,
    pub input: Option<serde_json::Value>,
}

/// A text that says something, at the end of the others.
pub open spec fn noted(before: Seq<Seq<char>>, text: Option<String>) -> Seq<Seq<char>> {
    match text {
        Some(t) => if t@.len() > 0 {
            before.push(t@)
        } else {
            before
        },
        None => before,
    }
}

/// A chain before the first reply.
pub open spec fn empty_chain() -> ChainView {
    ChainView {
        contexts: Seq::empty(),
        messages: Seq::empty(),
        resume: false,
        input: None,
    }
}

/// A chain after a reply that lets the event go on. Only before a call does another input count.
pub open spec fn continued(chain: ChainView, mutates: bool, result: HookResult) -> ChainView {
    ChainView {
        contexts: noted(chain.contexts, result.additional_context),
        messages: noted(chain.messages, result.system_message),
        resume: chain.resume || result.resume == Some(true),
        input: if mutates && result.mutated_tool_input is Some {
            result.mutated_tool_input
        } else {
            chain.input
        },
    }
}

/// Lines, or nothing where there are none.
pub open spec fn lines_of(parts: Seq<Seq<char>>) -> Option<Seq<char>> {
    if parts.len() > 0 {
        Some(joined(parts, "\n"@))
    } else {
        None
    }
}

/// The answer that a chain of replies comes to when no hook stopped it.
pub open spec fn is_chain_outcome(chain: ChainView, outcome: HookOutcome) -> bool {
    &&& outcome.control is Continue
    &&& opt_text(outcome.result.additional_context) == lines_of(chain.contexts)
    &&& opt_text(outcome.result.system_message) == lines_of(chain.messages)
    &&& outcome.result.mutated_tool_input == chain.input
    &&& outcome.result.mutated_tool_response is None
    &&& outcome.result.resume == if chain.resume {
        Some(true)
    } else {
        None
    }
}

/// What came of asking a hook.
#[derive(Debug)]
pub enum HookReply {
    /// It answered.
    Answered(HookOutcome),
    /// It could not be reached, or gave no valid answer.
    Unavailable,
    /// The question could not be written down.
    Unserializable,
}

/// Whether a reply ends a chain. A hook that cannot be reached is passed over where it fails
/// open; a question that cannot be written down ends the chain either way.
pub open spec fn ends_chain(policy: FailPolicy, reply: HookReply) -> bool {
    match reply {
        HookReply::Answered(outcome) => !(outcome.control is Continue),
        HookReply::Unavailable => policy is Closed,
        HookReply::Unserializable => true,
    }
}

/// The replies of the hooks of one event that run one after another.
#[derive(Debug)]
pub struct HookChain {
    mutates: bool,
    additional_contexts: Vec<String>,
    system_messages: Vec<String>,
    resume: bool,
    input: Option<serde_json::Value>,
}

impl HookChain {
    pub closed spec fn view(&self) -> ChainView {
        ChainView {
            contexts: texts(self.additional_contexts@),
            messages: texts(self.system_messages@),
            resume: self.resume,
            input: self.input,
        }
    }

    pub closed spec fn takes_input(&self) -> bool {
        self.mutates
    }

    /// A chain before the first reply.
    pub fn new(mode: HookMode) -> (r: HookChain)
        ensures
            r@ == empty_chain(),
            r.takes_input() == (mode is PreTool),
    {
        let r = HookChain {
            mutates: match mode {
                HookMode::PreTool => true,
                _ => false,
            },
            additional_contexts: Vec::new(),
            system_messages: Vec::new(),
            resume: false,
            input: None,
        };
        assert(texts(r.additional_contexts@) =~= Seq::<Seq<char>>::empty());
        assert(texts(r.system_messages@) =~= Seq::<Seq<char>>::empty());
        r
    }

    fn push(&mut self, result: HookResult)
        ensures
            final(self)@ == continued(old(self)@, old(self).takes_input(), result),
            final(self).takes_input() == old(self).takes_input(),
    {
        note(&mut self.additional_contexts, result.additional_context);
        note(&mut self.system_messages, result.system_message);
        match result.resume {
            Some(true) => {
                self.resume = true;
            },
            _ => {},
        }
        if self.mutates {
            match result.mutated_tool_input {
                Some(input) => {
                    self.input = Some(input);
                },
                None => {},
            }
        }
    }

    /// Takes the reply of a hook. The answer to the event, where the chain ends here.
    pub fn reply(&mut self, server: &str, policy: FailPolicy, reply: HookReply) -> (r: Option<
        HookOutcome,
    >)
        ensures
            final(self).takes_input() == old(self).takes_input(),
            r is Some <==> ends_chain(policy, reply),
            match reply {
                HookReply::Answered(outcome) => if outcome.control is Continue {
                    final(self)@ == continued(old(self)@, old(self).takes_input(), outcome.result)
                } else {
                    final(self)@ == old(self)@ && r == Some(outcome)
                },
                _ => final(self)@ == old(self)@ && (r matches Some(o) ==> o.result.is_empty()
                    && match policy {
                    FailPolicy::Open => o.control is Continue,
                    FailPolicy::Closed => o.control matches HookResultControl::Block { reason }
                        && reason@ == server@ + " hook unavailable"@,
                }),
            },
    {
        match reply {
            HookReply::Answered(outcome) => {
                match outcome.control {
                    HookResultControl::Continue => {
                        self.push(outcome.result);
                        None
                    },
                    _ => Some(outcome),
                }
            },
            HookReply::Unavailable => match policy {
                FailPolicy::Open => None,
                FailPolicy::Closed => Some(unavailable_outcome(server, policy)),
            },
            HookReply::Unserializable => Some(unavailable_outcome(server, policy)),
        }
    }

    /// The input that the next hook is shown in place of the first one.
    pub fn input(&self) -> (r: Option<&serde_json::Value>)
        ensures
            match r {
                Some(v) => self@.input == Some(*v),
                None => self@.input is None,
            },
    {
        match &self.input {
            Some(v) => Some(v),
            None => None,
        }
    }

    /// The answer to the event after the last hook.
    pub fn finish(self) -> (r: HookOutcome)
        ensures
            is_chain_outcome(self@, r),
    {
        let mut result = HookResult::empty();
        if self.additional_contexts.len() > 0 {
            result.additional_context = Some(join(self.additional_contexts.as_slice(), "\n"));
        }
        if self.system_messages.len() > 0 {
            result.system_message = Some(join(self.system_messages.as_slice(), "\n"));
        }
        if self.resume {
            result.resume = Some(true);
        }
        result.mutated_tool_input = self.input;
        HookOutcome { control: HookResultControl::Continue, result }
    }
}

fn note(list: &mut Vec<String>, text: Option<String>)
    ensures
        texts(final(list)@) == noted(texts(old(list)@), text),
{
    match text {
        Some(t) => {
            if !t.as_str().is_empty() {
                let ghost before = texts(list@);
                list.push(t);
                assert(texts(list@) =~= before.push(t@));
            }
        },
        None => {},
    }
}

/// A text at the end of what waits for the next turn, on a line of its own.
pub open spec fn with_line(waiting: Seq<char>, text: Option<String>) -> Seq<char> {
    match text {
        Some(t) => if t@.len() == 0 {
            waiting
        } else if waiting.len() == 0 {
            t@
        } else {
            waiting.push('\n') + t@
        },
        None => waiting,
    }
}

/// What waits for the next turn after a hook has handed back two texts.
pub open spec fn pending_after(
    waiting: Option<Seq<char>>,
    context: Option<String>,
    message: Option<String>,
) -> Option<Seq<char>> {
    let before = match waiting {
        Some(w) => w,
        None => Seq::empty(),
    };
    let after = with_line(with_line(before, context), message);
    if after.len() == 0 {
        None
    } else {
        Some(after)
    }
}

fn add_line(waiting: &mut String, text: &Option<String>)
    ensures
        final(waiting)@ == with_line(old(waiting)@, *text),
{
    match text {
        Some(t) => {
            if !t.as_str().is_empty() {
                if !waiting.as_str().is_empty() {
                    waiting.push('\n');
                }
                waiting.append(t.as_str());
                assert(waiting@ =~= with_line(old(waiting)@, *text));
            }
        },
        None => {},
    }
}

/// Adds what a hook handed back to what waits for the next turn.
pub fn append_pending_context(
    pending: Option<String>,
    context: &Option<String>,
    message: &Option<String>,
) -> (r: Option<String>)
    ensures
        opt_text(r) == pending_after(opt_text(pending), *context, *message),
{
    let mut waiting = match pending {
        Some(w) => w,
        None => String::new(),
    };
    add_line(&mut waiting, context);
    add_line(&mut waiting, message);
    if waiting.as_str().is_empty() {
        None
    } else {
        Some(waiting)
    }
}

/// What waits for the next turn after one hook has replied. Before a call nothing is added yet:
/// the hooks of a call add what they said together.
pub fn pending_after_reply(mode: HookMode, pending: Option<String>, reply: &HookReply) -> (r: Option<
    String,
>)
    ensures
        opt_text(r) == match (mode, *reply) {
            (HookMode::PreTool, _) => opt_text(pending),
            (_, HookReply::Answered(outcome)) => pending_after(
                opt_text(pending),
                outcome.result.additional_context,
                outcome.result.system_message,
            ),
            (_, _) => opt_text(pending),
        },
{
    match mode {
        HookMode::PreTool => pending,
        _ => match reply {
            HookReply::Answered(outcome) => append_pending_context(
                pending,
                &outcome.result.additional_context,
                &outcome.result.system_message,
            ),
            _ => pending,
        },
    }
}

/// What waits for the next turn after all hooks of an event have replied.
pub fn pending_after_outcome(mode: HookMode, pending: Option<String>, outcome: &HookOutcome) -> (r:
    Option<String>)
    ensures
        opt_text(r) == match mode {
            HookMode::PreTool => pending_after(
                opt_text(pending),
                outcome.result.additional_context,
                outcome.result.system_message,
            ),
            _ => opt_text(pending),
        },
{
    match mode {
        HookMode::PreTool => append_pending_context(
            pending,
            &outcome.result.additional_context,
            &outcome.result.system_message,
        ),
        _ => pending,
    }
}

/// What the user is told of a hook in the background that could not be reached.
pub fn unavailable_notice(server: &str, policy: FailPolicy, error: &str) -> (r: String)
    ensures
        r@ == server@ + " hook unavailable ("@ + match policy {
            FailPolicy::Closed => "fail-closed"@,
            FailPolicy::Open => "fail-open"@,
        } + "): "@ + error@,
{
    let mut r = String::from_str(server);
    r.append(" hook unavailable (");
    match policy {
        FailPolicy::Closed => r.append("fail-closed"),
        FailPolicy::Open => r.append("fail-open"),
    }
    r.append("): ");
    r.append(error);
    r
}

/// What the user is told of a question that could not be written down.
pub fn unserializable_notice(server: &str, error: &str) -> (r: String)
    ensures
        r@ == server@ + " hook request could not be serialized: "@ + error@,
{
    let mut r = String::from_str(server);
    r.append(" hook request could not be serialized: ");
    r.append(error);
    r
}

/// What the user is told of a hook in the background that wanted to stop its event. `decision`
/// is its decision in words.
pub fn decision_notice(
    server: &str,
    event_name: &str,
    control: &HookResultControl,
    decision: &str,
) -> (r: Option<String>)
    ensures
        r is Some <==> !(control is Continue),
        r matches Some(t) ==> t@ == server@ + " hook returned "@ + decision@
            + " during best-effort "@ + event_name@ + " dispatch"@,
{
    match control {
        HookResultControl::Continue => None,
        _ => {
            let mut r = String::from_str(server);
            r.append(" hook returned ");
            r.append(decision);
            r.append(" during best-effort ");
            r.append(event_name);
            r.append(" dispatch");
            Some(r)
        },
    }
}

/// The text of a member of a JSON document: nothing where it has no such member that is a text.
/// Where the bytes are no JSON, what the reader says of them.
pub uninterp spec fn json_member_text(document: Seq<u8>, key: Seq<char>) -> Result<
    Option<Seq<char>>,
    Seq<char>,
>;

/// `serde_json::from_slice` to a `Value`, of which `Value::get` takes the member `key` and
/// `Value::as_str` the text; an error is given as the words of `serde_json::Error`. The result
/// depends on the arguments alone; what is JSON, which members it has and how an error is put is
/// named here and not spelled out.
#[verifier::external_body]
fn json_member(document: &[u8], key: &str) -> (r: Result<Option<String>, String>)
    ensures
        match r {
            Ok(Some(t)) => json_member_text(document@, key@) == Ok::<_, Seq<char>>(Some(t@)),
            Ok(None) => json_member_text(document@, key@) == Ok::<_, Seq<char>>(None::<Seq<char>>),
            Err(e) => json_member_text(document@, key@) == Err::<Option<Seq<char>>, _>(e@),
        },
{
    let parsed = serde_json::from_slice::<serde_json::Value>(document);
    let parsed = parsed.map_err(|error| error.to_string())?;
    Ok(parsed.get(key).and_then(serde_json::Value::as_str).map(str::to_string))
}

/// Why a hook was not asked.
#[derive(Debug, PartialEq, Eq)]
pub enum HookRequestError {
    Interrupted,
    /// The question is no JSON, as the reader put it.
    Malformed(String),
    /// The question does not say whose it is.
    MissingSession,
}

impl HookRequestError {
    pub fn message(&self) -> (r: String)
        ensures
            r@ == match *self {
                HookRequestError::Interrupted => "hook invocation interrupted"@,
                HookRequestError::Malformed(e) => e@,
                HookRequestError::MissingSession => "hook payload missing session_id"@,
            },
    {
        match self {
            HookRequestError::Interrupted => String::from_str("hook invocation interrupted"),
            HookRequestError::Malformed(e) => e.clone(),
            HookRequestError::MissingSession => String::from_str(
                "hook payload missing session_id",
            ),
        }
    }
}

/// The session that a question belongs to, from what is known of its member.
pub fn session_of_member(aborted: bool, member: Result<Option<String>, String>) -> (r: Result<
    String,
    HookRequestError,
>)
    ensures
        r == if aborted {
            Err::<String, HookRequestError>(HookRequestError::Interrupted)
        } else {
            match member {
                Ok(Some(id)) => Ok(id),
                Ok(None) => Err(HookRequestError::MissingSession),
                Err(e) => Err(HookRequestError::Malformed(e)),
            }
        },
{
    if aborted {
        return Err(HookRequestError::Interrupted);
    }
    match member {
        Ok(Some(id)) => Ok(id),
        Ok(None) => Err(HookRequestError::MissingSession),
        Err(e) => Err(HookRequestError::Malformed(e)),
    }
}

/// The session that a question belongs to, by which a call to a hook is found when the session is
/// cancelled. Nothing is asked after an interrupt.
pub fn hook_session_id(aborted: bool, payload: &[u8]) -> (r: Result<String, HookRequestError>)
    ensures
        if aborted {
            r == Err::<String, HookRequestError>(HookRequestError::Interrupted)
        } else {
            match json_member_text(payload@, "session_id"@) {
                Ok(Some(id)) => r matches Ok(t) && t@ == id,
                Ok(None) => r == Err::<String, HookRequestError>(HookRequestError::MissingSession),
                Err(e) => r matches Err(HookRequestError::Malformed(t)) && t@ == e,
            }
        },
{
    session_of_member(aborted, json_member(payload, "session_id"))
}

/// Whether an entry of the registry belongs to an instance, by the prefix of its key.
pub fn is_registration_key(key: &str, instance_id: &str) -> (r: bool)
    ensures
        r == starts_with(key@, instance_id@ + "."@),
{
    let mut prefix = String::from_str(instance_id);
    prefix.append(".");
    has_prefix(key, prefix.as_str())
}

/// Takes the hooks of a server into the list, if the server registered under its own key.
pub fn take_registration(
    found: &mut Vec<DiscoveredHook>,
    key: &str,
    own_key: &str,
    server: &str,
    specs: Vec<HookSpec>,
)
    ensures
        key@ != own_key@ ==> final(found)@ == old(found)@,
        key@ == own_key@ ==> {
            &&& final(found)@.len() == old(found)@.len() + specs@.len()
            &&& forall|i: int|
                0 <= i < old(found)@.len() ==> #[trigger] final(found)@[i] == old(found)@[i]
            &&& forall|i: int|
                0 <= i < specs@.len() ==> {
                    let hook = #[trigger] final(found)@[old(found)@.len() + i];
                    hook.server@ == server@ && hook.spec == specs@[i]
                }
        },
{
    if *key == *own_key {
        let ghost before = found@;
        for spec in it: specs
            invariant
                it.seq() == specs@,
                found@.len() == before.len() + it.index(),
                forall|i: int| 0 <= i < before.len() ==> #[trigger] found@[i] == before[i],
                forall|i: int|
                    0 <= i < it.index() ==> {
                        let hook = #[trigger] found@[before.len() + i];
                        hook.server@ == server@ && hook.spec == specs@[i]
                    },
        {
            found.push(DiscoveredHook { server: String::from_str(server), spec });
        }
    }
}

/// A chain after replies that let the event go on.
pub open spec fn after_replies(
    chain: ChainView,
    mutates: bool,
    results: Seq<HookResult>,
) -> ChainView
    decreases results.len(),
{
    if results.len() == 0 {
        chain
    } else {
        continued(after_replies(chain, mutates, results.drop_last()), mutates, results.last())
    }
}

/// Of several hooks that change the input of a call, the last one wins; later hooks that change
/// nothing leave it as it is.
pub proof fn law_last_mutation_wins(chain: ChainView, results: Seq<HookResult>, at: int)
    requires
        0 <= at < results.len(),
        results[at].mutated_tool_input is Some,
        forall|i: int| at < i < results.len() ==> #[trigger] results[i].mutated_tool_input is None,
    ensures
        after_replies(chain, true, results).input == results[at].mutated_tool_input,
    decreases results.len(),
{
    if at < results.len() - 1 {
        assert(results[results.len() - 1].mutated_tool_input is None);
        assert forall|i: int|
            at < i < results.drop_last().len() implies #[trigger] results.drop_last()[i].mutated_tool_input
            is None by {
            assert(results.drop_last()[i] == results[i]);
        }
        law_last_mutation_wins(chain, results.drop_last(), at);
    }
}

/// Only before a call can a hook change an input.
pub proof fn law_other_events_keep_their_input(chain: ChainView, results: Seq<HookResult>)
    ensures
        after_replies(chain, false, results).input == chain.input,
    decreases results.len(),
{
    if results.len() > 0 {
        law_other_events_keep_their_input(chain, results.drop_last());
    }
}

/// What waits for the next turn is only ever added to.
pub proof fn law_pending_context_is_kept(
    waiting: Seq<char>,
    context: Option<String>,
    message: Option<String>,
)
    requires
        waiting.len() > 0,
    ensures
        pending_after(Some(waiting), context, message) is Some,
        starts_with(pending_after(Some(waiting), context, message)->0, waiting),
{
    let first = with_line(waiting, context);
    let after = with_line(first, message);
    assert(first.subrange(0, waiting.len() as int) =~= waiting);
    assert(after.subrange(0, first.len() as int) =~= first);
    assert(after.subrange(0, waiting.len() as int) =~= waiting);
}

/// An event waits for its hooks where the session starts or ends, where the user has asked and
/// where the agent stops or fails to. Before a call they may change its input. After a call, and
/// where only the surroundings changed, they run in the background.
pub proof fn law_events_wait_as_their_kind_asks(event: HookEvent)
    ensures
        event.spec_mode() is PreTool <==> event is PreToolUse,
        event.spec_mode() is Blocking <==> event is SessionStart || event is SessionEnd
            || event is UserPromptSubmit || event is Stop || event is StopFailure,
        event.spec_mode() is BestEffort <==> event is PostToolUse || event is PostToolUseFailure
            || event is InstructionsLoaded || event is CwdChanged,
{
}

/// Events of the same name are of the same kind, and each kind has the name of its variant.
pub proof fn law_names_tell_events_apart(a: HookEvent, b: HookEvent)
    ensures
        a is PreToolUse ==> a.name() == "PreToolUse"@,
        a is PostToolUse ==> a.name() == "PostToolUse"@,
        a is PostToolUseFailure ==> a.name() == "PostToolUseFailure"@,
        a is SessionStart ==> a.name() == "SessionStart"@,
        a is SessionEnd ==> a.name() == "SessionEnd"@,
        a is UserPromptSubmit ==> a.name() == "UserPromptSubmit"@,
        a is Stop ==> a.name() == "Stop"@,
        a is StopFailure ==> a.name() == "StopFailure"@,
        a is InstructionsLoaded ==> a.name() == "InstructionsLoaded"@,
        a is CwdChanged ==> a.name() == "CwdChanged"@,
        a.name() == b.name() ==> (a is PreToolUse <==> b is PreToolUse) && (a is PostToolUse
            <==> b is PostToolUse) && (a is PostToolUseFailure <==> b is PostToolUseFailure) && (
        a is SessionStart <==> b is SessionStart) && (a is SessionEnd <==> b is SessionEnd) && (
        a is UserPromptSubmit <==> b is UserPromptSubmit) && (a is Stop <==> b is Stop) && (
        a is StopFailure <==> b is StopFailure) && (a is InstructionsLoaded
            <==> b is InstructionsLoaded) && (a is CwdChanged <==> b is CwdChanged),
{
    reveal_strlit("PreToolUse");
    reveal_strlit("PostToolUse");
    reveal_strlit("PostToolUseFailure");
    reveal_strlit("SessionStart");
    reveal_strlit("SessionEnd");
    reveal_strlit("UserPromptSubmit");
    reveal_strlit("Stop");
    reveal_strlit("StopFailure");
    reveal_strlit("InstructionsLoaded");
    reveal_strlit("CwdChanged");
    if a.name() == b.name() {
        assert(a.name().len() == b.name().len());
        // Four names share a length with another one; their first letters differ.
        assert(a.name()[0] == b.name()[0]);
        assert(a.name()[1] == b.name()[1]);
    }
}

/// One text comes before another exactly where, behind a common beginning, it ends or has the
/// smaller character.
#[verifier::spinoff_prover]
#[verifier::rlimit(40)]
pub proof fn law_texts_are_ordered_by_their_first_difference(a: Seq<char>, b: Seq<char>)
    ensures
        text_before(a, b) <==> exists|k: int|
            #![trigger a.take(k)]
            0 <= k <= a.len() && k < b.len() && a.take(k) == b.take(k) && (k == a.len() || a[k]
                < b[k]),
    decreases a.len(),
{
    if a.len() > 0 && b.len() > 0 && a[0] == b[0] {
        let p = a.subrange(1, a.len() as int);
        let q = b.subrange(1, b.len() as int);
        law_texts_are_ordered_by_their_first_difference(p, q);
        if text_before(p, q) {
            let k = choose|k: int|
                #![trigger p.take(k)]
                0 <= k <= p.len() && k < q.len() && p.take(k) == q.take(k) && (k == p.len() || p[k]
                    < q[k]);
            assert forall|j: int| 0 <= j < k + 1 implies a[j] == b[j] by {
                if j > 0 {
                    assert(p.take(k)[j - 1] == q.take(k)[j - 1]);
                }
            }
            assert(a.take(k + 1) =~= b.take(k + 1));
        }
        if exists|k: int|
            #![trigger a.take(k)]
            0 <= k <= a.len() && k < b.len() && a.take(k) == b.take(k) && (k == a.len() || a[k]
                < b[k]) {
            let k = choose|k: int|
                #![trigger a.take(k)]
                0 <= k <= a.len() && k < b.len() && a.take(k) == b.take(k) && (k == a.len() || a[k]
                    < b[k]);
            assert(k > 0);
            assert forall|j: int| 0 <= j < k - 1 implies p[j] == q[j] by {
                assert(a.take(k)[j + 1] == b.take(k)[j + 1]);
            }
            assert(p.take(k - 1) =~= q.take(k - 1));
        }
    } else if b.len() > 0 {
        if a.len() == 0 || a[0] < b[0] {
            assert(a.take(0) =~= b.take(0));
        }
        if exists|k: int|
            #![trigger a.take(k)]
            0 <= k <= a.len() && k < b.len() && a.take(k) == b.take(k) && (k == a.len() || a[k]
                < b[k]) {
            let k = choose|k: int|
                #![trigger a.take(k)]
                0 <= k <= a.len() && k < b.len() && a.take(k) == b.take(k) && (k == a.len() || a[k]
                    < b[k]);
            if k > 0 {
                assert(a.take(k)[0] == b.take(k)[0]);
            }
        }
    }
}

/// Hooks run for the events they name, by rising priority, at one priority by server, and at one
/// server as they were found. A hook with a matcher runs only for a tool that it accepts.
pub proof fn law_hooks_run_by_priority_server_and_place(
    hooks: Seq<DiscoveredHook>,
    event_name: Seq<char>,
    accepted: Option<Seq<bool>>,
    places: Seq<usize>,
)
    requires
        is_dispatch_order(hooks, event_name, accepted, places),
    ensures
        forall|k: int, l: int|
            0 <= k < l < places.len() ==> {
                let a = hooks[#[trigger] places[k] as int];
                let b = hooks[#[trigger] places[l] as int];
                &&& a.spec.priority <= b.spec.priority
                &&& a.spec.priority == b.spec.priority ==> a.server@ == b.server@ || text_before(
                    a.server@,
                    b.server@,
                )
                &&& a.spec.priority == b.spec.priority && a.server@ == b.server@ ==> places[k]
                    < places[l]
            },
        forall|i: usize|
            #![trigger places.contains(i)]
            i < hooks.len() ==> (places.contains(i) <==> hooks[i as int].spec.event@ == event_name
                && (hooks[i as int].spec.matcher is None || (accepted matches Some(yes) && i
                < yes.len() && yes[i as int]))),
        forall|k: int| 0 <= k < places.len() ==> #[trigger] places[k] < hooks.len(),
{
    assert forall|i: usize| #![trigger places.contains(i)] i < hooks.len() implies (places.contains(
        i,
    ) <==> hooks[i as int].spec.event@ == event_name && (hooks[i as int].spec.matcher is None || (
    accepted matches Some(yes) && i < yes.len() && yes[i as int]))) by {
        assert(selects(hooks, event_name, accepted, i as int) <==> places.contains(i));
    }
}

/// Nothing is handed back only where every part is missing.
pub proof fn law_empty_result_has_no_part(result: HookResult)
    ensures
        result.is_empty() <==> result.additional_context is None && result.system_message is None
            && result.mutated_tool_input is None && result.mutated_tool_response is None
            && result.resume is None,
{
}

/// A chain collects what its hooks said, each text that is not empty once and in order, resumes
/// where any hook wants it, and keeps its input where no hook changed it.
#[verifier::spinoff_prover]
#[verifier::rlimit(40)]
pub proof fn law_chain_collects_what_hooks_said(
    chain: ChainView,
    mutates: bool,
    results: Seq<HookResult>,
)
    ensures
        after_replies(chain, mutates, results).contexts == chain.contexts + results.filter(
            |r: HookResult| r.additional_context matches Some(t) && t@.len() > 0,
        ).map_values(|r: HookResult| r.additional_context->0@),
        after_replies(chain, mutates, results).messages == chain.messages + results.filter(
            |r: HookResult| r.system_message matches Some(t) && t@.len() > 0,
        ).map_values(|r: HookResult| r.system_message->0@),
        after_replies(chain, mutates, results).resume <==> chain.resume || exists|i: int|
            0 <= i < results.len() && (#[trigger] results[i]).resume == Some(true),
        (forall|i: int| 0 <= i < results.len() ==> (#[trigger] results[i]).mutated_tool_input is None)
            ==> after_replies(chain, mutates, results).input == chain.input,
    decreases results.len(),
{
    reveal(Seq::filter);
    let p = |r: HookResult| r.additional_context matches Some(t) && t@.len() > 0;
    let f = |r: HookResult| r.additional_context->0@;
    let q = |r: HookResult| r.system_message matches Some(t) && t@.len() > 0;
    let g = |r: HookResult| r.system_message->0@;
    if results.len() == 0 {
        assert(chain.contexts =~= chain.contexts + results.filter(p).map_values(f));
        assert(chain.messages =~= chain.messages + results.filter(q).map_values(g));
    } else {
        let t = results.drop_last();
        let x = results.last();
        law_chain_collects_what_hooks_said(chain, mutates, t);
        assert(results[results.len() - 1] == x);
        assert forall|i: int| 0 <= i < t.len() implies #[trigger] t[i] == results[i] by {}
        let before = after_replies(chain, mutates, t);
        let after = after_replies(chain, mutates, results);
        if p(x) {
            assert(results.filter(p) =~= t.filter(p).push(x));
            assert(t.filter(p).push(x).map_values(f) =~= t.filter(p).map_values(f).push(f(x)));
            assert(after.contexts =~= chain.contexts + t.filter(p).map_values(f).push(f(x)));
        } else {
            assert(results.filter(p) =~= t.filter(p));
        }
        if q(x) {
            assert(results.filter(q) =~= t.filter(q).push(x));
            assert(t.filter(q).push(x).map_values(g) =~= t.filter(q).map_values(g).push(g(x)));
            assert(after.messages =~= chain.messages + t.filter(q).map_values(g).push(g(x)));
        } else {
            assert(results.filter(q) =~= t.filter(q));
        }
        if before.resume && !chain.resume {
            let k = choose|k: int| 0 <= k < t.len() && (#[trigger] t[k]).resume == Some(true);
            assert(results[k].resume == Some(true));
        }
        if exists|i: int| 0 <= i < results.len() && (#[trigger] results[i]).resume == Some(true) {
            let k = choose|k: int|
                0 <= k < results.len() && (#[trigger] results[k]).resume == Some(true);
            if k < t.len() {
                assert(t[k].resume == Some(true));
            }
        }
    }
}

/// A chain starts with nothing said, and a single reply adds what it says.
pub proof fn law_single_reply_adds_what_it_says(
    chain: ChainView,
    mutates: bool,
    result: HookResult,
)
    ensures
        continued(chain, mutates, result) == after_replies(chain, mutates, seq![result]),
        empty_chain().contexts.len() == 0,
        empty_chain().messages.len() == 0,
        !empty_chain().resume,
        empty_chain().input is None,
        mutates && result.mutated_tool_input is Some ==> continued(chain, mutates, result).input
            == result.mutated_tool_input,
{
    reveal_with_fuel(after_replies, 2);
    assert(seq![result].drop_last() =~= Seq::<HookResult>::empty());
}

/// A chain that no hook stopped answers with all that was said, one text a line, and with nothing
/// where nothing was said.
pub proof fn law_finished_chain_says_it_all(chain: ChainView, outcome: HookOutcome)
    requires
        is_chain_outcome(chain, outcome),
    ensures
        outcome.control is Continue,
        outcome.result.additional_context is None <==> chain.contexts.len() == 0,
        outcome.result.additional_context matches Some(t) ==> t@ == joined(chain.contexts, "\n"@),
        outcome.result.system_message is None <==> chain.messages.len() == 0,
        outcome.result.system_message matches Some(t) ==> t@ == joined(chain.messages, "\n"@),
        outcome.result.mutated_tool_input == chain.input,
        outcome.result.mutated_tool_response is None,
        chain.resume ==> outcome.result.resume == Some(true),
        !chain.resume ==> outcome.result.resume is None,
{
}

/// A chain ends where a hook blocks or asks, where one that fails closed cannot be reached, and
/// where a question cannot be written down.
pub proof fn law_chain_ends_where_a_hook_stops_it(policy: FailPolicy, outcome: HookOutcome)
    ensures
        ends_chain(policy, HookReply::Answered(outcome)) <==> outcome.control is Block
            || outcome.control is Ask,
        ends_chain(FailPolicy::Closed, HookReply::Unavailable),
        !ends_chain(FailPolicy::Open, HookReply::Unavailable),
        ends_chain(policy, HookReply::Unserializable),
{
}

/// What a hook hands back goes behind what waits already, the context before the message, each on
/// a line of its own. Texts that are missing or empty add no line.
pub proof fn law_pending_context_grows_line_by_line(
    waiting: Option<Seq<char>>,
    context: Option<String>,
    message: Option<String>,
)
    ensures
        ({
            let w = match waiting {
                Some(w) => w,
                None => Seq::empty(),
            };
            let c = match context {
                Some(c) => c@,
                None => Seq::empty(),
            };
            let m = match message {
                Some(m) => m@,
                None => Seq::empty(),
            };
            let line = seq!['\n'];
            let after = pending_after(waiting, context, message);
            &&& w.len() == 0 && c.len() == 0 && m.len() == 0 <==> after is None
            &&& w.len() > 0 && c.len() > 0 && m.len() > 0 ==> after == Some(
                w + line + c + line + m,
            )
            &&& w.len() > 0 && c.len() > 0 && m.len() == 0 ==> after == Some(w + line + c)
            &&& w.len() > 0 && c.len() == 0 && m.len() > 0 ==> after == Some(w + line + m)
            &&& w.len() > 0 && c.len() == 0 && m.len() == 0 ==> after == Some(w)
            &&& w.len() == 0 && c.len() > 0 && m.len() > 0 ==> after == Some(c + line + m)
            &&& w.len() == 0 && c.len() > 0 && m.len() == 0 ==> after == Some(c)
            &&& w.len() == 0 && c.len() == 0 && m.len() > 0 ==> after == Some(m)
        }),
{
    let w = match waiting {
        Some(w) => w,
        None => Seq::empty(),
    };
    let line = seq!['\n'];
    let first = with_line(w, context);
    assert(w.push('\n') =~= w + line);
    assert(first.push('\n') =~= first + line);
}

/// What matchers say is told as it is, and as nothing where no matcher was asked.
pub proof fn law_matches_are_told_as_they_are(accepted: &[bool])
    ensures
        opt_seq(Some(accepted)) == Some(accepted@),
        opt_seq(None) is None,
{
}

} // verus!
