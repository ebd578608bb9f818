//! Reading the log on while a turn runs, and repairing reports that live events lost.
use crate::events::{emit, event_view, events_view, AgentEvent, EventView, TurnEvent};
use crate::nats_event_sink::{last_durable_seq, last_seq};
use crate::session_log::{
    SessionLogEntry, SubAgentProgress, SubAgentProgressStatus, ToolOutput,
};
use crate::text::texts;
use vstd::prelude::*;
use vstd::string::*;

verus! {

/// Failed readings in a row after which the reader gives up.
pub const MAX_READ_FAILURES: usize = 3;

/// The log as far as it has been read. It moves on only after a reading that succeeded.
#[derive(Debug)]
pub struct CompletionPoller {
    session_id: String,
    entries: Vec<(u64, SessionLogEntry)>,
    failures: usize,
}

impl CompletionPoller {
    pub closed spec fn session(&self) -> Seq<char> {
        self.session_id@
    }

    pub closed spec fn entries(&self) -> Seq<(u64, SessionLogEntry)> {
        self.entries@
    }

    pub closed spec fn failures(&self) -> nat {
        self.failures as nat
    }

    pub fn new(session_id: String, entries: Vec<(u64, SessionLogEntry)>) -> (r: Self)
        ensures
            r.session() == session_id@,
            r.entries() == entries@,
            r.failures() == 0,
    {
        CompletionPoller { session_id, entries, failures: 0 }
    }

    /// What has been read.
    pub fn snapshot(&self) -> (r: &Vec<(u64, SessionLogEntry)>)
        ensures
            r@ == self.entries(),
    {
        &self.entries
    }

    /// Where the next reading starts: behind this sequence number.
    pub fn cursor(&self) -> (r: u64)
        ensures
            r == last_seq(self.entries()),
    {
        last_durable_seq(self.entries.as_slice())
    }

    /// A reading brought these entries.
    pub fn read(&mut self, entries: Vec<(u64, SessionLogEntry)>)
        ensures
            final(self).session() == old(self).session(),
            final(self).entries() == old(self).entries() + entries@,
            final(self).failures() == 0,
    {
        let mut newer = entries;
        self.entries.append(&mut newer);
        self.failures = 0;
    }

    /// A reading failed. What to tell of it, once too many have; the count then starts again.
    pub fn failed(&mut self) -> (r: Option<String>)
        requires
            old(self).failures() < MAX_READ_FAILURES,
        ensures
            final(self).session() == old(self).session(),
            final(self).entries() == old(self).entries(),
            r is Some <==> old(self).failures() + 1 == MAX_READ_FAILURES,
            final(self).failures() == if r is Some {
                0
            } else {
                old(self).failures() + 1
            },
            r matches Some(message) ==> message@ == "Cannot confirm completion of session '"@
                + old(self).session()
                + "': NATS session log remained unavailable after 3 attempts; execution may still be running. Inspect this session before retrying"@,
    {
        if self.failures + 1 < MAX_READ_FAILURES {
            self.failures = self.failures + 1;
            return None;
        }
        self.failures = 0;
        let mut message = String::from_str("Cannot confirm completion of session '");
        message.append(self.session_id.as_str());
        message.append(
            "': NATS session log remained unavailable after 3 attempts; execution may still be running. Inspect this session before retrying",
        );
        Some(message)
    }
}

/// The reports on sub-agents that have ended, in the results of a tool round.
pub open spec fn ended_reports(results: Seq<ToolOutput>) -> Seq<SubAgentProgress>
    decreases results.len(),
{
    if results.len() == 0 {
        Seq::empty()
    } else {
        let before = ended_reports(results.drop_last());
        match results.last().sub_agent_progress {
            Some(p) => if p.status != SubAgentProgressStatus::Running {
                before.push(p)
            } else {
                before
            },
            None => before,
        }
    }
}

/// The reports on sub-agents that have ended, in the entries above `after_seq`.
pub open spec fn reports_after(
    entries: Seq<(u64, SessionLogEntry)>,
    after_seq: u64,
) -> Seq<SubAgentProgress>
    decreases entries.len(),
{
    if entries.len() == 0 {
        Seq::empty()
    } else {
        let before = reports_after(entries.drop_last(), after_seq);
        match entries.last().1 {
            SessionLogEntry::ToolResults { results } => if entries.last().0 > after_seq {
                before + ended_reports(results@)
            } else {
                before
            },
            _ => before,
        }
    }
}

/// The invocations that reports speak of.
pub open spec fn invocations(reports: Seq<SubAgentProgress>) -> Seq<Seq<char>> {
    Seq::new(reports.len(), |i: int| reports[i].invocation_id@)
}

/// The reports on invocations that were not reported yet, each once.
pub open spec fn fresh_reports(
    seen: Seq<Seq<char>>,
    reports: Seq<SubAgentProgress>,
) -> Seq<SubAgentProgress>
    decreases reports.len(),
{
    if reports.len() == 0 {
        Seq::empty()
    } else {
        let before = fresh_reports(seen, reports.drop_last());
        let id = reports.last().invocation_id@;
        if seen.contains(id) || invocations(before).contains(id) {
            before
        } else {
            before.push(reports.last())
        }
    }
}

/// Reports as events.
pub open spec fn report_events(reports: Seq<SubAgentProgress>) -> Seq<EventView> {
    Seq::new(reports.len(), |i: int| EventView::SubAgentProgress(reports[i]))
}

fn contains_string(v: &Vec<String>, s: &String) -> (r: bool)
    ensures
        r == texts(v@).contains(s@),
{
    let mut i: usize = 0;
    while i < v.len()
        invariant
            i <= v@.len(),
            forall|k: int| 0 <= k < i ==> #[trigger] texts(v@)[k] != s@,
        decreases v@.len() - i,
    {
        if v[i] == *s {
            assert(texts(v@)[i as int] == s@);
            return true;
        }
        i += 1;
    }
    false
}

/// Reports one ended sub-agent, unless it was reported before.
fn report_once(
    progress: &SubAgentProgress,
    sink: &mut Vec<AgentEvent>,
    emitted: &mut Vec<String>,
    Ghost(seen): Ghost<Seq<Seq<char>>>,
    Ghost(done): Ghost<Seq<SubAgentProgress>>,
    Ghost(before): Ghost<Seq<EventView>>,
)
    requires
        texts(old(emitted)@) == seen + invocations(fresh_reports(seen, done)),
        events_view(old(sink)@) == before + report_events(fresh_reports(seen, done)),
    ensures
        texts(final(emitted)@) == seen + invocations(fresh_reports(seen, done.push(*progress))),
        events_view(final(sink)@) == before + report_events(
            fresh_reports(seen, done.push(*progress)),
        ),
{
    let ghost fresh = fresh_reports(seen, done);
    let ghost id = progress.invocation_id@;
    assert(done.push(*progress).drop_last() =~= done);
    assert(texts(emitted@).contains(id) == (seen.contains(id) || invocations(fresh).contains(id)))
        by {
        let all = seen + invocations(fresh);
        if all.contains(id) {
            let k = choose|k: int| 0 <= k < all.len() && all[k] == id;
            if k < seen.len() {
                assert(seen[k] == id);
            } else {
                assert(invocations(fresh)[k - seen.len()] == id);
            }
        }
        if seen.contains(id) {
            let k = choose|k: int| 0 <= k < seen.len() && seen[k] == id;
            assert(all[k] == id);
        }
        if invocations(fresh).contains(id) {
            let k = choose|k: int|
                0 <= k < invocations(fresh).len() && invocations(fresh)[k] == id;
            assert(all[seen.len() + k] == id);
        }
    }
    if !contains_string(emitted, &progress.invocation_id) {
        let ghost e0 = emitted@;
        emitted.push(progress.invocation_id.clone());
        emit(sink, AgentEvent::Turn(TurnEvent::SubAgentProgress(progress.copy())));
        assert(fresh_reports(seen, done.push(*progress)) == fresh.push(*progress));
        assert(texts(emitted@) =~= texts(e0).push(id));
        assert(invocations(fresh.push(*progress)) =~= invocations(fresh).push(id));
        assert(report_events(fresh.push(*progress)) =~= report_events(fresh).push(
            EventView::SubAgentProgress(*progress),
        ));
        assert(texts(emitted@) =~= seen + invocations(fresh.push(*progress)));
        assert(events_view(sink@) =~= before + report_events(fresh.push(*progress)));
    }
}

/// Reports the sub-agents that have ended since `after_seq` and were not reported yet. That a
/// child has ended says nothing of the turn of its parent.
pub fn reconcile_subagent_progress(
    entries: &[(u64, SessionLogEntry)],
    after_seq: u64,
    sink: &mut Vec<AgentEvent>,
    emitted: &mut Vec<String>,
)
    ensures
        ({
            let fresh = fresh_reports(texts(old(emitted)@), reports_after(entries@, after_seq));
            &&& events_view(final(sink)@) == events_view(old(sink)@) + report_events(fresh)
            &&& texts(final(emitted)@) == texts(old(emitted)@) + invocations(fresh)
        }),
{
    let ghost seen = texts(emitted@);
    let ghost before = events_view(sink@);
    let ghost mut done: Seq<SubAgentProgress> = Seq::empty();
    assert(seen + invocations(fresh_reports(seen, done)) =~= seen);
    assert(before + report_events(fresh_reports(seen, done)) =~= before);
    let mut i: usize = 0;
    while i < entries.len()
        invariant
            i <= entries@.len(),
            done == reports_after(entries@.take(i as int), after_seq),
            texts(emitted@) == seen + invocations(fresh_reports(seen, done)),
            events_view(sink@) == before + report_events(fresh_reports(seen, done)),
        decreases entries@.len() - i,
    {
        assert(entries@.take(i + 1).drop_last() =~= entries@.take(i as int));
        let ghost start = done;
        if entries[i].0 > after_seq {
            if let SessionLogEntry::ToolResults { results } = &entries[i].1 {
                let mut j: usize = 0;
                assert(start + ended_reports(results@.take(0)) =~= start);
                while j < results.len()
                    invariant
                        j <= results@.len(),
                        done == start + ended_reports(results@.take(j as int)),
                        texts(emitted@) == seen + invocations(fresh_reports(seen, done)),
                        events_view(sink@) == before + report_events(fresh_reports(seen, done)),
                    decreases results@.len() - j,
                {
                    assert(results@.take(j + 1).drop_last() =~= results@.take(j as int));
                    match &results[j].sub_agent_progress {
                        Some(progress) => {
                            let running: bool = match progress.status {
                                SubAgentProgressStatus::Running => true,
                                _ => false,
                            };
                            if !running {
                                report_once(
                                    progress,
                                    sink,
                                    emitted,
                                    Ghost(seen),
                                    Ghost(done),
                                    Ghost(before),
                                );
                                proof {
                                    let next = start + ended_reports(results@.take(j + 1));
                                    assert(done.push(*progress) =~= next);
                                    done = next;
                                }
                            }
                        },
                        None => {},
                    }
                    j += 1;
                }
                assert(results@.take(j as int) =~= results@);
            }
        }
        i += 1;
    }
    assert(entries@.take(i as int) =~= entries@);
}

/// No invocation is reported twice, however often the log is read.
pub proof fn law_reports_come_once(seen: Seq<Seq<char>>, reports: Seq<SubAgentProgress>)
    ensures
        fresh_reports(seen + invocations(fresh_reports(seen, reports)), reports)
            == Seq::<SubAgentProgress>::empty(),
{
    let all = seen + invocations(fresh_reports(seen, reports));
    every_report_is_covered(seen, reports);
    nothing_left(all, reports);
}

proof fn every_report_is_covered(seen: Seq<Seq<char>>, reports: Seq<SubAgentProgress>)
    ensures
        forall|i: int|
            0 <= i < reports.len() ==> (seen + invocations(fresh_reports(seen, reports))).contains(
                (#[trigger] reports[i]).invocation_id@,
            ),
    decreases reports.len(),
{
    if reports.len() > 0 {
        let t = reports.drop_last();
        every_report_is_covered(seen, t);
        let f = fresh_reports(seen, reports);
        let g = fresh_reports(seen, t);
        let all = seen + invocations(f);
        let old_all = seen + invocations(g);
        assert forall|i: int| 0 <= i < reports.len() implies all.contains(
            (#[trigger] reports[i]).invocation_id@,
        ) by {
            let id = reports[i].invocation_id@;
            if i < t.len() {
                assert(t[i] == reports[i]);
                assert(old_all.contains(id));
                let k = choose|k: int| 0 <= k < old_all.len() && old_all[k] == id;
                assert(all[k] == id) by {
                    if k >= seen.len() {
                        assert(invocations(g)[k - seen.len()] == invocations(f)[k - seen.len()]);
                    }
                }
            } else {
                if seen.contains(id) {
                    let k = choose|k: int| 0 <= k < seen.len() && seen[k] == id;
                    assert(all[k] == id);
                } else if invocations(g).contains(id) {
                    let k = choose|k: int| 0 <= k < invocations(g).len() && invocations(g)[k] == id;
                    assert(all[seen.len() + k] == id);
                } else {
                    assert(f == g.push(reports.last()));
                    assert(invocations(f)[g.len() as int] == id);
                    assert(all[seen.len() + g.len() as int] == id);
                }
            }
        }
    }
}

proof fn nothing_left(seen: Seq<Seq<char>>, reports: Seq<SubAgentProgress>)
    requires
        forall|i: int|
            0 <= i < reports.len() ==> seen.contains((#[trigger] reports[i]).invocation_id@),
    ensures
        fresh_reports(seen, reports) == Seq::<SubAgentProgress>::empty(),
    decreases reports.len(),
{
    if reports.len() > 0 {
        let t = reports.drop_last();
        assert forall|i: int| 0 <= i < t.len() implies seen.contains(
            (#[trigger] t[i]).invocation_id@,
        ) by {
            assert(t[i] == reports[i]);
        }
        nothing_left(seen, t);
        assert(seen.contains(reports[reports.len() - 1].invocation_id@));
    }
}

/// The reports of a tool round are those on sub-agents that no longer run, in order.
pub proof fn law_ended_reports_are_those_not_running(results: Seq<ToolOutput>)
    ensures
        ended_reports(results) == results.filter(
            |r: ToolOutput| r.sub_agent_progress matches Some(p) && !(p.status is Running),
        ).map_values(|r: ToolOutput| r.sub_agent_progress->0),
    decreases results.len(),
{
    reveal(Seq::filter);
    let p = |r: ToolOutput| r.sub_agent_progress matches Some(p) && !(p.status is Running);
    let f = |r: ToolOutput| r.sub_agent_progress->0;
    if results.len() > 0 {
        let t = results.drop_last();
        let x = results.last();
        law_ended_reports_are_those_not_running(t);
        if p(x) {
            assert(results.filter(p) =~= t.filter(p).push(x));
            assert(t.filter(p).push(x).map_values(f) =~= t.filter(p).map_values(f).push(f(x)));
        } else {
            assert(results.filter(p) =~= t.filter(p));
        }
    } else {
        assert(results.filter(p).map_values(f) =~= Seq::<SubAgentProgress>::empty());
    }
}

/// Results above a place add their reports behind those before them; entries at or below it, and
/// entries of another kind, add none.
pub proof fn law_reports_follow_the_log(
    entries: Seq<(u64, SessionLogEntry)>,
    row: (u64, SessionLogEntry),
    after_seq: u64,
)
    ensures
        row.1 matches SessionLogEntry::ToolResults { results } ==> row.0 > after_seq
            ==> reports_after(entries.push(row), after_seq) == reports_after(entries, after_seq)
            + ended_reports(results@),
        row.0 <= after_seq || !(row.1 is ToolResults) ==> reports_after(entries.push(row), after_seq)
            == reports_after(entries, after_seq),
        reports_after(Seq::<(u64, SessionLogEntry)>::empty(), after_seq).len() == 0,
{
    assert(entries.push(row).drop_last() =~= entries);
}

/// A report goes out exactly where it is the first on an invocation that was not reported before,
/// as it is.
pub proof fn law_first_report_on_an_invocation_goes_out(
    seen: Seq<Seq<char>>,
    reports: Seq<SubAgentProgress>,
    next: SubAgentProgress,
)
    ensures
        seen.contains(next.invocation_id@) || (exists|i: int|
            0 <= i < reports.len() && (#[trigger] reports[i]).invocation_id@ == next.invocation_id@)
            ==> fresh_reports(seen, reports.push(next)) == fresh_reports(seen, reports),
        !seen.contains(next.invocation_id@) && (forall|i: int|
            0 <= i < reports.len() ==> (#[trigger] reports[i]).invocation_id@
                != next.invocation_id@) ==> fresh_reports(seen, reports.push(next))
            == fresh_reports(seen, reports).push(next),
        fresh_reports(seen, Seq::empty()).len() == 0,
{
    let id = next.invocation_id@;
    let more = reports.push(next);
    let fresh = fresh_reports(seen, reports);
    assert(more.drop_last() =~= reports);
    every_report_is_covered(seen, reports);
    fresh_are_reports(seen, reports);
    if exists|i: int| 0 <= i < reports.len() && (#[trigger] reports[i]).invocation_id@ == id {
        let i = choose|i: int| 0 <= i < reports.len() && (#[trigger] reports[i]).invocation_id@ == id;
        let all = seen + invocations(fresh);
        assert(all.contains(reports[i].invocation_id@));
        let k = choose|k: int| 0 <= k < all.len() && all[k] == id;
        if k < seen.len() {
            assert(seen[k] == id);
        } else {
            assert(invocations(fresh)[k - seen.len()] == id);
        }
    }
    if invocations(fresh).contains(id) {
        let k = choose|k: int| 0 <= k < invocations(fresh).len() && invocations(fresh)[k] == id;
        assert(fresh[k].invocation_id@ == id);
        assert(reports.contains(fresh[k]));
    }
}

proof fn fresh_are_reports(seen: Seq<Seq<char>>, reports: Seq<SubAgentProgress>)
    ensures
        forall|k: int|
            0 <= k < fresh_reports(seen, reports).len() ==> reports.contains(
                #[trigger] fresh_reports(seen, reports)[k],
            ),
    decreases reports.len(),
{
    if reports.len() > 0 {
        let t = reports.drop_last();
        fresh_are_reports(seen, t);
        let f = fresh_reports(seen, reports);
        let g = fresh_reports(seen, t);
        assert forall|k: int| 0 <= k < f.len() implies reports.contains(#[trigger] f[k]) by {
            if k < g.len() {
                assert(f[k] == g[k]);
                assert(t.contains(g[k]));
                let i = choose|i: int| 0 <= i < t.len() && t[i] == g[k];
                assert(reports[i] == f[k]);
            } else {
                assert(reports[reports.len() - 1] == f[k]);
            }
        }
    }
}

/// Reports are told one for one, under the invocation that each speaks of.
pub proof fn law_reports_are_told_as_they_are(reports: Seq<SubAgentProgress>)
    ensures
        report_events(reports).len() == reports.len(),
        invocations(reports).len() == reports.len(),
        forall|i: int|
            0 <= i < reports.len() ==> #[trigger] report_events(reports)[i]
                == EventView::SubAgentProgress(reports[i]),
        forall|i: int|
            0 <= i < reports.len() ==> #[trigger] invocations(reports)[i]
                == reports[i].invocation_id@,
{
}

} // verus!
