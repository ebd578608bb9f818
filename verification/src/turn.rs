//! One turn as a client follows it: reloads of the log and advisories come in, events and in the
//! end a result go out. The caller publishes, reads and waits.
use crate::completion::{
    completion_visible, extract_turn_outcome, final_response, is_turn_completion_visible,
    turn_error,
};
use crate::events::{events_view, AgentEvent, EventView, ModelEvent, TurnEvent};
use crate::mutations::{apply_log_mutations, effective, mutations_readable};
use crate::nats_client_session::{is_turn_complete, turn_complete};
use crate::nats_event_sink::{should_render, AdvisoryEnvelope, Attachment, LiveEventState};
use crate::replay::{
    admitted, emit_all_logical_seqs_for_window, flush_pending_advisories, flushed, fresh_numbers,
    numbered_window, numbers_due, render_error_entry, stamps, AdvisoryFlush, Numbering,
};
use crate::session_log::{rows_view, Row, SessionLogEntry};
use crate::text::opt_text;
use std::collections::{HashSet, VecDeque};
use vstd::prelude::*;

verus! {

broadcast use vstd::std_specs::hash::group_hash_axioms;

/// What a turn came to.
#[derive(Debug)]
pub struct NatsTurnResult {
    /// The answer, if there is one.
    pub response: Option<String>,
    pub session_id: String,
    pub was_cancelled: bool,
    /// The failure that ended the turn.
    pub error: Option<String>,
    /// The sequence number of the prompt.
    pub user_msg_seq: u64,
    /// The identifier of the prompt.
    pub user_msg_id: String,
}

/// The state of a turn.
#[derive(Debug)]
pub struct TurnDriver {
    numbering: Numbering,
    session_id: String,
    user_msg_seq: u64,
    user_msg_id: String,
    response: Option<String>,
    error: Option<String>,
    complete: bool,
    was_cancelled: bool,
    cached: Option<Vec<(u64, SessionLogEntry)>>,
    unreadable: Option<Vec<(u64, SessionLogEntry)>>,
    pending: VecDeque<AdvisoryEnvelope>,
    emitted: HashSet<usize>,
    saw_model_error: bool,
    saw_turn_ended: bool,
    live: LiveEventState,
    reader: Attachment,
    last_durable_seq: u64,
}

/// What the state of a turn says.
pub struct TurnView {
    pub numbering: Numbering,
    pub session_id: Seq<char>,
    pub user_msg_seq: u64,
    pub user_msg_id: Seq<char>,
    pub response: Option<Seq<char>>,
    pub error: Option<Seq<char>>,
    /// Whether the log has shown the end of the turn.
    pub complete: bool,
    pub was_cancelled: bool,
    /// The last log whose edits could be read.
    pub cached: Option<Seq<(u64, SessionLogEntry)>>,
    /// The last log.
    pub latest: Option<Seq<(u64, SessionLogEntry)>>,
    /// The advisories that wait to be rendered.
    pub pending: Seq<AdvisoryEnvelope>,
    /// The numbers that have been given.
    pub emitted: Set<usize>,
    pub saw_model_error: bool,
    pub saw_turn_ended: bool,
    pub live: LiveEventState,
    pub reader: Attachment,
    pub last_durable_seq: u64,
}

/// Whether a log shows that the turn is over.
pub open spec fn shows_end(v: TurnView, log: Seq<(u64, SessionLogEntry)>) -> bool {
    match v.numbering {
        Numbering::Transcript => completion_visible(log, v.user_msg_seq, v.saw_turn_ended),
        Numbering::Headed => turn_complete(log, v.user_msg_seq),
    }
}

/// The window of a log whose edits can be read.
pub open spec fn shown_window(v: TurnView, log: Seq<(u64, SessionLogEntry)>) -> Seq<
    (u64, SessionLogEntry),
> {
    numbered_window(v.numbering, effective(log))
}

/// The advisories that are still to be rendered.
pub open spec fn queue_of(v: TurnView) -> Seq<AdvisoryEnvelope> {
    admitted(v.pending, v.live, v.reader, v.last_durable_seq)
}

/// The events after the rows of a log got their numbers.
pub open spec fn numbering_events(v: TurnView, log: Seq<(u64, SessionLogEntry)>) -> Seq<EventView> {
    fresh_numbers(v.emitted, numbers_due(v.numbering, effective(log)))
}

/// The state after the rows of a log got their numbers.
pub open spec fn numbered(v: TurnView, log: Seq<(u64, SessionLogEntry)>) -> TurnView {
    TurnView {
        cached: Some(log),
        emitted: v.emitted.union(numbers_due(v.numbering, effective(log)).to_set()),
        ..v
    }
}

/// The events of a flush in the middle of a turn.
pub open spec fn live_flush_events(v: TurnView) -> Seq<EventView> {
    match v.cached {
        Some(log) => flushed(Some(shown_window(v, log)), v.emitted, queue_of(v)),
        None => Seq::empty(),
    }
}

/// The state after a flush in the middle of a turn.
pub open spec fn live_flushed(v: TurnView) -> TurnView {
    match v.cached {
        Some(log) => TurnView {
            pending: Seq::empty(),
            emitted: v.emitted.union(stamps(Some(shown_window(v, log)), queue_of(v))),
            ..v
        },
        None => TurnView { pending: queue_of(v), ..v },
    }
}

/// The events of the last flush of a turn.
pub open spec fn final_flush_events(v: TurnView) -> Seq<EventView> {
    match v.cached {
        Some(log) => flushed(Some(shown_window(v, log)), v.emitted, queue_of(v)),
        None => flushed(None, v.emitted, queue_of(v)),
    }
}

/// The state with the outcome that a log shows.
pub open spec fn with_outcome(v: TurnView, log: Seq<(u64, SessionLogEntry)>) -> TurnView {
    TurnView {
        response: final_response(log, v.user_msg_seq),
        error: turn_error(log, v.user_msg_seq),
        ..v
    }
}

/// The state after a reload of the log.
pub open spec fn reloaded(v: TurnView, log: Seq<(u64, SessionLogEntry)>) -> TurnView {
    let w = TurnView { latest: Some(log), ..v };
    let shown = if mutations_readable(log) {
        live_flushed(numbered(w, log))
    } else {
        w
    };
    if shows_end(v, log) {
        TurnView { complete: true, ..with_outcome(shown, log) }
    } else {
        shown
    }
}

/// The events of a reload of the log.
pub open spec fn reload_events(v: TurnView, log: Seq<(u64, SessionLogEntry)>) -> Seq<EventView> {
    let w = TurnView { latest: Some(log), ..v };
    if mutations_readable(log) {
        numbering_events(w, log) + live_flush_events(numbered(w, log))
    } else {
        Seq::empty()
    }
}

/// The state after an advisory came in.
pub open spec fn advised(v: TurnView, e: AdvisoryEnvelope) -> TurnView {
    if e.after_seq >= v.last_durable_seq {
        live_flushed(
            TurnView {
                saw_model_error: v.saw_model_error || (e.event matches AgentEvent::Model(m)
                    && m is Error),
                saw_turn_ended: v.saw_turn_ended || (e.event matches AgentEvent::Turn(t)
                    && t is Ended),
                pending: v.pending.push(e),
                ..v
            },
        )
    } else {
        v
    }
}

/// The events of an advisory that came in.
pub open spec fn advised_events(v: TurnView, e: AdvisoryEnvelope) -> Seq<EventView> {
    if e.after_seq >= v.last_durable_seq {
        live_flush_events(TurnView { pending: v.pending.push(e), ..v })
    } else {
        Seq::empty()
    }
}

/// The state after the worker was found to be gone.
pub open spec fn orphaned(v: TurnView, reason: Seq<char>) -> TurnView {
    let w = match v.numbering {
        Numbering::Transcript => match v.latest {
            Some(log) => with_outcome(v, log),
            None => v,
        },
        Numbering::Headed => v,
    };
    match v.numbering {
        Numbering::Transcript => if w.response is Some {
            TurnView { complete: true, ..w }
        } else {
            TurnView { complete: true, error: Some(reason), ..w }
        },
        Numbering::Headed => TurnView { complete: true, error: Some(reason), ..w },
    }
}

/// What the caller read when the loop was over.
#[derive(Debug)]
pub enum FinalReload {
    /// The log, read once more.
    Loaded(Vec<(u64, SessionLogEntry)>),
    /// The log could not be read, for this reason.
    Failed(String),
}

/// The state after the last reload.
pub open spec fn settled(v: TurnView, reload: Option<FinalReload>) -> TurnView {
    match reload {
        Some(FinalReload::Loaded(log)) => {
            let w = TurnView { latest: Some(log@), ..with_outcome(v, log@) };
            if mutations_readable(log@) {
                numbered(w, log@)
            } else {
                w
            }
        },
        _ => v,
    }
}

/// The events of the last reload.
pub open spec fn settling_events(v: TurnView, reload: Option<FinalReload>) -> Seq<EventView> {
    match reload {
        Some(FinalReload::Loaded(log)) => if mutations_readable(log@) {
            numbering_events(v, log@)
        } else {
            Seq::empty()
        },
        _ => Seq::empty(),
    }
}

/// Whether the failure of a turn is shown at its end. A worker that writes ends of turns has
/// then shown the failure of its model already.
pub open spec fn shows_error(v: TurnView) -> bool {
    v.error is Some && !(v.numbering == Numbering::Transcript && v.saw_model_error)
}

/// The events at the end of a turn.
pub open spec fn finish_events(v: TurnView, reload: Option<FinalReload>) -> Seq<EventView> {
    let w = settled(v, reload);
    let shown = settling_events(v, reload) + final_flush_events(w);
    if !(reload matches Some(FinalReload::Failed(_))) && shows_error(w) {
        shown.push(EventView::Error(w.error->0))
    } else {
        shown
    }
}

impl TurnDriver {
    pub closed spec fn view(&self) -> TurnView {
        TurnView {
            numbering: self.numbering,
            session_id: self.session_id@,
            user_msg_seq: self.user_msg_seq,
            user_msg_id: self.user_msg_id@,
            response: opt_text(self.response),
            error: opt_text(self.error),
            complete: self.complete,
            was_cancelled: self.was_cancelled,
            cached: match self.cached {
                Some(log) => Some(log@),
                None => None,
            },
            latest: match self.unreadable {
                Some(log) => Some(log@),
                None => match self.cached {
                    Some(log) => Some(log@),
                    None => None,
                },
            },
            pending: self.pending@,
            emitted: self.emitted@,
            saw_model_error: self.saw_model_error,
            saw_turn_ended: self.saw_turn_ended,
            live: self.live,
            reader: self.reader,
            last_durable_seq: self.last_durable_seq,
        }
    }

    /// The cached log is one whose edits can be read.
    pub closed spec fn well_formed(&self) -> bool {
        self.cached matches Some(log) ==> mutations_readable(log@)
    }

    /// A turn whose prompt has been appended and activated. `last_durable_seq` is where the
    /// client attached to the log.
    pub fn new(
        numbering: Numbering,
        session_id: String,
        user_msg_seq: u64,
        user_msg_id: String,
        last_durable_seq: u64,
    ) -> (r: Self)
        ensures
            r.well_formed(),
            r@.numbering == numbering,
            r@.session_id == session_id@,
            r@.user_msg_seq == user_msg_seq,
            r@.user_msg_id == user_msg_id@,
            r@.last_durable_seq == last_durable_seq,
            r@.response is None,
            r@.error is None,
            !r@.complete,
            !r@.was_cancelled,
            r@.cached is None,
            r@.latest is None,
            r@.pending == Seq::<AdvisoryEnvelope>::empty(),
            r@.emitted == Set::<usize>::empty(),
            !r@.saw_model_error,
            !r@.saw_turn_ended,
            r@.live.fence() == 0,
            r@.live.readers() == seq![false],
            r@.reader.place() == 0,
    {
        let (live, reader) = LiveEventState::new();
        TurnDriver {
            numbering,
            session_id,
            user_msg_seq,
            user_msg_id,
            response: None,
            error: None,
            complete: false,
            was_cancelled: false,
            cached: None,
            unreadable: None,
            pending: VecDeque::new(),
            emitted: HashSet::new(),
            saw_model_error: false,
            saw_turn_ended: false,
            live,
            reader,
            last_durable_seq,
        }
    }

    /// Whether the log has shown the end of the turn.
    pub fn is_complete(&self) -> (r: bool)
        ensures
            r == self@.complete,
    {
        self.complete
    }

    /// The user gave the turn up. The caller publishes the cancellation and stops following.
    pub fn cancel(&mut self)
        requires
            old(self).well_formed(),
        ensures
            final(self).well_formed(),
            final(self)@ == (TurnView { was_cancelled: true, ..old(self)@ }),
    {
        self.was_cancelled = true;
    }

    /// An interrupt was accepted at `cancel_seq`: older advisories no longer count.
    pub fn accept_interrupt(&mut self, cancel_seq: u64)
        requires
            old(self).well_formed(),
        ensures
            final(self).well_formed(),
            final(self)@ == (TurnView { live: final(self)@.live, ..old(self)@ }),
            final(self)@.live.readers() == old(self)@.live.readers(),
            final(self)@.live.fence() == if cancel_seq > old(self)@.live.fence() {
                cancel_seq
            } else {
                old(self)@.live.fence()
            },
    {
        self.live.accept_interrupt(cancel_seq);
    }

    /// Renders the queue, as far as the log can be read.
    fn flush(&mut self, mode: AdvisoryFlush, sink: &mut Vec<AgentEvent>)
        requires
            old(self).well_formed(),
        ensures
            final(self).well_formed(),
            mode == AdvisoryFlush::Live ==> {
                &&& final(self)@ == live_flushed(old(self)@)
                &&& events_view(final(sink)@) == events_view(old(sink)@) + live_flush_events(
                    old(self)@,
                )
            },
            mode == AdvisoryFlush::Final ==> {
                &&& events_view(final(sink)@) == events_view(old(sink)@) + final_flush_events(
                    old(self)@,
                )
                &&& final(self)@ == (TurnView {
                    pending: Seq::empty(),
                    emitted: final(self)@.emitted,
                    ..old(self)@
                })
            },
    {
        let ghost before = self@;
        let ghost shown = events_view(sink@);
        match &self.cached {
            Some(log) => match apply_log_mutations(log.as_slice()) {
                Ok(rows) => {
                    flush_pending_advisories(
                        self.numbering,
                        &mut self.pending,
                        Some(rows.as_slice()),
                        sink,
                        &mut self.emitted,
                        mode,
                        &self.live,
                        self.reader,
                        self.last_durable_seq,
                    );
                },
                Err(_) => {},
            },
            None => {
                flush_pending_advisories(
                    self.numbering,
                    &mut self.pending,
                    None,
                    sink,
                    &mut self.emitted,
                    mode,
                    &self.live,
                    self.reader,
                    self.last_durable_seq,
                );
                assert(shown + live_flush_events(before) =~= shown);
            },
        }
    }

    /// The log was read again. Whether it shows that the turn is over.
    pub fn reload(&mut self, entries: Vec<(u64, SessionLogEntry)>, sink: &mut Vec<AgentEvent>) -> (r:
        bool)
        requires
            old(self).well_formed(),
        ensures
            final(self).well_formed(),
            final(self)@ == reloaded(old(self)@, entries@),
            events_view(final(sink)@) == events_view(old(sink)@) + reload_events(
                old(self)@,
                entries@,
            ),
            r == shows_end(old(self)@, entries@),
    {
        let ghost v = self@;
        let ghost w = TurnView { latest: Some(entries@), ..v };
        let ghost shown = events_view(sink@);
        let ended: bool;
        let outcome: (Option<String>, Option<String>);
        let readable: bool;
        match apply_log_mutations(entries.as_slice()) {
            Ok(rows) => {
                ended = match self.numbering {
                    Numbering::Transcript => is_turn_completion_visible(
                        entries.as_slice(),
                        Some(rows.as_slice()),
                        self.user_msg_seq,
                        self.saw_turn_ended,
                    ),
                    Numbering::Headed => is_turn_complete(entries.as_slice(), self.user_msg_seq),
                };
                outcome = extract_turn_outcome(entries.as_slice(), self.user_msg_seq);
                readable = true;
                emit_all_logical_seqs_for_window(
                    self.numbering,
                    Some(rows.as_slice()),
                    sink,
                    &mut self.emitted,
                );
            },
            Err(_) => {
                ended = match self.numbering {
                    Numbering::Transcript => is_turn_completion_visible(
                        entries.as_slice(),
                        None,
                        self.user_msg_seq,
                        self.saw_turn_ended,
                    ),
                    Numbering::Headed => is_turn_complete(entries.as_slice(), self.user_msg_seq),
                };
                outcome = extract_turn_outcome(entries.as_slice(), self.user_msg_seq);
                readable = false;
            },
        }
        if readable {
            self.cached = Some(entries);
            self.unreadable = None;
            assert(self@ == numbered(w, entries@));
            self.flush(AdvisoryFlush::Live, sink);
            assert(events_view(sink@) =~= shown + reload_events(v, entries@));
        } else {
            self.unreadable = Some(entries);
            assert(self@ == w);
            assert(events_view(sink@) =~= shown + reload_events(v, entries@));
        }
        if ended {
            self.response = outcome.0;
            self.error = outcome.1;
            self.complete = true;
        }
        ended
    }

    /// The worker was found to be gone. A worker that writes no ends of turns gives its lease
    /// back once the answer is in the log: then the turn succeeded.
    pub fn orphan(&mut self, reason: String)
        requires
            old(self).well_formed(),
        ensures
            final(self).well_formed(),
            final(self)@ == orphaned(old(self)@, reason@),
    {
        match self.numbering {
            Numbering::Transcript => {
                let outcome: Option<(Option<String>, Option<String>)> = match &self.unreadable {
                    Some(log) => Some(extract_turn_outcome(log.as_slice(), self.user_msg_seq)),
                    None => match &self.cached {
                        Some(log) => Some(extract_turn_outcome(log.as_slice(), self.user_msg_seq)),
                        None => None,
                    },
                };
                match outcome {
                    Some((response, error)) => {
                        self.response = response;
                        self.error = error;
                    },
                    None => {},
                }
                if self.response.is_none() {
                    self.error = Some(reason);
                }
            },
            Numbering::Headed => {
                self.error = Some(reason);
            },
        }
        self.complete = true;
    }

    /// An advisory came in.
    pub fn advise(&mut self, envelope: AdvisoryEnvelope, sink: &mut Vec<AgentEvent>)
        requires
            old(self).well_formed(),
        ensures
            final(self).well_formed(),
            final(self)@ == advised(old(self)@, envelope),
            events_view(final(sink)@) == events_view(old(sink)@) + advised_events(
                old(self)@,
                envelope,
            ),
    {
        let ghost v = self@;
        let ghost shown = events_view(sink@);
        if !should_render(envelope.after_seq, self.last_durable_seq) {
            assert(shown + advised_events(v, envelope) =~= shown);
            return;
        }
        match &envelope.event {
            AgentEvent::Model(ModelEvent::Error(_)) => {
                self.saw_model_error = true;
            },
            AgentEvent::Turn(TurnEvent::Ended) => {
                self.saw_turn_ended = true;
            },
            _ => {},
        }
        self.pending.push_back(envelope);
        let ghost w = self@;
        self.flush(AdvisoryFlush::Live, sink);
        assert(queue_of(w) == queue_of(TurnView { pending: v.pending.push(envelope), ..v }));
        assert(live_flush_events(w) == live_flush_events(
            TurnView { pending: v.pending.push(envelope), ..v },
        ));
    }

    /// The turn is over. Unless the log has shown its end the caller has read the log once more.
    /// What was received is rendered whatever came of that, then the outcome is reported.
    pub fn finish(
        self,
        reload: Option<FinalReload>,
        aborted: bool,
        sink: &mut Vec<AgentEvent>,
    ) -> (r: Result<NatsTurnResult, String>)
        requires
            self.well_formed(),
            self@.complete <==> reload is None,
        ensures
            events_view(final(sink)@) == events_view(old(sink)@) + finish_events(self@, reload),
            match r {
                Err(message) => reload matches Some(FinalReload::Failed(text)) && text == message,
                Ok(result) => {
                    let w = settled(self@, reload);
                    &&& !(reload matches Some(FinalReload::Failed(_)))
                    &&& opt_text(result.response) == w.response
                    &&& opt_text(result.error) == w.error
                    &&& result.session_id@ == w.session_id
                    &&& result.was_cancelled == (w.was_cancelled || aborted)
                    &&& result.user_msg_seq == w.user_msg_seq
                    &&& result.user_msg_id@ == w.user_msg_id
                },
            },
    {
        let ghost v = self@;
        let ghost shown = events_view(sink@);
        let mut driver = self;
        let mut failure: Option<String> = None;
        match reload {
            Some(FinalReload::Loaded(entries)) => {
                let outcome = extract_turn_outcome(entries.as_slice(), driver.user_msg_seq);
                driver.response = outcome.0;
                driver.error = outcome.1;
                let readable: bool = match apply_log_mutations(entries.as_slice()) {
                    Ok(rows) => {
                        emit_all_logical_seqs_for_window(
                            driver.numbering,
                            Some(rows.as_slice()),
                            sink,
                            &mut driver.emitted,
                        );
                        true
                    },
                    Err(_) => false,
                };
                if readable {
                    driver.cached = Some(entries);
                    driver.unreadable = None;
                } else {
                    driver.unreadable = Some(entries);
                }
            },
            Some(FinalReload::Failed(text)) => {
                failure = Some(text);
            },
            None => {},
        }
        let ghost w = settled(v, reload);
        assert(driver@ == w);
        assert(events_view(sink@) =~= shown + settling_events(v, reload));
        driver.flush(AdvisoryFlush::Final, sink);
        assert(events_view(sink@) =~= shown + (settling_events(v, reload) + final_flush_events(w)));
        match failure {
            Some(text) => {
                return Err(text);
            },
            None => {},
        }
        let muted: bool = match driver.numbering {
            Numbering::Transcript => driver.saw_model_error,
            Numbering::Headed => false,
        };
        if !muted {
            match &driver.error {
                Some(error) => {
                    render_error_entry(error, sink);
                },
                None => {},
            }
        }
        assert(events_view(sink@) =~= shown + finish_events(v, reload));
        Ok(
            NatsTurnResult {
                response: driver.response,
                session_id: driver.session_id,
                was_cancelled: driver.was_cancelled || aborted,
                error: driver.error,
                user_msg_seq: driver.user_msg_seq,
                user_msg_id: driver.user_msg_id,
            },
        )
    }
}

/// Where the log cannot be read at the end of a turn, what was received is shown all the same.
pub proof fn law_failed_reload_keeps_advisories(v: TurnView, reason: String)
    ensures
        finish_events(v, Some(FinalReload::Failed(reason))) == final_flush_events(v),
{
    assert(finish_events(v, Some(FinalReload::Failed(reason))) =~= final_flush_events(v));
}

/// A failure that the model has announced is not shown a second time at the end of a turn.
pub proof fn law_model_error_is_shown_once(v: TurnView, reload: Option<FinalReload>)
    requires
        v.numbering == Numbering::Transcript,
        v.saw_model_error,
    ensures
        finish_events(v, reload) == settling_events(v, reload) + final_flush_events(
            settled(v, reload),
        ),
{
}

/// A turn whose end the log has shown comes to what that log says, whatever came in since: the
/// answer and the failure are those behind the prompt.
pub proof fn law_completed_turn_reports_its_log(
    v: TurnView,
    log: Seq<(u64, SessionLogEntry)>,
    late: AdvisoryEnvelope,
)
    requires
        shows_end(v, log),
    ensures
        ({
            let w = settled(advised(reloaded(v, log), late), None);
            &&& w.complete
            &&& w.response == final_response(log, v.user_msg_seq)
            &&& w.error == turn_error(log, v.user_msg_seq)
        }),
{
}

/// An answer that stands in the log outlives its worker: the turn succeeds with it.
pub proof fn law_answer_outlives_its_worker(
    v: TurnView,
    log: Seq<(u64, SessionLogEntry)>,
    reason: Seq<char>,
)
    requires
        v.numbering == Numbering::Transcript,
        v.latest == Some(log),
        final_response(log, v.user_msg_seq) is Some,
    ensures
        orphaned(v, reason).complete,
        orphaned(v, reason).response == final_response(log, v.user_msg_seq),
        orphaned(v, reason).error == turn_error(log, v.user_msg_seq),
{
}

/// Where the log is a transcript, the end of a turn is seen in it or announced; else it is seen by
/// what follows the prompt.
pub proof fn law_end_of_turn_is_read_as_the_log_is_numbered(
    v: TurnView,
    log: Seq<(u64, SessionLogEntry)>,
)
    ensures
        v.numbering is Transcript ==> shows_end(v, log) == completion_visible(
            log,
            v.user_msg_seq,
            v.saw_turn_ended,
        ),
        v.numbering is Headed ==> shows_end(v, log) == turn_complete(log, v.user_msg_seq),
{
}

/// A reload completes a turn exactly where the log shows its end, and takes the outcome from that
/// log alone. It leaves who asked and what was announced as it was.
pub proof fn law_reload_takes_the_outcome_with_the_end(
    v: TurnView,
    log: Seq<(u64, SessionLogEntry)>,
)
    ensures
        ({
            let w = reloaded(v, log);
            &&& shows_end(v, log) ==> w.complete && w.response == final_response(
                log,
                v.user_msg_seq,
            ) && w.error == turn_error(log, v.user_msg_seq)
            &&& !shows_end(v, log) ==> w.complete == v.complete && w.response == v.response
                && w.error == v.error
            &&& w.latest == Some(log)
            &&& mutations_readable(log) ==> w.cached == Some(log) && w.pending.len() == 0
            &&& !mutations_readable(log) ==> w.cached == v.cached && w.pending == v.pending
                && w.emitted == v.emitted
            &&& w.numbering == v.numbering && w.session_id == v.session_id && w.user_msg_seq
                == v.user_msg_seq && w.user_msg_id == v.user_msg_id
            &&& w.was_cancelled == v.was_cancelled && w.saw_model_error == v.saw_model_error
                && w.saw_turn_ended == v.saw_turn_ended
            &&& w.live == v.live && w.reader == v.reader && w.last_durable_seq
                == v.last_durable_seq
        }),
{
}

/// A reload shows the numbers that are due and were not given before, then the advisories that
/// waited. A log that cannot be read shows nothing.
pub proof fn law_reload_shows_numbers_before_advisories(
    v: TurnView,
    log: Seq<(u64, SessionLogEntry)>,
)
    ensures
        ({
            let due = numbers_due(v.numbering, effective(log));
            let window = numbered_window(v.numbering, effective(log));
            let queue = admitted(v.pending, v.live, v.reader, v.last_durable_seq);
            let given = v.emitted.union(due.to_set());
            &&& mutations_readable(log) ==> reload_events(v, log) == fresh_numbers(v.emitted, due)
                + flushed(Some(window), given, queue)
            &&& mutations_readable(log) ==> reloaded(v, log).emitted == given.union(
                stamps(Some(window), queue),
            )
            &&& !mutations_readable(log) ==> reload_events(v, log).len() == 0
        }),
{
}

/// An advisory that the log has overtaken changes nothing and shows nothing.
pub proof fn law_overtaken_advisory_changes_nothing(v: TurnView, e: AdvisoryEnvelope)
    requires
        e.after_seq < v.last_durable_seq,
    ensures
        advised(v, e) == v,
        advised_events(v, e).len() == 0,
{
}

/// Any other advisory joins the queue. It is shown at once where a log was read, behind what
/// waited, and waits else. A failure of the model and an end of the turn are remembered.
pub proof fn law_advisory_is_shown_once_a_log_is_known(v: TurnView, e: AdvisoryEnvelope)
    requires
        e.after_seq >= v.last_durable_seq,
    ensures
        ({
            let w = advised(v, e);
            let queue = admitted(v.pending.push(e), v.live, v.reader, v.last_durable_seq);
            &&& v.cached is None ==> w.pending == queue && advised_events(v, e).len() == 0
                && w.emitted == v.emitted
            &&& v.cached matches Some(log) ==> {
                let window = Some(numbered_window(v.numbering, effective(log)));
                &&& w.pending.len() == 0
                &&& advised_events(v, e) == flushed(window, v.emitted, queue)
                &&& w.emitted == v.emitted.union(stamps(window, queue))
            }
            &&& w.saw_model_error <==> v.saw_model_error || (e.event matches AgentEvent::Model(
                ModelEvent::Error(_),
            ))
            &&& w.saw_turn_ended <==> v.saw_turn_ended || (e.event matches AgentEvent::Turn(
                TurnEvent::Ended,
            ))
            &&& w.complete == v.complete && w.response == v.response && w.error == v.error
            &&& w.cached == v.cached && w.latest == v.latest
            &&& w.was_cancelled == v.was_cancelled && w.last_durable_seq == v.last_durable_seq
            &&& w.numbering == v.numbering && w.user_msg_seq == v.user_msg_seq
        }),
{
}

/// A worker that is gone without an answer leaves the turn with the reason as its failure; one
/// that writes ends of turns does so whatever the log holds.
pub proof fn law_lost_worker_fails_an_unanswered_turn(v: TurnView, reason: Seq<char>)
    ensures
        orphaned(v, reason).complete,
        v.numbering is Headed ==> orphaned(v, reason).error == Some(reason) && orphaned(
            v,
            reason,
        ).response == v.response,
        v.numbering is Transcript ==> (v.latest matches Some(log) ==> (final_response(
            log,
            v.user_msg_seq,
        ) is None ==> orphaned(v, reason).error == Some(reason) && orphaned(
            v,
            reason,
        ).response is None)),
        v.numbering is Transcript ==> v.latest is None ==> orphaned(v, reason).response
            == v.response && orphaned(v, reason).error == if v.response is None {
            Some(reason)
        } else {
            v.error
        },
        orphaned(v, reason).pending == v.pending,
        orphaned(v, reason).emitted == v.emitted,
        orphaned(v, reason).cached == v.cached,
{
}

/// The last reading of a log decides the outcome, whether its edits can be read or not. Without a
/// last reading the outcome stays.
pub proof fn law_last_reading_decides_the_outcome(
    v: TurnView,
    log: Vec<(u64, SessionLogEntry)>,
    reason: String,
)
    ensures
        ({
            let w = settled(v, Some(FinalReload::Loaded(log)));
            &&& w.response == final_response(log@, v.user_msg_seq)
            &&& w.error == turn_error(log@, v.user_msg_seq)
            &&& w.pending == v.pending
            &&& w.saw_model_error == v.saw_model_error
            &&& w.was_cancelled == v.was_cancelled
            &&& w.session_id == v.session_id && w.user_msg_seq == v.user_msg_seq && w.user_msg_id
                == v.user_msg_id && w.numbering == v.numbering
            &&& mutations_readable(log@) ==> w.cached == Some(log@)
            &&& !mutations_readable(log@) ==> w.cached == v.cached
        }),
        settled(v, None) == v,
        settled(v, Some(FinalReload::Failed(reason))) == v,
{
}

/// At its end a turn shows the numbers of the last reading, then every advisory that still counts
/// (without a number where no log was ever read), and last the failure, if it has one that the
/// model has not announced in a transcript.
pub proof fn law_end_of_turn_shows_what_is_left(v: TurnView, reload: Option<FinalReload>)
    requires
        !(reload matches Some(FinalReload::Failed(_))),
    ensures
        ({
            let w = settled(v, reload);
            let numbers = match reload {
                Some(FinalReload::Loaded(log)) => if mutations_readable(log@) {
                    fresh_numbers(v.emitted, numbers_due(v.numbering, effective(log@)))
                } else {
                    Seq::empty()
                },
                _ => Seq::empty(),
            };
            let window = match w.cached {
                Some(log) => Some(numbered_window(v.numbering, effective(log))),
                None => None,
            };
            let queue = admitted(v.pending, v.live, v.reader, v.last_durable_seq);
            let failure = match w.error {
                Some(error) => if v.numbering is Transcript && v.saw_model_error {
                    Seq::empty()
                } else {
                    seq![EventView::Error(error)]
                },
                None => Seq::empty(),
            };
            finish_events(v, reload) == numbers + flushed(window, w.emitted, queue) + failure
        }),
        shows_error(v) <==> v.error is Some && (v.numbering is Headed || !v.saw_model_error),
{
    let w = settled(v, reload);
    let window = match w.cached {
        Some(log) => Some(numbered_window(v.numbering, effective(log))),
        None => None,
    };
    let queue = admitted(v.pending, v.live, v.reader, v.last_durable_seq);
    let shown = settling_events(v, reload) + flushed(window, w.emitted, queue);
    assert(final_flush_events(w) == flushed(window, w.emitted, queue));
    assert(shown + Seq::<EventView>::empty() =~= shown);
    if let Some(error) = w.error {
        assert(shown.push(EventView::Error(error)) =~= shown + seq![EventView::Error(error)]);
    }
}

} // verus!
