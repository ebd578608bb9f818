//! Live events: advisory output beside the durable log, and which of it still counts.
//!
//! An advisory carries the sequence number of the log entry that it follows. It is lossy: the
//! log alone says how a turn ended.
use crate::events::AgentEvent;
use crate::session_log::SessionLogEntry;
use vstd::prelude::*;
use vstd::string::*;

verus! {

/// The subject on which the live events of a session are published.
pub fn events_subject(session_id: &str) -> (r: String)
    ensures
        r@ == "sessions."@ + session_id@ + ".events"@,
{
    let mut r = String::from_str("sessions.");
    r.append(session_id);
    r.append(".events");
    r
}

/// An event, and the sequence number of the log entry that it follows.
#[derive(Debug)]
pub struct AdvisoryEnvelope {
    pub after_seq: u64,
    pub event: AgentEvent,
}

impl AdvisoryEnvelope {
    pub fn new(after_seq: u64, event: AgentEvent) -> (r: Self)
        ensures
            r == (AdvisoryEnvelope { after_seq, event }),
    {
        AdvisoryEnvelope { after_seq, event }
    }
}

/// The sequence number that a publisher stamps on its advisories.
#[derive(Clone, Copy, Debug, PartialEq, Eq, Structural)]
pub struct AfterSeq {
    pub seq: u64,
}

impl AfterSeq {
    /// Moves on to a newer entry of the log. An older one changes nothing.
    pub fn note_durable_seq(&mut self, seq: u64)
        ensures
            final(self).seq == if seq > old(self).seq {
                seq
            } else {
                old(self).seq
            },
    {
        if seq > self.seq {
            self.seq = seq;
        }
    }
}

/// The sequence number of the last entry, or zero.
pub open spec fn last_seq(entries: Seq<(u64, SessionLogEntry)>) -> u64 {
    if entries.len() == 0 {
        0
    } else {
        entries.last().0
    }
}

/// The sequence number of the last entry of a log, or zero.
pub fn last_durable_seq(entries: &[(u64, SessionLogEntry)]) -> (r: u64)
    ensures
        r == last_seq(entries@),
{
    if entries.len() == 0 {
        0
    } else {
        entries[entries.len() - 1].0
    }
}

/// Whether a client that has applied the log up to `last_durable_seq` renders an advisory. One
/// that follows exactly that entry belongs to the turn that is running.
pub fn should_render(after_seq: u64, last_durable_seq: u64) -> (r: bool)
    ensures
        r == (after_seq >= last_durable_seq),
{
    after_seq >= last_durable_seq
}

/// One reader of live events.
#[derive(Clone, Copy, Debug, PartialEq, Eq, Structural)]
pub struct Attachment {
    index: usize,
}

impl Attachment {
    pub closed spec fn place(self) -> int {
        self.index as int
    }

    pub fn same_attachment(&self, other: &Attachment) -> (r: bool)
        ensures
            r == (self.place() == other.place()),
    {
        self.index == other.index
    }
}

/// The fence that interrupts raise over live output, and the readers behind it.
#[derive(Debug)]
pub struct LiveEventState {
    cancel_seq: u64,
    retired: Vec<bool>,
}

impl LiveEventState {
    /// The sequence number of the latest interrupt that was seen, or zero.
    pub closed spec fn fence(&self) -> u64 {
        self.cancel_seq
    }

    /// For each reader, whether it has been replaced.
    pub closed spec fn readers(&self) -> Seq<bool> {
        self.retired@
    }

    /// Whether an advisory behind `after_seq` is rendered by a reader that has applied the log
    /// up to `last_durable_seq`.
    pub open spec fn renders(&self, a: Attachment, after_seq: u64, last_durable_seq: u64) -> bool {
        &&& 0 <= a.place() < self.readers().len()
        &&& !self.readers()[a.place()]
        &&& after_seq >= last_durable_seq
        &&& after_seq >= self.fence()
    }

    /// No interrupt yet, and one reader.
    pub fn new() -> (r: (Self, Attachment))
        ensures
            r.0.fence() == 0,
            r.0.readers() == seq![false],
            r.1.place() == 0,
    {
        let mut retired: Vec<bool> = Vec::new();
        retired.push(false);
        let s = LiveEventState { cancel_seq: 0, retired };
        assert(s.readers() =~= seq![false]);
        (s, Attachment { index: 0 })
    }

    /// Adds a reader. It stands behind the same fence as the others.
    pub fn fork(&mut self) -> (a: Attachment)
        ensures
            a.place() == old(self).readers().len(),
            final(self).readers() == old(self).readers().push(false),
            final(self).fence() == old(self).fence(),
    {
        let index: usize = self.retired.len();
        self.retired.push(false);
        Attachment { index }
    }

    /// Puts a reader out of use. It renders nothing from now on; the others are not touched.
    pub fn retire(&mut self, a: Attachment)
        requires
            0 <= a.place() < old(self).readers().len(),
        ensures
            final(self).readers() == old(self).readers().update(a.place(), true),
            final(self).fence() == old(self).fence(),
    {
        self.retired.set(a.index, true);
    }

    /// Drops what was emitted before the interrupt at `cancel_seq`. An older interrupt never
    /// lowers the fence.
    pub fn accept_interrupt(&mut self, cancel_seq: u64)
        ensures
            final(self).fence() == if cancel_seq > old(self).fence() {
                cancel_seq
            } else {
                old(self).fence()
            },
            final(self).readers() == old(self).readers(),
    {
        if cancel_seq > self.cancel_seq {
            self.cancel_seq = cancel_seq;
        }
    }

    pub fn should_render(&self, a: Attachment, envelope: &AdvisoryEnvelope, last_durable_seq: u64)
        -> (r: bool)
        ensures
            r == self.renders(a, envelope.after_seq, last_durable_seq),
    {
        a.index < self.retired.len() && !self.retired[a.index] && envelope.after_seq
            >= last_durable_seq && envelope.after_seq >= self.cancel_seq
    }
}

/// What an interrupt has overtaken stays dropped, for every reader and whatever comes later.
pub proof fn law_fence_only_rises(
    before: LiveEventState,
    after: LiveEventState,
    a: Attachment,
    after_seq: u64,
    last_durable_seq: u64,
)
    requires
        after.fence() >= before.fence(),
        after.readers() == before.readers() || (exists|b: Attachment|
            after.readers() == before.readers().update(b.place(), true)),
        after_seq < before.fence(),
    ensures
        !after.renders(a, after_seq, last_durable_seq),
{
}

/// A log ends where its last entry stands, and an empty one at zero.
pub proof fn law_log_ends_at_its_last_entry(
    entries: Seq<(u64, SessionLogEntry)>,
    row: (u64, SessionLogEntry),
)
    ensures
        last_seq(entries.push(row)) == row.0,
        last_seq(Seq::<(u64, SessionLogEntry)>::empty()) == 0,
{
}

/// An advisory is rendered exactly by a reader that is in use, where it follows neither an entry
/// before those that were applied nor one before the latest interrupt.
pub proof fn law_reader_in_use_renders_what_is_current(
    live: LiveEventState,
    a: Attachment,
    after_seq: u64,
    last_durable_seq: u64,
)
    requires
        0 <= a.place() < live.readers().len(),
    ensures
        live.readers()[a.place()] ==> !live.renders(a, after_seq, last_durable_seq),
        !live.readers()[a.place()] ==> (live.renders(a, after_seq, last_durable_seq) <==> after_seq
            >= last_durable_seq && after_seq >= live.fence()),
        !live.readers()[a.place()] && live.fence() <= last_durable_seq ==> live.renders(
            a,
            last_durable_seq,
            last_durable_seq,
        ),
{
}

} // verus!
