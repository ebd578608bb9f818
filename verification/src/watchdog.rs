//! A detector for turns whose worker is gone.
//!
//! A worker writes its answer, or its failure, before it gives the lease of the session back. A
//! lease that was seen and is gone, with nothing in the log, means that the worker died.
use vstd::prelude::*;
use vstd::string::*;

verus! {

/// Milliseconds between two readings of the lease.
pub const ORPHAN_CHECK_INTERVAL_MS: u64 = 2000;

/// Readings in a row without a holder before a turn counts as orphaned.
pub const ORPHAN_MISSING_CHECKS: u32 = 2;

/// What a look at the lease of a session shows.
#[derive(Clone, Copy, Debug, PartialEq, Eq, Structural)]
pub enum LeaseReading {
    /// No worker has ever held a lease on this cluster.
    NoBucket,
    /// The lease could not be read.
    Unreadable,
    /// Nobody holds the lease.
    Free,
    /// A worker holds the lease.
    Held,
}

/// What to tell the user of an orphaned turn.
pub open spec fn orphan_message() -> Seq<char> {
    "The worker handling this session stopped without answering. Check the worker log for the underlying failure."@
}

/// The detector. The first lease that it sees arms it: a session that is only queued is never
/// taken for an orphan.
#[derive(Clone, Copy, Debug, PartialEq, Eq, Structural)]
pub struct SessionLeaseWatchdog {
    pub next_check_ms: u64,
    pub saw_lease: bool,
    pub missing_checks: u32,
}

impl SessionLeaseWatchdog {
    /// The detector after one more reading.
    pub open spec fn after(self, reading: LeaseReading) -> Self {
        SessionLeaseWatchdog {
            next_check_ms: self.next_check_ms,
            saw_lease: self.saw_lease || reading == LeaseReading::Held,
            missing_checks: match reading {
                LeaseReading::NoBucket => self.missing_checks,
                LeaseReading::Unreadable => 0,
                LeaseReading::Held => 0,
                LeaseReading::Free => if self.saw_lease {
                    (self.missing_checks + 1) as u32
                } else {
                    self.missing_checks
                },
            },
        }
    }

    /// Whether one more reading ends the turn.
    pub open spec fn reports(self, reading: LeaseReading) -> bool {
        reading == LeaseReading::Free && self.saw_lease && self.missing_checks + 1
            >= ORPHAN_MISSING_CHECKS
    }

    pub fn new(now_ms: u64) -> (r: Self)
        requires
            now_ms + ORPHAN_CHECK_INTERVAL_MS <= u64::MAX,
        ensures
            r == fresh((now_ms + ORPHAN_CHECK_INTERVAL_MS) as u64),
            r.next_check_ms == now_ms + ORPHAN_CHECK_INTERVAL_MS,
            !r.saw_lease,
            r.missing_checks == 0,
    {
        SessionLeaseWatchdog {
            next_check_ms: now_ms + ORPHAN_CHECK_INTERVAL_MS,
            saw_lease: false,
            missing_checks: 0,
        }
    }

    /// Whether it is time to read the lease. If it is, the next reading is put off.
    pub fn due(&mut self, now_ms: u64) -> (r: bool)
        requires
            now_ms + ORPHAN_CHECK_INTERVAL_MS <= u64::MAX,
        ensures
            r == (now_ms >= old(self).next_check_ms),
            *final(self) == (SessionLeaseWatchdog {
                next_check_ms: if r {
                    (now_ms + ORPHAN_CHECK_INTERVAL_MS) as u64
                } else {
                    old(self).next_check_ms
                },
                ..*old(self)
            }),
    {
        if now_ms < self.next_check_ms {
            return false;
        }
        self.next_check_ms = now_ms + ORPHAN_CHECK_INTERVAL_MS;
        true
    }

    /// Takes a reading. The message to end the turn with, or nothing to keep waiting.
    pub fn observe(&mut self, reading: LeaseReading) -> (r: Option<String>)
        requires
            old(self).missing_checks < u32::MAX,
        ensures
            *final(self) == old(self).after(reading),
            r is Some <==> old(self).reports(reading),
            r matches Some(message) ==> message@ == orphan_message(),
            r matches Some(message) ==> message@
                == "The worker handling this session stopped without answering. Check the worker log for the underlying failure."@,
    {
        match reading {
            LeaseReading::NoBucket => None,
            LeaseReading::Unreadable => {
                self.missing_checks = 0;
                None
            },
            LeaseReading::Held => {
                self.saw_lease = true;
                self.missing_checks = 0;
                None
            },
            LeaseReading::Free => {
                if !self.saw_lease {
                    return None;
                }
                self.missing_checks = self.missing_checks + 1;
                if self.missing_checks < ORPHAN_MISSING_CHECKS {
                    return None;
                }
                Some(
                    String::from_str(
                        "The worker handling this session stopped without answering. Check the worker log for the underlying failure.",
                    ),
                )
            },
        }
    }
}

/// A detector that has seen nothing yet.
pub open spec fn fresh(next_check_ms: u64) -> SessionLeaseWatchdog {
    SessionLeaseWatchdog { next_check_ms, saw_lease: false, missing_checks: 0 }
}

/// The detector after some readings.
pub open spec fn observed(
    start: SessionLeaseWatchdog,
    readings: Seq<LeaseReading>,
) -> SessionLeaseWatchdog
    decreases readings.len(),
{
    if readings.len() == 0 {
        start
    } else {
        observed(start, readings.drop_last()).after(readings.last())
    }
}

/// A session that no worker has claimed is never reported, however long it waits.
pub proof fn law_unclaimed_session_is_never_orphaned(
    next_check_ms: u64,
    readings: Seq<LeaseReading>,
    next: LeaseReading,
)
    requires
        forall|i: int| 0 <= i < readings.len() ==> #[trigger] readings[i] != LeaseReading::Held,
    ensures
        !observed(fresh(next_check_ms), readings).reports(next),
{
    if observed(fresh(next_check_ms), readings).saw_lease {
        armed_by_a_lease(next_check_ms, readings);
        let k = choose|k: int| 0 <= k < readings.len() && readings[k] == LeaseReading::Held;
        assert(readings[k] == LeaseReading::Held);
    }
}

/// A turn is given up only after a lease was seen and then missed twice.
pub proof fn law_report_needs_a_lease_and_two_misses(
    next_check_ms: u64,
    readings: Seq<LeaseReading>,
    next: LeaseReading,
)
    requires
        observed(fresh(next_check_ms), readings).reports(next),
    ensures
        next == LeaseReading::Free,
        readings.contains(LeaseReading::Free),
        readings.contains(LeaseReading::Held),
{
    armed_by_a_lease(next_check_ms, readings);
    missed_by_a_free_reading(next_check_ms, readings);
}

proof fn missed_by_a_free_reading(next_check_ms: u64, readings: Seq<LeaseReading>)
    requires
        observed(fresh(next_check_ms), readings).missing_checks > 0,
    ensures
        readings.contains(LeaseReading::Free),
    decreases readings.len(),
{
    assert(readings[readings.len() - 1] == readings.last());
    if readings.last() != LeaseReading::Free {
        let t = readings.drop_last();
        missed_by_a_free_reading(next_check_ms, t);
        let k = choose|k: int| 0 <= k < t.len() && t[k] == LeaseReading::Free;
        assert(readings[k] == LeaseReading::Free);
    }
}

proof fn armed_by_a_lease(next_check_ms: u64, readings: Seq<LeaseReading>)
    requires
        observed(fresh(next_check_ms), readings).saw_lease,
    ensures
        readings.contains(LeaseReading::Held),
    decreases readings.len(),
{
    assert(readings[readings.len() - 1] == readings.last());
    if readings.last() != LeaseReading::Held {
        let t = readings.drop_last();
        armed_by_a_lease(next_check_ms, t);
        let k = choose|k: int| 0 <= k < t.len() && t[k] == LeaseReading::Held;
        assert(readings[k] == LeaseReading::Held);
    }
}

/// A lease that is held, or that cannot be read, starts the count of misses again; a free one
/// counts once a lease was seen. Only a held lease arms the detector.
pub proof fn law_only_free_readings_in_a_row_count(w: SessionLeaseWatchdog)
    requires
        w.missing_checks < u32::MAX,
    ensures
        w.after(LeaseReading::Held).saw_lease,
        w.after(LeaseReading::Held).missing_checks == 0,
        w.after(LeaseReading::Unreadable).missing_checks == 0,
        w.after(LeaseReading::Unreadable).saw_lease == w.saw_lease,
        w.after(LeaseReading::NoBucket) == w,
        w.saw_lease ==> w.after(LeaseReading::Free).missing_checks == w.missing_checks + 1,
        !w.saw_lease ==> w.after(LeaseReading::Free) == w,
        w.after(LeaseReading::Free).saw_lease == w.saw_lease,
        forall|reading: LeaseReading|
            (#[trigger] w.after(reading)).next_check_ms == w.next_check_ms,
{
}

/// A worker that held the lease is given up at the second miss in a row, and not at the first.
pub proof fn law_second_miss_in_a_row_ends_the_turn(w: SessionLeaseWatchdog)
    ensures
        ({
            let held = w.after(LeaseReading::Held);
            &&& !held.reports(LeaseReading::Free)
            &&& held.after(LeaseReading::Free).reports(LeaseReading::Free)
            &&& !held.after(LeaseReading::Free).after(LeaseReading::Unreadable).reports(
                LeaseReading::Free,
            )
            &&& !held.after(LeaseReading::Free).after(LeaseReading::Held).reports(
                LeaseReading::Free,
            )
        }),
        !w.reports(LeaseReading::Held) && !w.reports(LeaseReading::Unreadable) && !w.reports(
            LeaseReading::NoBucket,
        ),
        w.reports(LeaseReading::Free) <==> w.saw_lease && w.missing_checks + 1 >= 2,
{
}

} // verus!
