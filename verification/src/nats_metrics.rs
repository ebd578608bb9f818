//! Counters of a worker.
use vstd::prelude::*;

verus! {

/// The counters. They wrap around.
#[derive(Clone, Copy, Debug, PartialEq, Eq, Structural)]
pub struct NatsMetricsSnapshot {
    pub active_sessions_per_worker: u64,
    pub lease_acquisitions: u64,
    pub lease_losses: u64,
    pub fenced_writes_rejected: u64,
    pub resumes: u64,
    pub interrupt_errors_synthesized: u64,
}

/// All counters at zero.
pub open spec fn no_counts() -> NatsMetricsSnapshot {
    NatsMetricsSnapshot {
        active_sessions_per_worker: 0,
        lease_acquisitions: 0,
        lease_losses: 0,
        fenced_writes_rejected: 0,
        resumes: 0,
        interrupt_errors_synthesized: 0,
    }
}

/// One more, around the end of the range.
pub open spec fn counted(n: u64) -> u64 {
    if n == u64::MAX {
        0
    } else {
        (n + 1) as u64
    }
}

impl Default for NatsMetricsSnapshot {
    fn default() -> (r: Self)
        ensures
            r == no_counts(),
    {
        NatsMetricsSnapshot {
            active_sessions_per_worker: 0,
            lease_acquisitions: 0,
            lease_losses: 0,
            fenced_writes_rejected: 0,
            resumes: 0,
            interrupt_errors_synthesized: 0,
        }
    }
}

fn count(n: u64) -> (r: u64)
    ensures
        r == counted(n),
{
    if n == u64::MAX {
        0
    } else {
        n + 1
    }
}

pub fn active_session_started(metrics: &mut NatsMetricsSnapshot)
    ensures
        *final(metrics) == (NatsMetricsSnapshot {
            active_sessions_per_worker: counted(old(metrics).active_sessions_per_worker),
            ..*old(metrics)
        }),
{
    metrics.active_sessions_per_worker = count(metrics.active_sessions_per_worker);
}

/// A session ended. The count stops at zero.
pub fn active_session_finished(metrics: &mut NatsMetricsSnapshot)
    ensures
        *final(metrics) == (NatsMetricsSnapshot {
            active_sessions_per_worker: if old(metrics).active_sessions_per_worker == 0 {
                0
            } else {
                (old(metrics).active_sessions_per_worker - 1) as u64
            },
            ..*old(metrics)
        }),
{
    if metrics.active_sessions_per_worker > 0 {
        metrics.active_sessions_per_worker = metrics.active_sessions_per_worker - 1;
    }
}

pub fn lease_acquired(metrics: &mut NatsMetricsSnapshot)
    ensures
        *final(metrics) == (NatsMetricsSnapshot {
            lease_acquisitions: counted(old(metrics).lease_acquisitions),
            ..*old(metrics)
        }),
{
    metrics.lease_acquisitions = count(metrics.lease_acquisitions);
}

pub fn lease_lost(metrics: &mut NatsMetricsSnapshot)
    ensures
        *final(metrics) == (NatsMetricsSnapshot {
            lease_losses: counted(old(metrics).lease_losses),
            ..*old(metrics)
        }),
{
    metrics.lease_losses = count(metrics.lease_losses);
}

pub fn fenced_write_rejected(metrics: &mut NatsMetricsSnapshot)
    ensures
        *final(metrics) == (NatsMetricsSnapshot {
            fenced_writes_rejected: counted(old(metrics).fenced_writes_rejected),
            ..*old(metrics)
        }),
{
    metrics.fenced_writes_rejected = count(metrics.fenced_writes_rejected);
}

pub fn resume_detected(metrics: &mut NatsMetricsSnapshot)
    ensures
        *final(metrics) == (NatsMetricsSnapshot {
            resumes: counted(old(metrics).resumes),
            ..*old(metrics)
        }),
{
    metrics.resumes = count(metrics.resumes);
}

pub fn interrupt_error_synthesized(metrics: &mut NatsMetricsSnapshot)
    ensures
        *final(metrics) == (NatsMetricsSnapshot {
            interrupt_errors_synthesized: counted(old(metrics).interrupt_errors_synthesized),
            ..*old(metrics)
        }),
{
    metrics.interrupt_errors_synthesized = count(metrics.interrupt_errors_synthesized);
}

/// The counters as they are now.
pub fn snapshot(metrics: &NatsMetricsSnapshot) -> (r: NatsMetricsSnapshot)
    ensures
        r == *metrics,
{
    *metrics
}

/// Puts every counter back to zero.
pub fn reset_for_test(metrics: &mut NatsMetricsSnapshot)
    ensures
        *final(metrics) == no_counts(),
{
    *metrics = NatsMetricsSnapshot {
        active_sessions_per_worker: 0,
        lease_acquisitions: 0,
        lease_losses: 0,
        fenced_writes_rejected: 0,
        resumes: 0,
        interrupt_errors_synthesized: 0,
    };
}

/// A count goes up by one each time, and starts again at zero once it is full.
pub proof fn law_counts_go_up_by_one(n: u64)
    ensures
        n < u64::MAX ==> counted(n) == n + 1,
        counted(u64::MAX) == 0,
        no_counts().active_sessions_per_worker == 0,
        no_counts().lease_acquisitions == 0,
        no_counts().lease_losses == 0,
        no_counts().fenced_writes_rejected == 0,
        no_counts().resumes == 0,
        no_counts().interrupt_errors_synthesized == 0,
{
}

} // verus!
