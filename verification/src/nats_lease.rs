//! The lease of a session: who may work on it, and until when.
use crate::text::{
    all_digits, decimal, decimal_of, digit, digit_of, digits_value, is_digit, opt_text,
};
use vstd::prelude::*;
use vstd::string::*;

verus! {

pub const DEFAULT_LEASE_TTL_MS: u64 = 30000;

pub const DEFAULT_RENEW_INTERVAL_MS: u64 = 10000;

pub const DEFAULT_BUCKET_REPLICAS: usize = 1;

pub const DEFAULT_TOMBSTONE_TTL_MS: u64 = 3600000;

/// The digits of thousandths behind a point, without zeros at the end. Nothing where there are no
/// thousandths.
pub open spec fn thousandths(n: nat) -> Seq<char> {
    let a = digit(n / 100);
    let b = digit(n / 10 % 10);
    let c = digit(n % 10);
    if n == 0 {
        Seq::empty()
    } else if n % 100 == 0 {
        seq!['.', a]
    } else if n % 10 == 0 {
        seq!['.', a, b]
    } else {
        seq!['.', a, b, c]
    }
}

/// How a span of so many milliseconds is written: in seconds from one second on.
pub open spec fn duration_text(ms: u64) -> Seq<char> {
    if ms == 0 {
        "0ns"@
    } else if ms < 1000 {
        decimal(ms as nat) + "ms"@
    } else {
        decimal(ms as nat / 1000) + thousandths(ms as nat % 1000) + "s"@
    }
}

/// How a span of so many milliseconds is written.
pub fn duration_of(ms: u64) -> (r: String)
    ensures
        r@ == duration_text(ms),
{
    if ms == 0 {
        return String::from_str("0ns");
    }
    if ms < 1000 {
        let mut r = decimal_of(ms);
        r.append("ms");
        return r;
    }
    let n: u64 = ms % 1000;
    let mut r = decimal_of(ms / 1000);
    let ghost seconds = r@;
    if n > 0 {
        r.push('.');
        r.push(digit_of(n / 100));
        if n % 100 > 0 {
            r.push(digit_of(n / 10 % 10));
            if n % 10 > 0 {
                r.push(digit_of(n % 10));
            }
        }
    }
    assert(r@ =~= seconds + thousandths(n as nat));
    r.append("s");
    r
}

/// Who holds a lease.
#[derive(Debug, PartialEq, Eq)]
pub struct LeaseRecord {
    pub worker_id: String,
    pub generation: u64,
    pub acquired_at: String,
    /// The execution that the holder works on.
    pub execution_id: Option<String>,
}

impl LeaseRecord {
    /// A record made at the time `now`, as RFC 3339 writes it.
    pub fn new(worker_id: String, generation: u64, now: String) -> (r: Self)
        ensures
            r == (LeaseRecord { worker_id, generation, acquired_at: now, execution_id: None }),
    {
        LeaseRecord { worker_id, generation, acquired_at: now, execution_id: None }
    }
}

/// How leases are kept. Spans are in milliseconds.
#[derive(Debug)]
pub struct NatsLeaseConfig {
    pub bucket: String,
    pub ttl_ms: u64,
    pub renew_interval_ms: u64,
    pub replicas: usize,
    pub tombstone_ttl_ms: u64,
}

/// Why a configuration is refused.
#[derive(Clone, Copy, Debug, PartialEq, Eq, Structural)]
pub enum LeaseConfigError {
    ZeroTtl,
    ZeroRenewInterval,
    RenewNotBelowTtl { renew_interval_ms: u64, ttl_ms: u64 },
    ZeroReplicas,
    ZeroTombstoneTtl,
}

impl LeaseConfigError {
    /// What to tell of a refused configuration.
    pub fn message(&self) -> (r: String)
        ensures
            r@ == match *self {
                LeaseConfigError::ZeroTtl => "NATS lease TTL must be > 0"@,
                LeaseConfigError::ZeroRenewInterval => "NATS lease renew interval must be > 0"@,
                LeaseConfigError::RenewNotBelowTtl { renew_interval_ms, ttl_ms } =>
                "NATS lease renew interval ("@ + duration_text(renew_interval_ms)
                    + ") must be smaller than TTL ("@ + duration_text(ttl_ms) + ")"@,
                LeaseConfigError::ZeroReplicas => "NATS lease replica count must be >= 1"@,
                LeaseConfigError::ZeroTombstoneTtl => "NATS lease tombstone TTL must be > 0"@,
            },
    {
        match self {
            LeaseConfigError::ZeroTtl => String::from_str("NATS lease TTL must be > 0"),
            LeaseConfigError::ZeroRenewInterval => String::from_str(
                "NATS lease renew interval must be > 0",
            ),
            LeaseConfigError::RenewNotBelowTtl { renew_interval_ms, ttl_ms } => {
                let mut r = String::from_str("NATS lease renew interval (");
                r.append(duration_of(*renew_interval_ms).as_str());
                r.append(") must be smaller than TTL (");
                r.append(duration_of(*ttl_ms).as_str());
                r.append(")");
                r
            },
            LeaseConfigError::ZeroReplicas => String::from_str(
                "NATS lease replica count must be >= 1",
            ),
            LeaseConfigError::ZeroTombstoneTtl => String::from_str(
                "NATS lease tombstone TTL must be > 0",
            ),
        }
    }
}

impl Default for NatsLeaseConfig {
    fn default() -> (r: Self)
        ensures
            r.bucket@ == "harnx_leases"@,
            r.ttl_ms == DEFAULT_LEASE_TTL_MS,
            r.renew_interval_ms == DEFAULT_RENEW_INTERVAL_MS,
            r.replicas == DEFAULT_BUCKET_REPLICAS,
            r.tombstone_ttl_ms == DEFAULT_TOMBSTONE_TTL_MS,
    {
        NatsLeaseConfig {
            bucket: String::from_str("harnx_leases"),
            ttl_ms: DEFAULT_LEASE_TTL_MS,
            renew_interval_ms: DEFAULT_RENEW_INTERVAL_MS,
            replicas: DEFAULT_BUCKET_REPLICAS,
            tombstone_ttl_ms: DEFAULT_TOMBSTONE_TTL_MS,
        }
    }
}

impl NatsLeaseConfig {
    /// What is wrong with the configuration, the first thing first.
    pub open spec fn fault(&self) -> Option<LeaseConfigError> {
        if self.ttl_ms == 0 {
            Some(LeaseConfigError::ZeroTtl)
        } else if self.renew_interval_ms == 0 {
            Some(LeaseConfigError::ZeroRenewInterval)
        } else if self.renew_interval_ms >= self.ttl_ms {
            Some(
                LeaseConfigError::RenewNotBelowTtl {
                    renew_interval_ms: self.renew_interval_ms,
                    ttl_ms: self.ttl_ms,
                },
            )
        } else if self.replicas == 0 {
            Some(LeaseConfigError::ZeroReplicas)
        } else if self.tombstone_ttl_ms == 0 {
            Some(LeaseConfigError::ZeroTombstoneTtl)
        } else {
            None
        }
    }

    /// The key of the lease of a session.
    pub fn key_for_session(&self, session_id: &str) -> (r: String)
        ensures
            r@ == "sessions/"@ + session_id@ + "/lock"@,
    {
        let mut r = String::from_str("sessions/");
        r.append(session_id);
        r.append("/lock");
        r
    }

    pub fn validate(&self) -> (r: Result<(), LeaseConfigError>)
        ensures
            match r {
                Ok(()) => self.fault() is None,
                Err(e) => self.fault() == Some(e),
            },
    {
        if self.ttl_ms == 0 {
            return Err(LeaseConfigError::ZeroTtl);
        }
        if self.renew_interval_ms == 0 {
            return Err(LeaseConfigError::ZeroRenewInterval);
        }
        if self.renew_interval_ms >= self.ttl_ms {
            return Err(
                LeaseConfigError::RenewNotBelowTtl {
                    renew_interval_ms: self.renew_interval_ms,
                    ttl_ms: self.ttl_ms,
                },
            );
        }
        if self.replicas == 0 {
            return Err(LeaseConfigError::ZeroReplicas);
        }
        if self.tombstone_ttl_ms == 0 {
            return Err(LeaseConfigError::ZeroTombstoneTtl);
        }
        Ok(())
    }
}

/// The default configuration is accepted.
pub proof fn law_default_config_is_valid(config: NatsLeaseConfig)
    requires
        config.ttl_ms == DEFAULT_LEASE_TTL_MS,
        config.renew_interval_ms == DEFAULT_RENEW_INTERVAL_MS,
        config.replicas == DEFAULT_BUCKET_REPLICAS,
        config.tombstone_ttl_ms == DEFAULT_TOMBSTONE_TTL_MS,
    ensures
        config.fault() is None,
{
}

/// What an attempt to create the lease came to.
#[derive(Clone, Copy, Debug, PartialEq, Eq, Structural)]
pub enum LeaseCreated {
    /// The lease exists now, at this revision.
    Revision(u64),
    /// Another lease stands in the way.
    Conflict,
}

/// What the caller does next to acquire a lease.
#[derive(Clone, Copy, Debug, PartialEq, Eq, Structural)]
pub enum AcquireStep {
    /// The lease is held; its revision is the fence of every write.
    Held(u64),
    /// Somebody else holds the lease.
    Refused,
    /// Try to take away the lease of an interrupted execution.
    Revoke,
    /// Try to create the lease once more.
    Retry,
}

/// Where an acquisition stands.
#[derive(Clone, Copy, Debug, PartialEq, Eq, Structural)]
pub enum Acquisition {
    First,
    Revoking,
    Second,
    Done,
}

impl Acquisition {
    /// An attempt to create the lease is over. A conflict leads to a revocation only at the first
    /// attempt, and only for a worker that is bound to an execution.
    pub fn created(&mut self, result: LeaseCreated, bound_to_execution: bool) -> (r: AcquireStep)
        requires
            *old(self) == Acquisition::First || *old(self) == Acquisition::Second,
        ensures
            r == match result {
                LeaseCreated::Revision(revision) => AcquireStep::Held(revision),
                LeaseCreated::Conflict => if *old(self) == Acquisition::First && bound_to_execution {
                    AcquireStep::Revoke
                } else {
                    AcquireStep::Refused
                },
            },
            *final(self) == if r == AcquireStep::Revoke {
                Acquisition::Revoking
            } else {
                Acquisition::Done
            },
    {
        match result {
            LeaseCreated::Revision(revision) => {
                *self = Acquisition::Done;
                AcquireStep::Held(revision)
            },
            LeaseCreated::Conflict => {
                let first: bool = match *self {
                    Acquisition::First => true,
                    _ => false,
                };
                if first && bound_to_execution {
                    *self = Acquisition::Revoking;
                    AcquireStep::Revoke
                } else {
                    *self = Acquisition::Done;
                    AcquireStep::Refused
                }
            },
        }
    }

    /// The attempt to take the lease away is over.
    pub fn revoked(&mut self, gone: bool) -> (r: AcquireStep)
        requires
            *old(self) == Acquisition::Revoking,
        ensures
            r == if gone {
                AcquireStep::Retry
            } else {
                AcquireStep::Refused
            },
            *final(self) == if gone {
                Acquisition::Second
            } else {
                Acquisition::Done
            },
    {
        if gone {
            *self = Acquisition::Second;
            AcquireStep::Retry
        } else {
            *self = Acquisition::Done;
            AcquireStep::Refused
        }
    }
}

/// What stands where the lease should go.
#[derive(Debug)]
pub enum LeaseInTheWay {
    /// Nothing, or the mark of a deletion.
    Gone,
    /// The lease of a worker.
    Held { execution_id: Option<String> },
}

/// What to do about a lease in the way.
#[derive(Debug)]
pub enum RevokeStep {
    /// It is gone already.
    Gone,
    /// It stays: nothing says that its holder was stopped.
    Keep,
    /// Ask whether this execution was stopped.
    Ask { execution_id: String },
}

/// What to do about a lease in the way.
pub fn revoke_step(lease: LeaseInTheWay) -> (r: RevokeStep)
    ensures
        r == match lease {
            LeaseInTheWay::Gone => RevokeStep::Gone,
            LeaseInTheWay::Held { execution_id } => match execution_id {
                Some(id) => RevokeStep::Ask { execution_id: id },
                None => RevokeStep::Keep,
            },
        },
{
    match lease {
        LeaseInTheWay::Gone => RevokeStep::Gone,
        LeaseInTheWay::Held { execution_id } => match execution_id {
            Some(id) => RevokeStep::Ask { execution_id: id },
            None => RevokeStep::Keep,
        },
    }
}

/// What is recorded of an execution that may have been stopped.
#[derive(Clone, Copy, Debug, PartialEq, Eq, Structural)]
pub struct StopEvidence {
    /// A stop of this execution was accepted.
    pub accepted_stop: bool,
    /// The record of the execution exists.
    pub recorded: bool,
    /// The execution has passed its gate.
    pub gate_registered: bool,
    /// The execution was cancelled before it passed its gate.
    pub cancellation: bool,
}

/// Whether an execution was stopped: a stop was accepted, or it was cancelled before it could
/// pass its gate.
pub fn execution_is_revoked(evidence: StopEvidence) -> (r: bool)
    ensures
        r == (evidence.accepted_stop || (evidence.recorded && !evidence.gate_registered
            && evidence.cancellation)),
{
    evidence.accepted_stop || (evidence.recorded && !evidence.gate_registered
        && evidence.cancellation)
}

/// A lease that was acquired.
#[derive(Debug)]
pub struct NatsSessionLease {
    worker_id: String,
    generation: u64,
    execution_id: Option<String>,
    ttl_ms: u64,
    held: bool,
    fence_token: u64,
}

impl NatsSessionLease {
    pub closed spec fn worker(&self) -> Seq<char> {
        self.worker_id@
    }

    pub closed spec fn spec_generation(&self) -> u64 {
        self.generation
    }

    /// The execution that the holder works on.
    pub closed spec fn execution(&self) -> Option<Seq<char>> {
        opt_text(self.execution_id)
    }

    pub closed spec fn ttl(&self) -> u64 {
        self.ttl_ms
    }

    /// Whether the lease is still held.
    pub closed spec fn held(&self) -> bool {
        self.held
    }

    /// The revision that fences the writes of the holder.
    pub closed spec fn fence(&self) -> u64 {
        self.fence_token
    }

    pub fn new(
        worker_id: String,
        generation: u64,
        execution_id: Option<String>,
        ttl_ms: u64,
        revision: u64,
    ) -> (r: Self)
        ensures
            r.worker() == worker_id@,
            r.spec_generation() == generation,
            r.execution() == opt_text(execution_id),
            r.ttl() == ttl_ms,
            r.held(),
            r.fence() == revision,
    {
        NatsSessionLease {
            worker_id,
            generation,
            execution_id,
            ttl_ms,
            held: true,
            fence_token: revision,
        }
    }

    /// The record of a renewal at the time `now`: it tells the same holder and the same execution.
    pub fn renewal_record(&self, now: String) -> (r: LeaseRecord)
        ensures
            r.worker_id@ == self.worker(),
            r.generation == self.spec_generation(),
            opt_text(r.execution_id) == self.execution(),
            r.acquired_at == now,
    {
        let mut r = LeaseRecord::new(self.worker_id.clone(), self.generation, now);
        r.execution_id = match &self.execution_id {
            Some(id) => Some(id.clone()),
            None => None,
        };
        r
    }

    pub fn is_held(&self) -> (r: bool)
        ensures
            r == self.held(),
    {
        self.held
    }

    pub fn fence_token(&self) -> (r: u64)
        ensures
            r == self.fence(),
    {
        self.fence_token
    }

    pub fn worker_id(&self) -> (r: &String)
        ensures
            r@ == self.worker(),
    {
        &self.worker_id
    }

    pub fn generation(&self) -> (r: u64)
        ensures
            r == self.spec_generation(),
    {
        self.generation
    }

    /// The lease is lost. Whether it was held until now: the loss is told once.
    pub fn mark_lost(&mut self) -> (r: bool)
        ensures
            r == old(self).held(),
            !final(self).held(),
            final(self).worker() == old(self).worker(),
            final(self).spec_generation() == old(self).spec_generation(),
            final(self).execution() == old(self).execution(),
            final(self).ttl() == old(self).ttl(),
            final(self).fence() == old(self).fence(),
    {
        let was_held: bool = self.held;
        self.held = false;
        was_held
    }

    /// A renewal was written at `sequence`, which is the fence from now on.
    pub fn renewed(&mut self, sequence: u64)
        ensures
            final(self).fence() == sequence,
            final(self).held() == old(self).held(),
            final(self).worker() == old(self).worker(),
            final(self).spec_generation() == old(self).spec_generation(),
            final(self).execution() == old(self).execution(),
            final(self).ttl() == old(self).ttl(),
    {
        self.fence_token = sequence;
    }

    /// Gives the lease back: the revision to delete, if it was held until now.
    pub fn release(&mut self) -> (r: Option<u64>)
        ensures
            r == if old(self).held() {
                Some(old(self).fence())
            } else {
                None
            },
            !final(self).held(),
            final(self).worker() == old(self).worker(),
            final(self).spec_generation() == old(self).spec_generation(),
            final(self).execution() == old(self).execution(),
            final(self).ttl() == old(self).ttl(),
            final(self).fence() == old(self).fence(),
    {
        if self.mark_lost() {
            Some(self.fence_token)
        } else {
            None
        }
    }

    /// The life of a renewal in whole seconds, as a header carries it.
    pub fn ttl_header(&self) -> (r: String)
        ensures
            r@ == decimal((self.ttl() / 1000) as nat),
    {
        decimal_of(self.ttl_ms / 1000)
    }
}

/// The subject under which a key of a bucket is written.
pub fn kv_subject(bucket: &str, key: &str) -> (r: String)
    ensures
        r@ == "$KV."@ + bucket@ + "."@ + key@,
{
    let mut r = String::from_str("$KV.");
    r.append(bucket);
    r.append(".");
    r.append(key);
    r
}

/// What to tell of a renewal that somebody else overtook.
pub fn lost_cas_message(key: &str) -> (r: String)
    ensures
        r@ == "Lost lease CAS for key '"@ + key@ + "'"@,
{
    let mut r = String::from_str("Lost lease CAS for key '");
    r.append(key);
    r.append("'");
    r
}

/// The part of a second below its point stands for so many thousandths, written with no more
/// digits than it needs.
pub proof fn law_thousandths_are_written_short(n: nat)
    requires
        n < 1000,
    ensures
        n == 0 <==> thousandths(n).len() == 0,
        n > 0 ==> {
            let t = thousandths(n);
            let d = t.skip(1);
            &&& t[0] == '.'
            &&& 1 <= d.len() <= 3
            &&& all_digits(d)
            &&& t.last() != '0'
            &&& d.len() == 1 ==> digits_value(d) * 100 == n
            &&& d.len() == 2 ==> digits_value(d) * 10 == n
            &&& d.len() == 3 ==> digits_value(d) == n
        },
{
    reveal_with_fuel(digits_value, 4);
    if n > 0 {
        let t = thousandths(n);
        let d = t.skip(1);
        let a = digit(n / 100);
        let b = digit(n / 10 % 10);
        let c = digit(n % 10);
        assert(is_digit(a) && is_digit(b) && is_digit(c));
        if n % 100 == 0 {
            assert(d =~= seq![a]);
            assert(d.drop_last() =~= Seq::<char>::empty());
        } else if n % 10 == 0 {
            assert(d =~= seq![a, b]);
            assert(d.drop_last() =~= seq![a]);
            assert(seq![a].drop_last() =~= Seq::<char>::empty());
        } else {
            assert(d =~= seq![a, b, c]);
            assert(d.drop_last() =~= seq![a, b]);
            assert(seq![a, b].drop_last() =~= seq![a]);
            assert(seq![a].drop_last() =~= Seq::<char>::empty());
        }
    }
}

/// A duration is told in milliseconds below a second, and else in seconds with the part below the
/// point; none at all is told as nanoseconds.
pub proof fn law_durations_are_told_in_the_largest_unit(ms: u64)
    ensures
        ms == 0 ==> duration_text(ms) == "0ns"@,
        0 < ms < 1000 ==> duration_text(ms) == decimal(ms as nat) + "ms"@,
        ms >= 1000 && ms % 1000 == 0 ==> duration_text(ms) == decimal((ms / 1000) as nat) + "s"@,
        ms >= 1000 ==> duration_text(ms) == decimal((ms / 1000) as nat) + thousandths(
            (ms % 1000) as nat,
        ) + "s"@,
{
    if ms >= 1000 && ms % 1000 == 0 {
        let whole = decimal(ms as nat / 1000);
        assert(whole + Seq::<char>::empty() =~= whole);
    }
}

/// A lease can be used exactly where every number of it is positive and it is renewed before it
/// ends; the first number that is not says what is wrong.
pub proof fn law_lease_is_renewed_before_it_ends(config: NatsLeaseConfig)
    ensures
        config.fault() is None <==> config.ttl_ms > 0 && config.renew_interval_ms > 0
            && config.renew_interval_ms < config.ttl_ms && config.replicas > 0
            && config.tombstone_ttl_ms > 0,
        config.fault() == Some(LeaseConfigError::ZeroTtl) <==> config.ttl_ms == 0,
        config.fault() == Some(LeaseConfigError::ZeroRenewInterval) <==> config.ttl_ms > 0
            && config.renew_interval_ms == 0,
        config.ttl_ms > 0 && config.renew_interval_ms >= config.ttl_ms <==> config.fault() == Some(
            LeaseConfigError::RenewNotBelowTtl {
                renew_interval_ms: config.renew_interval_ms,
                ttl_ms: config.ttl_ms,
            },
        ),
        config.fault() == Some(LeaseConfigError::ZeroReplicas) <==> config.ttl_ms > 0
            && config.renew_interval_ms > 0 && config.renew_interval_ms < config.ttl_ms
            && config.replicas == 0,
        config.fault() == Some(LeaseConfigError::ZeroTombstoneTtl) <==> config.ttl_ms > 0
            && config.renew_interval_ms > 0 && config.renew_interval_ms < config.ttl_ms
            && config.replicas > 0 && config.tombstone_ttl_ms == 0,
{
}

} // verus!
