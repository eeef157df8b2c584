//! Where envelopes go: the sink of their tier, on the emitting thread or
//! through a worker, and the spool for audit records.

use vstd::prelude::*;

use super::workers::{self, note_channel_full, WorkerCounters};
use crate::config::AuditFailureMode;
use crate::envelope::{EnvelopeView, ObsEnvelope};
use crate::self_events;
use crate::types::{EnumValue, Severity, Tier};

verus! {

// ---------------------------------------------------------------------------
// Routing.
// ---------------------------------------------------------------------------
/// One sink for each tier, and one for what has none.
#[derive(Debug)]
pub struct SinkRouter<S> {
    pub log: Option<S>,
    pub metric: Option<S>,
    pub trace: Option<S>,
    pub audit: Option<S>,
    pub fallback: Option<S>,
}

impl<S> SinkRouter<S> {
    /// No sinks.
    pub fn new() -> (r: Self)
        ensures
            r == (SinkRouter {
                log: None::<S>,
                metric: None::<S>,
                trace: None::<S>,
                audit: None::<S>,
                fallback: None::<S>,
            }),
    {
        SinkRouter { log: None, metric: None, trace: None, audit: None, fallback: None }
    }

    /// The sink of a tier itself.
    pub open spec fn own(self, tier: Tier) -> Option<S> {
        match tier {
            Tier::Log => self.log,
            Tier::Metric => self.metric,
            Tier::Trace => self.trace,
            Tier::Audit => self.audit,
            Tier::Unspecified => None,
        }
    }

    /// The sink that the envelopes of a tier go to: its own, else the fallback.
    pub open spec fn route(self, tier: Tier) -> Option<S> {
        if self.own(tier) is Some {
            self.own(tier)
        } else {
            self.fallback
        }
    }

    /// The sink that the envelopes of a tier go to: its own, else the fallback.
    pub fn for_tier(&self, tier: Tier) -> (r: Option<&S>)
        ensures
            match self.route(tier) {
                Some(s) => r matches Some(sink) && *sink == s,
                None => r is None,
            },
    {
        let own = match tier {
            Tier::Log => self.log.as_ref(),
            Tier::Metric => self.metric.as_ref(),
            Tier::Trace => self.trace.as_ref(),
            Tier::Audit => self.audit.as_ref(),
            Tier::Unspecified => None,
        };
        match own {
            Some(s) => Some(s),
            None => self.fallback.as_ref(),
        }
    }

    /// The sink that the worker of a tier delivers to. Audit records have a
    /// worker only where they have a sink of their own.
    pub fn for_worker(&self, tier: Tier) -> (r: Option<&S>)
        ensures
            match (match tier {
                Tier::Audit => self.audit,
                Tier::Unspecified => None,
                _ => self.route(tier),
            }) {
                Some(s) => r matches Some(sink) && *sink == s,
                None => r is None,
            },
    {
        match tier {
            Tier::Audit => self.audit.as_ref(),
            Tier::Unspecified => None,
            _ => self.for_tier(tier),
        }
    }

    /// Gives a tier its sink, in place of the one it may have had.
    pub fn set(&mut self, tier: Tier, sink: S)
        ensures
            *final(self) == (match tier {
                Tier::Log => SinkRouter { log: Some(sink), ..*old(self) },
                Tier::Metric => SinkRouter { metric: Some(sink), ..*old(self) },
                Tier::Trace => SinkRouter { trace: Some(sink), ..*old(self) },
                Tier::Audit => SinkRouter { audit: Some(sink), ..*old(self) },
                Tier::Unspecified => *old(self),
            }),
    {
        match tier {
            Tier::Log => {
                self.log = Some(sink);
            },
            Tier::Metric => {
                self.metric = Some(sink);
            },
            Tier::Trace => {
                self.trace = Some(sink);
            },
            Tier::Audit => {
                self.audit = Some(sink);
            },
            Tier::Unspecified => {},
        }
    }
}

/// How an envelope is delivered.
#[derive(Debug, Clone, Copy, PartialEq, Eq, Structural)]
pub enum Dispatch {
    /// On the emitting thread.
    Sync,
    /// By the worker of its tier, which may refuse it.
    Worker,
    /// By the audit worker, which has to take it or see it spooled.
    Audit,
}

/// How an envelope is delivered: by the worker of its tier where a runtime is
/// running and the tier has one.
pub fn dispatch(tier: Tier, runtime: bool, has_worker: bool) -> (r: Dispatch)
    ensures
        r == (if !runtime || !has_worker || tier == Tier::Unspecified {
            Dispatch::Sync
        } else if tier == Tier::Audit {
            Dispatch::Audit
        } else {
            Dispatch::Worker
        }),
{
    if !runtime || !has_worker || tier == Tier::Unspecified {
        Dispatch::Sync
    } else if tier == Tier::Audit {
        Dispatch::Audit
    } else {
        Dispatch::Worker
    }
}

// ---------------------------------------------------------------------------
// Audit records.
// ---------------------------------------------------------------------------
/// What is tried next for an audit record.
#[derive(Debug, Clone, Copy, PartialEq, Eq, Structural)]
pub enum AuditStep {
    /// Offer it to the worker.
    Offer,
    /// Wait for two milliseconds.
    Wait,
    /// Write it to the spool.
    Spool,
    /// Nothing: it was taken.
    Done,
}

/// What came of the last step for an audit record.
#[derive(Debug, Clone, Copy, PartialEq, Eq, Structural)]
pub enum AuditEvent {
    /// The worker took it.
    Taken,
    /// The worker refused it when it was first offered, this long after the
    /// beginning.
    RefusedFirst {
        elapsed_ms: u64,
    },
    /// The worker refused it again.
    RefusedAgain,
    /// The wait is over, this long after the beginning.
    Waited {
        elapsed_ms: u64,
    },
}

/// What is tried next for an audit record: it is offered again until the time
/// is up, and then spooled.
pub fn audit_next(event: AuditEvent, block_ms_max: u32) -> (r: AuditStep)
    ensures
        r == (match event {
            AuditEvent::Taken => AuditStep::Done,
            AuditEvent::RefusedFirst { elapsed_ms } => if elapsed_ms < block_ms_max {
                AuditStep::Offer
            } else {
                AuditStep::Spool
            },
            AuditEvent::RefusedAgain => AuditStep::Wait,
            AuditEvent::Waited { elapsed_ms } => if elapsed_ms < block_ms_max {
                AuditStep::Offer
            } else {
                AuditStep::Spool
            },
        }),
{
    match event {
        AuditEvent::Taken => AuditStep::Done,
        AuditEvent::RefusedFirst { elapsed_ms } => {
            if elapsed_ms < block_ms_max as u64 {
                AuditStep::Offer
            } else {
                AuditStep::Spool
            }
        },
        AuditEvent::RefusedAgain => AuditStep::Wait,
        AuditEvent::Waited { elapsed_ms } => {
            if elapsed_ms < block_ms_max as u64 {
                AuditStep::Offer
            } else {
                AuditStep::Spool
            }
        },
    }
}

/// What came of writing a record to the spool.
#[derive(Debug, Clone, Copy)]
pub enum SpoolAttempt<'a> {
    /// It was written.
    Written,
    /// There is no spool.
    NoSpool,
    /// It could not be written, for this reason.
    Failed(&'a str),
}

/// What follows a record that was to be spooled.
#[derive(Debug)]
pub struct SpoolOutcome {
    /// The event that tells of it.
    pub event: ObsEnvelope,
    /// What to do where the record was lost.
    pub failure: Option<AuditFailureMode>,
}

/// The event that tells that a record was lost.
pub open spec fn spool_failed_event(reason: Seq<char>) -> EnvelopeView {
    self_events::labelled(
        self_events::base("obs.runtime.v1.ObsAuditSpoolFailed"@, Severity::Fatal),
        "reason"@,
        self_events::truncated(reason, 512),
    )
}

/// Whether `r` and the counters are what follows an attempt to spool a record.
pub open spec fn is_spooled(
    attempt: SpoolAttempt<'_>,
    on_failure: AuditFailureMode,
    before: WorkerCounters,
    after: WorkerCounters,
    r: SpoolOutcome,
) -> bool {
    match attempt {
        SpoolAttempt::Written => {
            &&& r.failure is None
            &&& r.event@.sev == EnumValue::Known(Severity::Warn)
            &&& after == workers::channel_full(before, Tier::Audit)
        },
        _ => {
            &&& r.failure == Some(on_failure)
            &&& r.event@.sev == EnumValue::Known(Severity::Fatal)
            &&& after == before
        },
    }
}

/// What follows a record that was to be spooled. One that was spooled counts
/// as one that found its queue full.
pub fn spooled(
    full_name: &str,
    attempt: SpoolAttempt<'_>,
    on_failure: AuditFailureMode,
    counters: &mut WorkerCounters,
) -> (r: SpoolOutcome)
    ensures
        match attempt {
            SpoolAttempt::Written => {
                &&& r.event@ == self_events::labelled(
                    self_events::base("obs.runtime.v1.ObsAuditSpooled"@, Severity::Warn),
                    "full_name"@,
                    full_name@,
                )
                &&& r.failure is None
                &&& *final(counters) == (WorkerCounters {
                    channel_full_audit: workers::next_count(old(counters).channel_full_audit),
                    ..*old(counters)
                })
            },
            SpoolAttempt::NoSpool => {
                &&& r.event@ == spool_failed_event("no spool configured"@)
                &&& r.failure == Some(on_failure)
                &&& *final(counters) == *old(counters)
            },
            SpoolAttempt::Failed(reason) => {
                &&& r.event@ == spool_failed_event(reason@)
                &&& r.failure == Some(on_failure)
                &&& *final(counters) == *old(counters)
            },
        },
        is_spooled(attempt, on_failure, *old(counters), *final(counters), r),
{
    match attempt {
        SpoolAttempt::Written => {
            note_channel_full(counters, Tier::Audit);
            SpoolOutcome { event: self_events::audit_spooled(full_name), failure: None }
        },
        SpoolAttempt::NoSpool => SpoolOutcome {
            event: self_events::audit_spool_failed("no spool configured"),
            failure: Some(on_failure),
        },
        SpoolAttempt::Failed(reason) => SpoolOutcome {
            event: self_events::audit_spool_failed(reason),
            failure: Some(on_failure),
        },
    }
}

// ---------------------------------------------------------------------------
// What is owed to an envelope.
// ---------------------------------------------------------------------------
/// A tier that has a sink gets that one, whatever the fallback is; one that has
/// none, and what has no tier, goes to the fallback.
pub proof fn law_each_tier_has_its_sink<S>(router: SinkRouter<S>, sink: S, tier: Tier)
    ensures
        router.log == Some(sink) ==> router.route(Tier::Log) == Some(sink),
        router.metric == Some(sink) ==> router.route(Tier::Metric) == Some(sink),
        router.trace == Some(sink) ==> router.route(Tier::Trace) == Some(sink),
        router.audit == Some(sink) ==> router.route(Tier::Audit) == Some(sink),
        router.log is None ==> router.route(Tier::Log) == router.fallback,
        router.metric is None ==> router.route(Tier::Metric) == router.fallback,
        router.trace is None ==> router.route(Tier::Trace) == router.fallback,
        router.audit is None ==> router.route(Tier::Audit) == router.fallback,
        router.route(Tier::Unspecified) == router.fallback,
        router.fallback is Some ==> router.route(tier) is Some,
{
}

/// An envelope is delivered on the emitting thread where nothing runs, where
/// its tier has no worker and where it has no tier. Audit records alone go to
/// the worker that may not refuse them for good.
pub proof fn law_workers_deliver_where_they_run(
    tier: Tier,
    runtime: bool,
    has_worker: bool,
    r: Dispatch,
)
    requires
        call_ensures(dispatch, (tier, runtime, has_worker), r),
    ensures
        !runtime ==> r == Dispatch::Sync,
        !has_worker ==> r == Dispatch::Sync,
        r == Dispatch::Audit ==> tier == Tier::Audit,
        runtime && has_worker && tier == Tier::Audit ==> r == Dispatch::Audit,
        runtime && has_worker && (tier == Tier::Log || tier == Tier::Metric || tier == Tier::Trace)
            ==> r == Dispatch::Worker,
        tier == Tier::Unspecified ==> r == Dispatch::Sync,
{
}

/// An audit record is done with only once it was taken. While there is time it
/// is offered again, after a wait between two offers, and it is spooled as soon
/// as the time is up.
pub proof fn law_an_audit_record_is_taken_or_spooled(
    event: AuditEvent,
    block_ms_max: u32,
    r: AuditStep,
)
    requires
        call_ensures(audit_next, (event, block_ms_max), r),
    ensures
        r == AuditStep::Done <==> event == AuditEvent::Taken,
        r == AuditStep::Wait <==> event == AuditEvent::RefusedAgain,
        event matches AuditEvent::RefusedFirst { elapsed_ms } ==> (r == AuditStep::Spool
            <==> elapsed_ms >= block_ms_max),
        event matches AuditEvent::Waited { elapsed_ms } ==> (r == AuditStep::Spool <==> elapsed_ms
            >= block_ms_max),
        r == AuditStep::Spool ==> event is RefusedFirst || event is Waited,
{
}

/// A record that was lost is told as a fatal event with the reason, as far as
/// that fits.
pub proof fn law_a_lost_record_is_fatal(reason: Seq<char>)
    ensures
        spool_failed_event(reason).full_name == "obs.runtime.v1.ObsAuditSpoolFailed"@,
        spool_failed_event(reason).sev == EnumValue::Known(Severity::Fatal),
        crate::text::byte_len(reason) <= 512 ==> spool_failed_event(reason).labels.contains_pair(
            "reason"@,
            reason,
        ),
        spool_failed_event(reason).labels.contains_pair(
            "reason"@,
            self_events::truncated(reason, 512),
        ),
        spool_failed_event(reason).labels.dom() == set!["reason"@],
{
    assert(spool_failed_event(reason).labels.dom() =~= set!["reason"@]);
}

/// A record that was written is not lost, is told as a warning and counted. One
/// that was not is lost: what was configured for that is to be done, and it is
/// told as fatal.
pub proof fn law_only_a_written_record_is_safe(
    attempt: SpoolAttempt<'_>,
    on_failure: AuditFailureMode,
    before: WorkerCounters,
    after: WorkerCounters,
    r: SpoolOutcome,
)
    requires
        is_spooled(attempt, on_failure, before, after, r),
    ensures
        attempt is Written <==> r.failure is None,
        r.failure matches Some(mode) ==> mode == on_failure,
        attempt is Written ==> after.channel_full_audit == workers::next_count(
            before.channel_full_audit,
        ),
        !(attempt is Written) ==> after == before,
        r.event@.sev == EnumValue::Known(Severity::Fatal) <==> r.failure is Some,
{
}

} // verus!
