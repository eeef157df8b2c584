//! What the workers of the tiers count, and how long their queues are.

use vstd::prelude::*;

use crate::config::{AuditConfig, QueuesConfig};
use crate::types::Tier;

verus! {

/// What the workers of the tiers count.
#[derive(Debug, Clone, Copy, PartialEq, Eq, Structural)]
pub struct WorkerCounters {
    /// Logs that found the queue full.
    pub channel_full_log: u64,
    /// Metrics that found the queue full.
    pub channel_full_metric: u64,
    /// Traces that found the queue full.
    pub channel_full_trace: u64,
    /// Audit records that found the queue full.
    pub channel_full_audit: u64,
    /// Envelopes that were delivered.
    pub delivered: u64,
}

impl Default for WorkerCounters {
    fn default() -> (r: Self)
        ensures
            r == (WorkerCounters {
                channel_full_log: 0,
                channel_full_metric: 0,
                channel_full_trace: 0,
                channel_full_audit: 0,
                delivered: 0,
            }),
    {
        WorkerCounters {
            channel_full_log: 0,
            channel_full_metric: 0,
            channel_full_trace: 0,
            channel_full_audit: 0,
            delivered: 0,
        }
    }
}

/// The next value of a counter, which starts over after the largest.
pub open spec fn next_count(n: u64) -> u64 {
    if n == u64::MAX {
        0
    } else {
        (n + 1) as u64
    }
}

/// The next value of a counter.
pub fn bump(n: u64) -> (r: u64)
    ensures
        r == next_count(n),
{
    n.wrapping_add(1)
}

/// The counters after an envelope found the queue of its tier full.
pub open spec fn channel_full(counters: WorkerCounters, tier: Tier) -> WorkerCounters {
    match tier {
        Tier::Log => WorkerCounters {
            channel_full_log: next_count(counters.channel_full_log),
            ..counters
        },
        Tier::Metric => WorkerCounters {
            channel_full_metric: next_count(counters.channel_full_metric),
            ..counters
        },
        Tier::Trace => WorkerCounters {
            channel_full_trace: next_count(counters.channel_full_trace),
            ..counters
        },
        Tier::Audit => WorkerCounters {
            channel_full_audit: next_count(counters.channel_full_audit),
            ..counters
        },
        Tier::Unspecified => counters,
    }
}

/// Counts an envelope that found the queue of its tier full. What has no tier
/// is not counted.
pub fn note_channel_full(counters: &mut WorkerCounters, tier: Tier)
    ensures
        *final(counters) == (match tier {
            Tier::Log => WorkerCounters {
                channel_full_log: next_count(old(counters).channel_full_log),
                ..*old(counters)
            },
            Tier::Metric => WorkerCounters {
                channel_full_metric: next_count(old(counters).channel_full_metric),
                ..*old(counters)
            },
            Tier::Trace => WorkerCounters {
                channel_full_trace: next_count(old(counters).channel_full_trace),
                ..*old(counters)
            },
            Tier::Audit => WorkerCounters {
                channel_full_audit: next_count(old(counters).channel_full_audit),
                ..*old(counters)
            },
            Tier::Unspecified => *old(counters),
        }),
        *final(counters) == channel_full(*old(counters), tier),
{
    match tier {
        Tier::Log => {
            counters.channel_full_log = bump(counters.channel_full_log);
        },
        Tier::Metric => {
            counters.channel_full_metric = bump(counters.channel_full_metric);
        },
        Tier::Trace => {
            counters.channel_full_trace = bump(counters.channel_full_trace);
        },
        Tier::Audit => {
            counters.channel_full_audit = bump(counters.channel_full_audit);
        },
        Tier::Unspecified => {},
    }
}

/// Counts an envelope that was delivered.
pub fn note_delivered(counters: &mut WorkerCounters)
    ensures
        *final(counters) == (WorkerCounters {
            delivered: next_count(old(counters).delivered),
            ..*old(counters)
        }),
{
    counters.delivered = bump(counters.delivered);
}

/// How many envelopes the queue of a tier takes: at least one. What has no
/// tier has no queue.
pub fn tier_capacity(tier: Tier, queues: &QueuesConfig, audit: &AuditConfig) -> (r: Option<u32>)
    ensures
        r == (match tier {
            Tier::Log => Some(at_least_one(queues.log)),
            Tier::Metric => Some(at_least_one(queues.metric)),
            Tier::Trace => Some(at_least_one(queues.trace)),
            Tier::Audit => Some(at_least_one(audit.channel_capacity)),
            Tier::Unspecified => None,
        }),
{
    let n: u32 = match tier {
        Tier::Log => queues.log,
        Tier::Metric => queues.metric,
        Tier::Trace => queues.trace,
        Tier::Audit => audit.channel_capacity,
        Tier::Unspecified => return None,
    };
    if n == 0 {
        Some(1)
    } else {
        Some(n)
    }
}

/// `n`, or one where it is zero.
pub open spec fn at_least_one(n: u32) -> u32 {
    if n == 0 {
        1
    } else {
        n
    }
}

/// A counter goes up by one and starts over after the largest number.
pub proof fn law_counters_go_up(n: u64)
    ensures
        n < u64::MAX ==> next_count(n) == n + 1,
        next_count(u64::MAX) == 0,
{
}

/// A queue takes as many envelopes as were configured for its tier, and one
/// where that is none; what has no tier has no queue.
pub proof fn law_queues_are_as_long_as_configured(
    tier: Tier,
    queues: QueuesConfig,
    audit: AuditConfig,
    r: Option<u32>,
)
    requires
        call_ensures(tier_capacity, (tier, &queues, &audit), r),
    ensures
        tier == Tier::Unspecified <==> r is None,
        r matches Some(n) ==> n >= 1,
        tier == Tier::Log && queues.log > 0 ==> r == Some(queues.log),
        tier == Tier::Metric && queues.metric > 0 ==> r == Some(queues.metric),
        tier == Tier::Trace && queues.trace > 0 ==> r == Some(queues.trace),
        tier == Tier::Audit && audit.channel_capacity > 0 ==> r == Some(audit.channel_capacity),
        tier == Tier::Log && queues.log == 0 ==> r == Some(1u32),
        tier == Tier::Audit && audit.channel_capacity == 0 ==> r == Some(1u32),
{
}

/// A full queue moves the counter of its tier by one and no other; what has no
/// tier moves none.
pub proof fn law_each_tier_is_counted_by_itself(c: WorkerCounters, tier: Tier)
    ensures
        ({
            let now = channel_full(c, tier);
            &&& now.delivered == c.delivered
            &&& tier == Tier::Log ==> now.channel_full_log == next_count(c.channel_full_log)
            &&& tier != Tier::Log ==> now.channel_full_log == c.channel_full_log
            &&& tier == Tier::Metric ==> now.channel_full_metric == next_count(
                c.channel_full_metric,
            )
            &&& tier != Tier::Metric ==> now.channel_full_metric == c.channel_full_metric
            &&& tier == Tier::Trace ==> now.channel_full_trace == next_count(c.channel_full_trace)
            &&& tier != Tier::Trace ==> now.channel_full_trace == c.channel_full_trace
            &&& tier == Tier::Audit ==> now.channel_full_audit == next_count(c.channel_full_audit)
            &&& tier != Tier::Audit ==> now.channel_full_audit == c.channel_full_audit
        }),
{
}

} // verus!
