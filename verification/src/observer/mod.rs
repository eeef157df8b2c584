//! Observers: who is told of an event.
//!
//! The observer of the task goes before that of the thread, and that before
//! the global one. While an observer is told of an event, whatever it emits
//! itself goes nowhere.

pub mod dispatch;
pub mod in_memory;
pub mod noop;
pub mod pipeline;
pub mod standard;
pub mod workers;

use vstd::prelude::*;

pub use in_memory::InMemoryObserver;
pub use noop::NoopObserver;
pub use standard::{BuildError, StandardObserver, StandardObserverBuilder};
pub use workers::WorkerCounters;

use crate::envelope::{EnvelopeView, ObsEnvelope};
use crate::self_events;
use crate::types::{EnumValue, Severity, Tier};

verus! {

/// The observer that counts: none inside an emit; the global one where
/// nothing overrides it.
pub open spec fn resolved<O>(
    can_enter: bool,
    overrides: usize,
    task: Option<O>,
    thread: Option<O>,
    global: O,
) -> Option<O> {
    if !can_enter {
        None
    } else if overrides == 0 {
        Some(global)
    } else if task is Some {
        task
    } else if thread is Some {
        thread
    } else {
        Some(global)
    }
}

/// The observer that counts, if any.
pub fn resolve<O>(
    can_enter: bool,
    overrides: usize,
    task: Option<O>,
    thread: Option<O>,
    global: O,
) -> (r: Option<O>)
    ensures
        r == resolved(can_enter, overrides, task, thread, global),
{
    if !can_enter {
        return None;
    }
    if overrides == 0 {
        return Some(global);
    }
    match task {
        Some(o) => Some(o),
        None => match thread {
            Some(o) => Some(o),
            None => Some(global),
        },
    }
}

/// The observer of a thread, with how many overrides there are.
#[derive(Debug)]
pub struct ThreadSlot<O> {
    /// The observer of the thread.
    pub thread: Option<O>,
    /// How many overrides there are.
    pub overrides: usize,
}

/// What an override of a thread's observer puts back.
#[derive(Debug)]
pub struct ThreadObserverGuard<O> {
    /// The observer before the override.
    pub prev: Option<O>,
}

impl<O> ThreadSlot<O> {
    /// No observer and no override.
    pub fn new() -> (r: Self)
        ensures
            r == (ThreadSlot { thread: None::<O>, overrides: 0 }),
    {
        ThreadSlot { thread: None, overrides: 0 }
    }

    /// Overrides the observer of the thread.
    pub fn install(&mut self, observer: O) -> (r: ThreadObserverGuard<O>)
        requires
            old(self).overrides < usize::MAX,
        ensures
            final(self).thread == Some(observer),
            final(self).overrides == old(self).overrides + 1,
            r.prev == old(self).thread,
            is_installed(*old(self), observer, *final(self), r),
    {
        let mut prev: Option<O> = Some(observer);
        std::mem::swap(&mut prev, &mut self.thread);
        self.overrides = self.overrides + 1;
        ThreadObserverGuard { prev }
    }

    /// Takes an override back.
    pub fn restore(&mut self, guard: ThreadObserverGuard<O>)
        requires
            old(self).overrides > 0,
        ensures
            final(self).thread == guard.prev,
            final(self).overrides == old(self).overrides - 1,
            is_restored(*old(self), guard, *final(self)),
    {
        self.thread = guard.prev;
        self.overrides = self.overrides - 1;
    }
}

/// Whether `after` is `before` with its observer overridden, and `guard` is
/// what puts that back.
pub open spec fn is_installed<O>(
    before: ThreadSlot<O>,
    observer: O,
    after: ThreadSlot<O>,
    guard: ThreadObserverGuard<O>,
) -> bool {
    &&& after.thread == Some(observer)
    &&& after.overrides == before.overrides + 1
    &&& guard.prev == before.thread
}

/// Whether `after` is `before` with an override taken back.
pub open spec fn is_restored<O>(
    before: ThreadSlot<O>,
    guard: ThreadObserverGuard<O>,
    after: ThreadSlot<O>,
) -> bool {
    &&& after.thread == guard.prev
    &&& after.overrides == before.overrides - 1
}

/// Overrides that are taken back in the reverse order, the last one first,
/// leave the thread as it was; while one is in force it counts before the
/// global observer.
pub proof fn law_overrides_nest<O>(
    s0: ThreadSlot<O>,
    outer: O,
    s1: ThreadSlot<O>,
    g1: ThreadObserverGuard<O>,
    inner: O,
    s2: ThreadSlot<O>,
    g2: ThreadObserverGuard<O>,
    s3: ThreadSlot<O>,
    s4: ThreadSlot<O>,
    global: O,
)
    requires
        is_installed(s0, outer, s1, g1),
        is_installed(s1, inner, s2, g2),
        is_restored(s2, g2, s3),
        is_restored(s3, g1, s4),
    ensures
        resolved(true, s1.overrides, None, s1.thread, global) == Some(outer),
        resolved(true, s2.overrides, None, s2.thread, global) == Some(inner),
        resolved(true, s3.overrides, None, s3.thread, global) == Some(outer),
        s4 == s0,
{
}

/// Whether the thread is inside an emit.
#[derive(Debug, Clone, Copy, PartialEq, Eq, Structural)]
pub struct EmitGate {
    /// Whether an emit may be entered.
    pub can_enter: bool,
}

/// What is to be done with an envelope at the entrance.
#[derive(Debug)]
pub enum EmitEntry {
    /// Tell the observer.
    Enter,
    /// Drop it, and tell of that with this event.
    Reentry(ObsEnvelope),
}

/// How a tier is called where an envelope was dropped.
pub open spec fn dropped_tier(tier: EnumValue<Tier>) -> Seq<char> {
    match tier {
        EnumValue::Known(Tier::Log) => "log"@,
        EnumValue::Known(Tier::Metric) => "metric"@,
        EnumValue::Known(Tier::Trace) => "trace"@,
        EnumValue::Known(Tier::Audit) => "audit"@,
        EnumValue::Known(Tier::Unspecified) => "unspecified"@,
        EnumValue::Unknown(_) => "unknown"@,
    }
}

/// The event that tells that an envelope was dropped because it came from
/// inside an emit.
pub open spec fn reentry_event(tier: EnumValue<Tier>) -> EnvelopeView {
    self_events::labelled(
        self_events::labelled(
            self_events::base("obs.runtime.v1.ObsSinkDropped"@, Severity::Warn),
            "tier"@,
            dropped_tier(tier),
        ),
        "reason"@,
        "reentry"@,
    )
}

/// Whether `after` is the entrance once an envelope came to it, and `entry` is
/// what is to be done with that.
pub open spec fn is_entered(before: EmitGate, after: EmitGate, entry: EmitEntry) -> bool {
    &&& !after.can_enter
    &&& before.can_enter == (entry is Enter)
}

/// Whether `after` is the entrance once an envelope came out again.
pub open spec fn is_left(entry: EmitEntry, after: EmitGate) -> bool {
    after.can_enter == (entry is Enter)
}

impl EmitGate {
    /// A gate that may be entered.
    pub fn new() -> (r: Self)
        ensures
            r.can_enter,
    {
        EmitGate { can_enter: true }
    }

    /// Goes in with an envelope. No other can go in until `leave`.
    pub fn enter_emit_envelope(&mut self, env: &ObsEnvelope) -> (r: EmitEntry)
        ensures
            !final(self).can_enter,
            old(self).can_enter ==> r is Enter,
            !old(self).can_enter ==> {
                &&& r matches EmitEntry::Reentry(event)
                &&& event@ == reentry_event(env@.tier)
            },
            is_entered(*old(self), *final(self), r),
    {
        if self.can_enter {
            self.can_enter = false;
            return EmitEntry::Enter;
        }
        let tier = match env.tier {
            EnumValue::Known(t) => match t {
                Tier::Log => "log",
                Tier::Metric => "metric",
                Tier::Trace => "trace",
                Tier::Audit => "audit",
                Tier::Unspecified => "unspecified",
            },
            EnumValue::Unknown(_) => "unknown",
        };
        EmitEntry::Reentry(self_events::sink_dropped(tier, "reentry"))
    }

    /// Comes out again. The entrance is what it was before the envelope went in.
    pub fn leave(&mut self, entry: &EmitEntry)
        ensures
            final(self).can_enter == (*entry is Enter),
            is_left(*entry, *final(self)),
    {
        self.can_enter = match entry {
            EmitEntry::Enter => true,
            EmitEntry::Reentry(_) => false,
        };
    }
}

/// Inside an emit nobody is told. Outside one the observer of the task goes
/// before that of the thread, and that before the global one, which alone
/// counts where there are no overrides.
pub proof fn law_the_nearest_observer_is_told<O>(
    overrides: usize,
    task: O,
    thread: O,
    global: O,
    any: Option<O>,
    other: Option<O>,
)
    requires
        overrides > 0,
    ensures
        resolved(false, overrides, any, other, global) is None,
        resolved(true, overrides, Some(task), other, global) == Some(task),
        resolved(true, overrides, None, Some(thread), global) == Some(thread),
        resolved(true, overrides, None, None, global) == Some(global),
        resolved(true, 0, any, other, global) == Some(global),
        resolved(false, 0, any, other, global) is None,
{
}

/// What was dropped inside an emit is told by its tier, whose name it gives
/// where it is known.
pub proof fn law_what_was_dropped_is_told(tier: EnumValue<Tier>, t: Tier, n: i32)
    ensures
        dropped_tier(EnumValue::Known(t)) == t.name(),
        dropped_tier(EnumValue::Unknown(n)) == "unknown"@,
        reentry_event(tier).full_name == "obs.runtime.v1.ObsSinkDropped"@,
        reentry_event(tier).sev == EnumValue::Known(Severity::Warn),
        reentry_event(tier).labels.contains_pair("tier"@, dropped_tier(tier)),
        reentry_event(tier).labels.contains_pair("reason"@, "reentry"@),
{
    reveal_strlit("tier");
    reveal_strlit("reason");
    assert("tier"@.len() != "reason"@.len());
}

/// While an envelope is inside, whatever else comes is dropped, and coming out
/// again does not let the next one in. Once the first one comes out, the
/// entrance is as it was.
pub proof fn law_one_envelope_is_inside_at_a_time(
    g0: EmitGate,
    first: EmitEntry,
    g1: EmitGate,
    second: EmitEntry,
    g2: EmitGate,
    g3: EmitGate,
    g4: EmitGate,
)
    requires
        g0.can_enter,
        is_entered(g0, g1, first),
        is_entered(g1, g2, second),
        is_left(second, g3),
        is_left(first, g4),
    ensures
        first is Enter,
        second is Reentry,
        !g1.can_enter,
        !g2.can_enter,
        !g3.can_enter,
        g4 == g0,
{
}

} // verus!
