//! The handle on an open scope.

use vstd::prelude::*;

use super::frame::{self, FrameView, ScopeField, ScopeFrame, ScopeKind};
use super::{pop_frame, push_frame, ScopeStack};
use crate::envelope::{EnvelopeView, ObsEnvelope};
use crate::types::{EnumValue, SamplingReason};

verus! {

/// The handle on an open scope. It is closed with `close`.
#[derive(Debug)]
pub struct ScopeGuard {
    armed: bool,
}

/// What is emitted when a scope closes: what it held back, where it saw an
/// error.
pub open spec fn flushed(f: FrameView) -> Seq<EnvelopeView> {
    if f.kind == ScopeKind::Scope && f.seen_error {
        f.tail.map_values(
            |e: EnvelopeView|
                EnvelopeView {
                    sampling_reason: EnumValue::Known(SamplingReason::TailError),
                    ..e
                },
        )
    } else {
        Seq::empty()
    }
}

/// The scopes that stay open when a handle is closed, and what is let out.
pub open spec fn closing(stack: Seq<FrameView>, armed: bool) -> (
    Seq<FrameView>,
    Seq<EnvelopeView>,
) {
    if armed && stack.len() > 0 {
        (stack.drop_last(), flushed(stack.last()))
    } else {
        (stack, Seq::empty())
    }
}

impl ScopeGuard {
    /// Whether closing the handle closes a scope.
    pub closed spec fn is_armed(self) -> bool {
        self.armed
    }

    /// Opens a scope.
    pub fn enter(stack: &mut ScopeStack, fields: Vec<ScopeField>, tail_capacity: u16) -> (r: Self)
        ensures
            final(stack)@ == old(stack)@.push(
                frame::fresh_frame(
                    frame::field_views(fields@),
                    ScopeKind::Scope,
                    tail_capacity,
                ),
            ),
            r.is_armed(),
    {
        ScopeGuard::enter_with_frame(
            stack,
            ScopeFrame::new(fields, ScopeKind::Scope, tail_capacity),
        )
    }

    /// Opens a context.
    pub fn enter_context(stack: &mut ScopeStack, fields: Vec<ScopeField>) -> (r: Self)
        ensures
            final(stack)@ == old(stack)@.push(
                frame::fresh_frame(frame::field_views(fields@), ScopeKind::Context, 0),
            ),
            r.is_armed(),
    {
        ScopeGuard::enter_with_frame(stack, ScopeFrame::new(fields, ScopeKind::Context, 0))
    }

    /// Opens a scope that has the name and target of a span.
    pub fn enter_with_identity(
        stack: &mut ScopeStack,
        fields: Vec<ScopeField>,
        kind: ScopeKind,
        tail_capacity: u16,
        name: &'static str,
        target: &'static str,
    ) -> (r: Self)
        ensures
            final(stack)@ == old(stack)@.push(
                FrameView {
                    span: Some((name@, target@)),
                    ..frame::fresh_frame(frame::field_views(fields@), kind, tail_capacity)
                },
            ),
            r.is_armed(),
    {
        let mut frame = ScopeFrame::new(fields, kind, tail_capacity);
        frame.set_span_identity(name, target);
        ScopeGuard::enter_with_frame(stack, frame)
    }

    /// Opens the scope of a frame.
    pub fn enter_with_frame(stack: &mut ScopeStack, frame: ScopeFrame) -> (r: Self)
        ensures
            final(stack)@ == old(stack)@.push(frame@),
            r.is_armed(),
    {
        let depth: usize = push_frame(stack, frame);
        ScopeGuard { armed: true }
    }

    /// Closes the scope and hands out its frame, to be opened elsewhere. Where
    /// no scope is open any more, the frame is a fresh one.
    #[must_use]
    pub fn into_inner(self, stack: &mut ScopeStack) -> (r: ScopeFrame)
        ensures
            old(stack)@.len() > 0 ==> r@ == old(stack)@.last() && final(stack)@ == old(
                stack,
            )@.drop_last(),
            old(stack)@.len() == 0 ==> r@ == frame::fresh_frame(Seq::empty(), ScopeKind::Scope, 64)
                && final(stack)@ == old(stack)@,
    {
        match pop_frame(stack) {
            Some(frame) => frame,
            None => {
                let fields: Vec<ScopeField> = Vec::new();
                proof {
                    assert(frame::field_views(fields@) =~= Seq::empty());
                }
                ScopeFrame::new(fields, ScopeKind::Scope, 64)
            },
        }
    }

    /// Closes the scope. What it held back is handed out to be emitted where
    /// it saw an error, and is gone otherwise.
    pub fn close(self, stack: &mut ScopeStack) -> (r: Vec<ObsEnvelope>)
        ensures
            self.is_armed() && old(stack)@.len() > 0 ==> {
                &&& final(stack)@ == old(stack)@.drop_last()
                &&& frame::envelope_views(r@) == flushed(old(stack)@.last())
            },
            !self.is_armed() || old(stack)@.len() == 0 ==> {
                &&& final(stack)@ == old(stack)@
                &&& r@.len() == 0
            },
            (final(stack)@, frame::envelope_views(r@)) == closing(old(stack)@, self.is_armed()),
    {
        let none: Vec<ObsEnvelope> = Vec::new();
        proof {
            assert(frame::envelope_views(none@) =~= Seq::<EnvelopeView>::empty());
        }
        if !self.armed {
            return none;
        }
        match pop_frame(stack) {
            None => none,
            Some(frame) => {
                let mut frame = frame;
                if frame.kind() != ScopeKind::Scope || !frame.seen_error() {
                    return none;
                }
                flush_tail_buffer(&mut frame)
            },
        }
    }
}

/// Hands out what a frame held back, marked as kept for an error.
fn flush_tail_buffer(frame: &mut ScopeFrame) -> (r: Vec<ObsEnvelope>)
    requires
        old(frame)@.kind == ScopeKind::Scope,
        old(frame)@.seen_error,
    ensures
        frame::envelope_views(r@) == flushed(old(frame)@),
        final(frame)@ == (FrameView { tail: Seq::empty(), ..old(frame)@ }),
{
    let ghost goal = flushed(frame@);
    let held = frame.drain_tail();
    let mut out: Vec<ObsEnvelope> = Vec::new();
    let mut i: usize = 0;
    while i < held.len()
        invariant
            i <= held@.len(),
            goal.len() == held@.len(),
            forall|k: int|
                0 <= k < held@.len() ==> goal[k] == (EnvelopeView {
                    sampling_reason: EnumValue::Known(SamplingReason::TailError),
                    ..(#[trigger] held@[k])@
                }),
            frame::envelope_views(out@) =~= goal.take(i as int),
        decreases held@.len() - i,
    {
        let mut env = held[i].clone();
        env.sampling_reason = EnumValue::Known(SamplingReason::TailError);
        let ghost was = out@;
        let ghost new = env@;
        proof {
            assert(new == goal[i as int]);
        }
        out.push(env);
        proof {
            assert(frame::envelope_views(out@) =~= frame::envelope_views(was).push(new));
        }
        i = i + 1;
    }
    proof {
        assert(goal.take(i as int) =~= goal);
    }
    out
}

/// Closing a scope that saw an error lets out every envelope that it held, in
/// order, each marked as kept for an error and otherwise as it was. A scope
/// that saw none, and a context, lets out nothing.
pub proof fn law_an_error_lets_the_held_out(f: FrameView, i: int)
    ensures
        f.kind == ScopeKind::Scope && f.seen_error ==> flushed(f).len() == f.tail.len(),
        f.kind == ScopeKind::Scope && f.seen_error && 0 <= i < f.tail.len() ==> {
            &&& flushed(f)[i].sampling_reason == EnumValue::Known(SamplingReason::TailError)
            &&& (EnvelopeView { sampling_reason: f.tail[i].sampling_reason, ..flushed(f)[i] })
                == f.tail[i]
        },
        f.kind == ScopeKind::Context || !f.seen_error ==> flushed(f).len() == 0,
{
}

/// Closing a handle closes the innermost scope and no other, and lets out what
/// that one held where it saw an error. A handle that was disarmed closes none.
pub proof fn law_closing_takes_the_innermost_scope(stack: Seq<FrameView>, f: FrameView)
    ensures
        closing(stack.push(f), true).0 == stack,
        f.kind == ScopeKind::Scope && f.seen_error ==> closing(stack.push(f), true).1.len()
            == f.tail.len(),
        !f.seen_error ==> closing(stack.push(f), true).1.len() == 0,
        closing(stack, false).0 == stack,
        closing(stack, false).1.len() == 0,
        closing(Seq::empty(), true).0.len() == 0,
{
    assert(stack.push(f).drop_last() =~= stack);
    law_an_error_lets_the_held_out(f, 0);
}

} // verus!
