//! Scopes that are opened again each time a future is polled.

use vstd::prelude::*;

use crate::scope::frame::{self, FrameView, ScopeField, ScopeFrame, ScopeKind};
use crate::scope::{pop_frame, push_frame, ScopeStack};

verus! {

/// What a scope is made from, again and again.
#[derive(Debug)]
pub struct ScopeSeed {
    /// The fields.
    pub fields: Vec<ScopeField>,
    /// The kind.
    pub kind: ScopeKind,
    /// How many envelopes the scope holds back.
    pub tail_capacity: u16,
}

/// The frame that a seed gives: nothing is held back in it, and no error was
/// seen.
pub open spec fn seeded(f: FrameView) -> FrameView {
    frame::fresh_frame(f.fields, f.kind, f.tail_capacity)
}

impl ScopeSeed {
    /// What the seed's frame is.
    pub open spec fn frame(self) -> FrameView {
        frame::fresh_frame(frame::field_views(self.fields@), self.kind, self.tail_capacity)
    }

    /// The seed of a frame: its fields, its kind and its capacity.
    pub fn from_frame(f: &ScopeFrame) -> (r: Self)
        ensures
            r.frame() == seeded(f@),
    {
        ScopeSeed { fields: copy_fields(f.fields()), kind: f.kind(), tail_capacity: f.tail_capacity() }
    }

    /// A frame of the seed.
    pub fn to_frame(&self) -> (r: ScopeFrame)
        ensures
            r@ == self.frame(),
    {
        ScopeFrame::new(copy_fields(self.fields.as_slice()), self.kind, self.tail_capacity)
    }
}

impl Clone for ScopeSeed {
    fn clone(&self) -> (r: Self)
        ensures
            r.frame() == self.frame(),
    {
        ScopeSeed {
            fields: copy_fields(self.fields.as_slice()),
            kind: self.kind,
            tail_capacity: self.tail_capacity,
        }
    }
}

/// Copies fields.
fn copy_fields(list: &[ScopeField]) -> (r: Vec<ScopeField>)
    ensures
        frame::field_views(r@) == frame::field_views(list@),
{
    let mut out: Vec<ScopeField> = Vec::new();
    let mut i: usize = 0;
    while i < list.len()
        invariant
            i <= list@.len(),
            frame::field_views(out@) =~= frame::field_views(list@).take(i as int),
        decreases list@.len() - i,
    {
        let field = list[i].clone();
        let ghost was = out@;
        let ghost new = field@;
        out.push(field);
        proof {
            assert(frame::field_views(out@) =~= frame::field_views(was).push(new));
        }
        i = i + 1;
    }
    out
}

/// The open scopes while a future is polled.
pub open spec fn polling(stack: Seq<FrameView>, seed: Option<ScopeSeed>) -> Seq<FrameView> {
    match seed {
        Some(s) => stack.push(s.frame()),
        None => stack,
    }
}

/// The open scopes after a future was polled.
pub open spec fn polled(stack: Seq<FrameView>, seed: Option<ScopeSeed>) -> Seq<FrameView> {
    if seed is Some && stack.len() > 0 {
        stack.drop_last()
    } else {
        stack
    }
}

/// Opens the scope of a future before it is polled.
pub fn begin_poll(stack: &mut ScopeStack, seed: &Option<ScopeSeed>)
    ensures
        final(stack)@ == (match *seed {
            Some(s) => old(stack)@.push(s.frame()),
            None => old(stack)@,
        }),
        final(stack)@ == polling(old(stack)@, *seed),
{
    if let Some(s) = seed {
        let depth: usize = push_frame(stack, s.to_frame());
    }
}

/// Closes the scope of a future after it was polled.
pub fn end_poll(stack: &mut ScopeStack, seed: &Option<ScopeSeed>)
    ensures
        final(stack)@ == (if *seed is Some && old(stack)@.len() > 0 {
            old(stack)@.drop_last()
        } else {
            old(stack)@
        }),
        final(stack)@ == polled(old(stack)@, *seed),
{
    if seed.is_some() {
        let closed = pop_frame(stack);
    }
}

/// Every poll opens the scope with nothing held back and no error seen,
/// whatever earlier polls did, and the scopes around it are open again after
/// the poll as they were before.
pub proof fn law_polls_do_not_leak(stack: Seq<FrameView>, f: FrameView, inside: FrameView)
    ensures
        seeded(f).tail.len() == 0,
        !seeded(f).seen_error,
        seeded(f).fields == f.fields,
        stack.push(seeded(f)).drop_last() == stack,
        stack.push(inside).drop_last() == stack,
{
    assert(stack.push(seeded(f)).drop_last() =~= stack);
    assert(stack.push(inside).drop_last() =~= stack);
}

/// A seed opens a scope with the fields, the kind and the capacity of its frame,
/// and with nothing that happened in it.
pub proof fn law_a_seed_keeps_the_scope(f: FrameView)
    ensures
        seeded(f).fields == f.fields,
        seeded(f).kind == f.kind,
        seeded(f).tail_capacity == f.tail_capacity,
        seeded(f).tail.len() == 0,
        !seeded(f).seen_error,
        seeded(f).traceparent_sampled is None,
        seeded(f).span is None,
{
}

/// A poll leaves the scopes around it as they were, whatever happened to its own
/// scope meanwhile; a future without a scope leaves all of them alone.
pub proof fn law_a_poll_closes_its_own_scope(
    stack: Seq<FrameView>,
    seed: ScopeSeed,
    inside: FrameView,
)
    ensures
        polling(stack, Some(seed)).last() == seed.frame(),
        polling(stack, Some(seed)).drop_last() == stack,
        polled(stack.push(inside), Some(seed)) == stack,
        polled(polling(stack, Some(seed)), Some(seed)) == stack,
        polling(stack, None) == stack,
        polled(stack, None) == stack,
{
    assert(polling(stack, Some(seed)).drop_last() =~= stack);
    assert(stack.push(inside).drop_last() =~= stack);
}

} // verus!
