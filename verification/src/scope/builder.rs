//! A frame put together step by step.

use vstd::prelude::*;

use super::frame::{self, FrameView, ScopeField, ScopeFieldView, ScopeFrame, ScopeKind};
use super::{ScopeGuard, ScopeStack};
use crate::envelope::EnvelopeView;

verus! {

/// A frame in the making.
#[derive(Debug)]
pub struct ScopeFrameBuilder {
    fields: Vec<ScopeField>,
    kind: ScopeKind,
    tail_capacity: u16,
    traceparent_sampled: Option<bool>,
    span_identity: Option<(&'static str, &'static str)>,
}

impl View for ScopeFrameBuilder {
    type V = FrameView;

    closed spec fn view(&self) -> FrameView {
        FrameView {
            traceparent_sampled: self.traceparent_sampled,
            span: match self.span_identity {
                Some((n, t)) => Some((n@, t@)),
                None => None,
            },
            ..frame::fresh_frame(frame::field_views(self.fields@), self.kind, self.tail_capacity)
        }
    }
}

/// A frame in the making has seen nothing yet, whatever was set on it.
pub proof fn law_builder_has_seen_nothing(b: ScopeFrameBuilder)
    ensures
        b@.tail.len() == 0,
        !b@.seen_error,
        frame::within_room(b@),
{
}

/// A context in the making gives a frame that never holds anything back,
/// whatever else was set on it and whatever the frame is given.
pub proof fn law_context_holds_nothing_back(b: ScopeFrameBuilder, list: Seq<EnvelopeView>)
    requires
        b@.kind == ScopeKind::Context,
    ensures
        frame::with_tails(b@, list) == b@,
        frame::with_tails(b@, list).tail.len() == 0,
{
    law_builder_has_seen_nothing(b);
    frame::law_others_hold_nothing_back(b@, list);
}

impl Default for ScopeFrameBuilder {
    fn default() -> (r: Self)
        ensures
            r@ == frame::fresh_frame(Seq::empty(), ScopeKind::Scope, 64),
    {
        ScopeFrameBuilder::new()
    }
}

impl ScopeFrameBuilder {
    /// A scope that holds 64 envelopes back and hands nothing on yet.
    #[must_use]
    pub fn new() -> (r: Self)
        ensures
            r@ == frame::fresh_frame(Seq::empty(), ScopeKind::Scope, 64),
    {
        let r = ScopeFrameBuilder {
            fields: Vec::new(),
            kind: ScopeKind::Scope,
            tail_capacity: 64,
            traceparent_sampled: None,
            span_identity: None,
        };
        proof {
            assert(r@.fields =~= Seq::<ScopeFieldView>::empty());
        }
        r
    }

    /// Makes it a context, which holds nothing back.
    #[must_use]
    pub fn context(self) -> (r: Self)
        ensures
            r@ == (FrameView { kind: ScopeKind::Context, tail_capacity: 0, ..self@ }),
    {
        let mut this = self;
        this.kind = ScopeKind::Context;
        this.tail_capacity = 0;
        this
    }

    /// Sets how many envelopes it holds back.
    #[must_use]
    pub fn tail_capacity(self, capacity: u16) -> (r: Self)
        ensures
            r@ == (FrameView { tail_capacity: capacity, ..self@ }),
    {
        let mut this = self;
        this.tail_capacity = capacity;
        this
    }

    fn field(self, field: ScopeField) -> (r: Self)
        ensures
            r@ == (FrameView { fields: self@.fields.push(field@), ..self@ }),
    {
        let mut this = self;
        let ghost was = this.fields@;
        let ghost new = field@;
        this.fields.push(field);
        proof {
            assert(frame::field_views(this.fields@) =~= frame::field_views(was).push(new));
        }
        this
    }

    /// Hands a trace on.
    #[must_use]
    pub fn trace_id(self, value: String) -> (r: Self)
        ensures
            r@ == (FrameView {
                fields: self@.fields.push(ScopeFieldView::TraceId(value@)),
                ..self@
            }),
    {
        self.field(ScopeField::TraceId(value))
    }

    /// Hands a span on.
    #[must_use]
    pub fn span_id(self, value: String) -> (r: Self)
        ensures
            r@ == (FrameView {
                fields: self@.fields.push(ScopeFieldView::SpanId(value@)),
                ..self@
            }),
    {
        self.field(ScopeField::SpanId(value))
    }

    /// Hands the parent of a span on.
    #[must_use]
    pub fn parent_span_id(self, value: String) -> (r: Self)
        ensures
            r@ == (FrameView {
                fields: self@.fields.push(ScopeFieldView::ParentSpanId(value@)),
                ..self@
            }),
    {
        self.field(ScopeField::ParentSpanId(value))
    }

    /// Hands a label on.
    #[must_use]
    pub fn label(self, name: &'static str, value: String) -> (r: Self)
        ensures
            r@ == (FrameView {
                fields: self@.fields.push(ScopeFieldView::Label(name@, value@)),
                ..self@
            }),
    {
        self.field(ScopeField::Label(name, value))
    }

    /// Notes what an upstream caller decided.
    #[must_use]
    pub fn traceparent_sampled(self, sampled: bool) -> (r: Self)
        ensures
            r@ == (FrameView { traceparent_sampled: Some(sampled), ..self@ }),
    {
        let mut this = self;
        this.traceparent_sampled = Some(sampled);
        this
    }

    /// Gives the frame the name and target of a span.
    #[must_use]
    pub fn span_identity(self, name: &'static str, target: &'static str) -> (r: Self)
        ensures
            r@ == (FrameView { span: Some((name@, target@)), ..self@ }),
    {
        let mut this = self;
        this.span_identity = Some((name, target));
        this
    }

    /// Opens the scope.
    pub fn push(self, stack: &mut ScopeStack) -> (r: ScopeGuard)
        ensures
            final(stack)@ == old(stack)@.push(self@),
            r.is_armed(),
    {
        ScopeGuard::enter_with_frame(stack, self.into_frame())
    }

    /// The frame itself.
    #[must_use]
    pub fn into_frame(self) -> (r: ScopeFrame)
        ensures
            r@ == self@,
    {
        let mut frame = ScopeFrame::new(self.fields, self.kind, self.tail_capacity);
        if let Some(sampled) = self.traceparent_sampled {
            frame.set_traceparent_sampled(sampled);
        }
        if let Some((name, target)) = self.span_identity {
            frame.set_span_identity(name, target);
        }
        frame
    }
}

} // verus!
