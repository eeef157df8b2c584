//! One frame of the scope stack.

use std::collections::VecDeque;

use vstd::prelude::*;

use crate::envelope::{EnvelopeView, ObsEnvelope};

verus! {

/// What a scope hands on to the envelopes that are emitted in it.
#[derive(Debug)]
pub enum ScopeField {
    /// The trace, for envelopes without one.
    TraceId(String),
    /// The span, for envelopes without one.
    SpanId(String),
    /// The parent of the span, for envelopes without one.
    ParentSpanId(String),
    /// A label, for envelopes that do not have it.
    Label(&'static str, String),
}

/// What a scope field holds.
pub enum ScopeFieldView {
    TraceId(Seq<char>),
    SpanId(Seq<char>),
    ParentSpanId(Seq<char>),
    Label(Seq<char>, Seq<char>),
}

impl View for ScopeField {
    type V = ScopeFieldView;

    open spec fn view(&self) -> ScopeFieldView {
        match *self {
            ScopeField::TraceId(v) => ScopeFieldView::TraceId(v@),
            ScopeField::SpanId(v) => ScopeFieldView::SpanId(v@),
            ScopeField::ParentSpanId(v) => ScopeFieldView::ParentSpanId(v@),
            ScopeField::Label(k, v) => ScopeFieldView::Label(k@, v@),
        }
    }
}

impl Clone for ScopeField {
    fn clone(&self) -> (r: Self)
        ensures
            r@ == self@,
    {
        match self {
            ScopeField::TraceId(v) => ScopeField::TraceId(v.clone()),
            ScopeField::SpanId(v) => ScopeField::SpanId(v.clone()),
            ScopeField::ParentSpanId(v) => ScopeField::ParentSpanId(v.clone()),
            ScopeField::Label(k, v) => ScopeField::Label(*k, v.clone()),
        }
    }
}

impl ScopeField {
    /// The name under which a schema declares such a field.
    #[must_use]
    pub fn name(&self) -> (r: &'static str)
        ensures
            r@ == (match self@ {
                ScopeFieldView::TraceId(_) => "trace_id"@,
                ScopeFieldView::SpanId(_) => "span_id"@,
                ScopeFieldView::ParentSpanId(_) => "parent_span_id"@,
                ScopeFieldView::Label(k, _) => k,
            }),
    {
        match self {
            ScopeField::TraceId(_) => "trace_id",
            ScopeField::SpanId(_) => "span_id",
            ScopeField::ParentSpanId(_) => "parent_span_id",
            ScopeField::Label(k, _) => *k,
        }
    }

    /// The value.
    #[must_use]
    pub fn value(&self) -> (r: &str)
        ensures
            r@ == (match self@ {
                ScopeFieldView::TraceId(v) => v,
                ScopeFieldView::SpanId(v) => v,
                ScopeFieldView::ParentSpanId(v) => v,
                ScopeFieldView::Label(_, v) => v,
            }),
    {
        match self {
            ScopeField::TraceId(v) => v.as_str(),
            ScopeField::SpanId(v) => v.as_str(),
            ScopeField::ParentSpanId(v) => v.as_str(),
            ScopeField::Label(_, v) => v.as_str(),
        }
    }
}

/// Whether a frame holds envelopes back.
#[derive(Debug, Clone, Copy, PartialEq, Eq, Structural)]
pub enum ScopeKind {
    /// It does, for the case that an error follows.
    Scope,
    /// It only hands its fields on.
    Context,
}

/// The name and target of a span.
#[derive(Debug, Clone, Copy)]
pub struct SpanFrame {
    pub name: &'static str,
    pub target: &'static str,
}

/// One frame of the scope stack.
#[derive(Debug)]
pub struct ScopeFrame {
    fields: Vec<ScopeField>,
    kind: ScopeKind,
    tail_capacity: u16,
    tail_buffer: VecDeque<ObsEnvelope>,
    seen_error: bool,
    traceparent_sampled: Option<bool>,
    span_name: Option<&'static str>,
    span_target: Option<&'static str>,
}

/// What a frame holds.
pub struct FrameView {
    pub fields: Seq<ScopeFieldView>,
    pub kind: ScopeKind,
    pub tail_capacity: u16,
    pub tail: Seq<EnvelopeView>,
    pub seen_error: bool,
    pub traceparent_sampled: Option<bool>,
    pub span: Option<(Seq<char>, Seq<char>)>,
}

/// The fields of a frame, by what they hold.
pub open spec fn field_views(fields: Seq<ScopeField>) -> Seq<ScopeFieldView> {
    fields.map_values(|f: ScopeField| f@)
}

/// Envelopes, by what they hold.
pub open spec fn envelope_views(list: Seq<ObsEnvelope>) -> Seq<EnvelopeView> {
    list.map_values(|e: ObsEnvelope| e@)
}

impl View for ScopeFrame {
    type V = FrameView;

    closed spec fn view(&self) -> FrameView {
        FrameView {
            fields: field_views(self.fields@),
            kind: self.kind,
            tail_capacity: self.tail_capacity,
            tail: envelope_views(self.tail_buffer@),
            seen_error: self.seen_error,
            traceparent_sampled: self.traceparent_sampled,
            span: match (self.span_name, self.span_target) {
                (Some(n), Some(t)) => Some((n@, t@)),
                _ => None,
            },
        }
    }
}

/// A frame that has seen nothing yet.
pub open spec fn fresh_frame(
    fields: Seq<ScopeFieldView>,
    kind: ScopeKind,
    tail_capacity: u16,
) -> FrameView {
    FrameView {
        fields,
        kind,
        tail_capacity,
        tail: Seq::empty(),
        seen_error: false,
        traceparent_sampled: None,
        span: None,
    }
}

/// Whether a frame holds envelopes back.
pub open spec fn buffers(f: FrameView) -> bool {
    f.kind == ScopeKind::Scope && f.tail_capacity > 0
}

/// The frame after it was given an envelope to hold back: the oldest makes
/// room for it where the frame is full.
pub open spec fn with_tail(f: FrameView, env: EnvelopeView) -> FrameView {
    if !buffers(f) {
        f
    } else if f.tail.len() >= f.tail_capacity {
        FrameView { tail: f.tail.skip(1).push(env), ..f }
    } else {
        FrameView { tail: f.tail.push(env), ..f }
    }
}

/// Whether a frame holds back no more envelopes than it has room for, and none
/// where it is a context.
pub open spec fn within_room(f: FrameView) -> bool {
    &&& f.tail.len() <= f.tail_capacity
    &&& f.kind == ScopeKind::Context ==> f.tail.len() == 0
}

impl ScopeFrame {
    #[verifier::type_invariant]
    spec fn is_within_room(self) -> bool {
        &&& self.tail_buffer@.len() <= self.tail_capacity
        &&& self.kind == ScopeKind::Context ==> self.tail_buffer@.len() == 0
    }

    /// A frame that has seen nothing yet.
    #[must_use]
    pub fn new(fields: Vec<ScopeField>, kind: ScopeKind, tail_capacity: u16) -> (r: Self)
        ensures
            r@ == fresh_frame(field_views(fields@), kind, tail_capacity),
            within_room(r@),
    {
        let r = ScopeFrame {
            fields,
            kind,
            tail_capacity,
            tail_buffer: VecDeque::new(),
            seen_error: false,
            traceparent_sampled: None,
            span_name: None,
            span_target: None,
        };
        proof {
            assert(r@.tail =~= Seq::<EnvelopeView>::empty());
        }
        r
    }

    /// Notes what an upstream caller decided.
    pub fn set_traceparent_sampled(&mut self, sampled: bool)
        ensures
            final(self)@ == (FrameView { traceparent_sampled: Some(sampled), ..old(self)@ }),
    {
        proof {
            use_type_invariant(&*self);
        }
        self.traceparent_sampled = Some(sampled);
    }

    /// Gives the frame the name and target of a span.
    pub fn set_span_identity(&mut self, name: &'static str, target: &'static str)
        ensures
            final(self)@ == (FrameView { span: Some((name@, target@)), ..old(self)@ }),
    {
        proof {
            use_type_invariant(&*self);
        }
        self.span_name = Some(name);
        self.span_target = Some(target);
    }

    /// What an upstream caller decided.
    #[must_use]
    pub fn traceparent_sampled(&self) -> (r: Option<bool>)
        ensures
            r == self@.traceparent_sampled,
    {
        self.traceparent_sampled
    }

    /// The fields.
    #[must_use]
    pub fn fields(&self) -> (r: &[ScopeField])
        ensures
            field_views(r@) == self@.fields,
    {
        self.fields.as_slice()
    }

    /// The kind.
    #[must_use]
    pub fn kind(&self) -> (r: ScopeKind)
        ensures
            r == self@.kind,
            within_room(self@),
    {
        proof {
            use_type_invariant(self);
        }
        self.kind
    }

    /// Whether an error was seen.
    #[must_use]
    pub fn seen_error(&self) -> (r: bool)
        ensures
            r == self@.seen_error,
    {
        self.seen_error
    }

    /// Notes that an error was seen.
    pub fn mark_error(&mut self)
        ensures
            final(self)@ == (FrameView { seen_error: true, ..old(self)@ }),
    {
        proof {
            use_type_invariant(&*self);
        }
        self.seen_error = true;
    }

    /// How many envelopes the frame holds back.
    #[must_use]
    pub fn tail_capacity(&self) -> (r: u16)
        ensures
            r == self@.tail_capacity,
            within_room(self@),
    {
        proof {
            use_type_invariant(self);
        }
        self.tail_capacity
    }

    /// Holds an envelope back, where the frame does so. Says whether it did.
    pub fn push_tail(&mut self, env: ObsEnvelope) -> (held: bool)
        ensures
            final(self)@ == with_tail(old(self)@, env@),
            within_room(old(self)@),
            within_room(final(self)@),
            held == buffers(old(self)@),
    {
        proof {
            use_type_invariant(&*self);
        }
        if self.kind == ScopeKind::Context {
            return false;
        }
        if self.tail_capacity == 0 {
            return false;
        }
        let mut tail_buffer: VecDeque<ObsEnvelope> = VecDeque::new();
        std::mem::swap(&mut tail_buffer, &mut self.tail_buffer);
        let ghost start = tail_buffer@;
        let ghost new = env@;
        if tail_buffer.len() >= self.tail_capacity as usize {
            let gone = tail_buffer.pop_front();
        }
        let ghost room = tail_buffer@;
        proof {
            assert(room == if start.len() >= self.tail_capacity {
                start.skip(1)
            } else {
                start
            });
            if start.len() >= self.tail_capacity {
                assert(envelope_views(start.skip(1)) =~= envelope_views(start).skip(1));
            }
        }
        tail_buffer.push_back(env);
        proof {
            assert(envelope_views(tail_buffer@) =~= envelope_views(room).push(new));
        }
        self.tail_buffer = tail_buffer;
        true
    }

    /// Hands out the envelopes that were held back, oldest first.
    #[must_use]
    pub fn drain_tail(&mut self) -> (r: Vec<ObsEnvelope>)
        ensures
            envelope_views(r@) == old(self)@.tail,
            within_room(old(self)@),
            final(self)@ == (FrameView { tail: Seq::empty(), ..old(self)@ }),
    {
        proof {
            use_type_invariant(&*self);
        }
        let mut out: Vec<ObsEnvelope> = Vec::new();
        let mut tail_buffer: VecDeque<ObsEnvelope> = VecDeque::new();
        std::mem::swap(&mut tail_buffer, &mut self.tail_buffer);
        proof {
            assert(envelope_views(self.tail_buffer@) =~= Seq::<EnvelopeView>::empty());
        }
        let ghost all = tail_buffer@;
        proof {
            assert(out@ + all =~= all);
        }
        while tail_buffer.len() > 0
            invariant
                out@ + tail_buffer@ == all,
            decreases tail_buffer@.len(),
        {
            let ghost left = tail_buffer@;
            let ghost was = out@;
            if let Some(env) = tail_buffer.pop_front() {
                out.push(env);
                proof {
                    assert(out@ + tail_buffer@ =~= was + left);
                }
            }
        }
        proof {
            assert(out@ + tail_buffer@ =~= out@);
        }
        out
    }

    /// Copies of the envelopes that are held back, oldest first.
    #[must_use]
    pub fn tail_snapshot(&self) -> (r: Vec<ObsEnvelope>)
        ensures
            envelope_views(r@) == self@.tail,
            within_room(self@),
    {
        proof {
            use_type_invariant(self);
        }
        let mut out: Vec<ObsEnvelope> = Vec::new();
        let mut i: usize = 0;
        while i < self.tail_buffer.len()
            invariant
                i <= self.tail_buffer@.len(),
                envelope_views(out@) =~= envelope_views(self.tail_buffer@).take(i as int),
            decreases self.tail_buffer@.len() - i,
        {
            let env = self.tail_buffer[i].clone();
            let ghost was = out@;
            let ghost new = env@;
            out.push(env);
            proof {
                assert(envelope_views(out@) =~= envelope_views(was).push(new));
            }
            i = i + 1;
        }
        out
    }

    /// The name and target of the frame's span.
    #[must_use]
    pub fn as_span_frame(&self) -> (r: Option<SpanFrame>)
        ensures
            match self@.span {
                Some((name, target)) => r matches Some(f) && f.name@ == name && f.target@ == target,
                None => r is None,
            },
    {
        match (self.span_name, self.span_target) {
            (Some(name), Some(target)) => Some(SpanFrame { name, target }),
            _ => None,
        }
    }
}

impl Clone for ScopeFrame {
    fn clone(&self) -> (r: Self)
        ensures
            r@ == self@,
    {
        proof {
            use_type_invariant(self);
        }
        let mut fields: Vec<ScopeField> = Vec::new();
        let mut i: usize = 0;
        while i < self.fields.len()
            invariant
                i <= self.fields@.len(),
                field_views(fields@) =~= field_views(self.fields@).take(i as int),
            decreases self.fields@.len() - i,
        {
            let field = self.fields[i].clone();
            let ghost was = fields@;
            let ghost new = field@;
            fields.push(field);
            proof {
                assert(field_views(fields@) =~= field_views(was).push(new));
            }
            i = i + 1;
        }
        let mut tail_buffer: VecDeque<ObsEnvelope> = VecDeque::new();
        let mut j: usize = 0;
        while j < self.tail_buffer.len()
            invariant
                j <= self.tail_buffer@.len(),
                envelope_views(tail_buffer@) =~= envelope_views(self.tail_buffer@).take(j as int),
            decreases self.tail_buffer@.len() - j,
        {
            let env = self.tail_buffer[j].clone();
            let ghost was = tail_buffer@;
            let ghost new = env@;
            tail_buffer.push_back(env);
            proof {
                assert(envelope_views(tail_buffer@) =~= envelope_views(was).push(new));
            }
            j = j + 1;
        }
        proof {
            assert(envelope_views(tail_buffer@).len() == tail_buffer@.len());
        }
        let r = ScopeFrame {
            fields,
            kind: self.kind,
            tail_capacity: self.tail_capacity,
            tail_buffer,
            seen_error: self.seen_error,
            traceparent_sampled: self.traceparent_sampled,
            span_name: self.span_name,
            span_target: self.span_target,
        };
        proof {
            assert(r@.fields =~= self@.fields);
            assert(r@.tail =~= self@.tail);
        }
        r
    }
}

/// The frame after it was given envelopes to hold back, one after the other.
pub open spec fn with_tails(f: FrameView, list: Seq<EnvelopeView>) -> FrameView
    decreases list.len(),
{
    if list.len() == 0 {
        f
    } else {
        with_tail(with_tails(f, list.drop_last()), list.last())
    }
}

/// Every frame begins within its room and stays there, whether it is given an
/// envelope to hold back or hands out those that it held.
pub proof fn law_room_is_kept(
    fields: Seq<ScopeFieldView>,
    kind: ScopeKind,
    tail_capacity: u16,
    f: FrameView,
    env: EnvelopeView,
)
    requires
        within_room(f),
    ensures
        within_room(fresh_frame(fields, kind, tail_capacity)),
        within_room(with_tail(f, env)),
        within_room((FrameView { tail: Seq::empty(), ..f })),
{
}

/// The last `n` of a list, or all of it where it is no longer.
pub open spec fn latest(list: Seq<EnvelopeView>, n: int) -> Seq<EnvelopeView> {
    if list.len() <= n {
        list
    } else {
        list.skip(list.len() - n)
    }
}

/// A frame that holds envelopes back holds the latest ones of those that it
/// held and was given, as many as it has room for, in order. Nothing else
/// about it changes.
pub proof fn law_tail_holds_the_latest(f: FrameView, list: Seq<EnvelopeView>)
    requires
        buffers(f),
        within_room(f),
    ensures
        with_tails(f, list) == (FrameView {
            tail: latest(f.tail + list, f.tail_capacity as int),
            ..f
        }),
        within_room(with_tails(f, list)),
    decreases list.len(),
{
    let room = f.tail_capacity as int;
    if list.len() == 0 {
        assert(f.tail + list =~= f.tail);
    } else {
        let front = list.drop_last();
        law_tail_holds_the_latest(f, front);
        let before = latest(f.tail + front, room);
        assert((f.tail + front).push(list.last()) =~= f.tail + list);
        if before.len() >= room {
            assert(before.skip(1).push(list.last()) =~= latest(f.tail + list, room));
        } else {
            assert(before.push(list.last()) =~= latest(f.tail + list, room));
        }
    }
}

/// A frame that holds nothing back, such as every context, stays as it is
/// whatever it is given.
pub proof fn law_others_hold_nothing_back(f: FrameView, list: Seq<EnvelopeView>)
    requires
        !buffers(f),
    ensures
        with_tails(f, list) == f,
        within_room(f) ==> with_tails(f, list).tail.len() == 0,
    decreases list.len(),
{
    if list.len() > 0 {
        law_others_hold_nothing_back(f, list.drop_last());
    }
}

/// A scope that has room for envelopes holds back each that it is given, in
/// the last place, and lets the oldest go only where it is full. A context, and
/// a scope without room, takes none.
pub proof fn law_scopes_with_room_hold_back(f: FrameView, env: EnvelopeView)
    ensures
        f.kind == ScopeKind::Scope && f.tail_capacity > 0 ==> {
            let after = with_tail(f, env);
            &&& buffers(f)
            &&& after.tail.len() > 0
            &&& after.tail.last() == env
            &&& f.tail.len() < f.tail_capacity ==> after.tail.drop_last() == f.tail
            &&& f.tail.len() == f.tail_capacity ==> after.tail.drop_last() == f.tail.drop_first()
        },
        f.kind == ScopeKind::Context || f.tail_capacity == 0 ==> !buffers(f) && with_tail(f, env)
            == f,
{
    if buffers(f) {
        let after = with_tail(f, env);
        if f.tail.len() < f.tail_capacity {
            assert(after.tail.drop_last() =~= f.tail);
        } else if f.tail.len() == f.tail_capacity {
            assert(after.tail.drop_last() =~= f.tail.drop_first());
        }
    }
}

/// A frame begins with the fields, the kind and the room that it is given, and
/// has held nothing, seen no error and heard of no caller.
pub proof fn law_a_frame_begins_empty(
    fields: Seq<ScopeFieldView>,
    kind: ScopeKind,
    tail_capacity: u16,
)
    ensures
        ({
            let f = fresh_frame(fields, kind, tail_capacity);
            &&& f.fields == fields
            &&& f.kind == kind
            &&& f.tail_capacity == tail_capacity
            &&& f.tail.len() == 0
            &&& !f.seen_error
            &&& f.traceparent_sampled is None
            &&& f.span is None
        }),
{
}

} // verus!
