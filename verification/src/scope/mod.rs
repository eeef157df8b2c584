//! Scopes: what the code around an emit hands on to its envelope.
//!
//! The scopes that are open form a stack, the innermost on top. An envelope
//! takes what it lacks from the innermost scope that has it.

pub mod builder;
pub mod frame;
pub mod guard;

use vstd::prelude::*;

pub use builder::ScopeFrameBuilder;
pub use frame::{FrameView, ScopeField, ScopeFieldView, ScopeFrame, ScopeKind, SpanFrame};
pub use guard::ScopeGuard;

use crate::envelope::{EnvelopeView, ObsEnvelope};

verus! {

/// The open scopes, the innermost last.
#[derive(Debug)]
pub struct ScopeStack {
    pub frames: Vec<ScopeFrame>,
}

/// Frames, by what they hold.
pub open spec fn frame_views(frames: Seq<ScopeFrame>) -> Seq<FrameView> {
    frames.map_values(|f: ScopeFrame| f@)
}

impl View for ScopeStack {
    type V = Seq<FrameView>;

    open spec fn view(&self) -> Seq<FrameView> {
        frame_views(self.frames@)
    }
}

/// The fields of all open scopes, those of the innermost first.
pub open spec fn fields_in_reach(frames: Seq<FrameView>) -> Seq<ScopeFieldView>
    decreases frames.len(),
{
    if frames.len() == 0 {
        Seq::empty()
    } else {
        frames.last().fields + fields_in_reach(frames.drop_last())
    }
}

/// The envelope after a field was offered to it: it takes what it lacks.
pub open spec fn filled(env: EnvelopeView, field: ScopeFieldView) -> EnvelopeView {
    match field {
        ScopeFieldView::TraceId(v) => if env.trace_id.len() == 0 {
            EnvelopeView { trace_id: v, ..env }
        } else {
            env
        },
        ScopeFieldView::SpanId(v) => if env.span_id.len() == 0 {
            EnvelopeView { span_id: v, ..env }
        } else {
            env
        },
        ScopeFieldView::ParentSpanId(v) => if env.parent_span_id.len() == 0 {
            EnvelopeView { parent_span_id: v, ..env }
        } else {
            env
        },
        ScopeFieldView::Label(k, v) => if !env.labels.contains_key(k) {
            EnvelopeView { labels: env.labels.insert(k, v), ..env }
        } else {
            env
        },
    }
}

/// The envelope after fields were offered to it, one after the other.
pub open spec fn filled_from(env: EnvelopeView, fields: Seq<ScopeFieldView>) -> EnvelopeView
    decreases fields.len(),
{
    if fields.len() == 0 {
        env
    } else {
        filled_from(filled(env, fields[0]), fields.skip(1))
    }
}

/// The first trace among the fields.
pub open spec fn first_trace(fields: Seq<ScopeFieldView>) -> Option<Seq<char>>
    decreases fields.len(),
{
    if fields.len() == 0 {
        None
    } else if let ScopeFieldView::TraceId(v) = fields[0] {
        Some(v)
    } else {
        first_trace(fields.skip(1))
    }
}

/// The first span among the fields.
pub open spec fn first_span(fields: Seq<ScopeFieldView>) -> Option<Seq<char>>
    decreases fields.len(),
{
    if fields.len() == 0 {
        None
    } else if let ScopeFieldView::SpanId(v) = fields[0] {
        Some(v)
    } else {
        first_span(fields.skip(1))
    }
}

/// What the outermost scope that knows says of an upstream decision.
pub open spec fn upstream(frames: Seq<FrameView>) -> Option<bool>
    decreases frames.len(),
{
    if frames.len() == 0 {
        None
    } else if frames[0].traceparent_sampled is Some {
        frames[0].traceparent_sampled
    } else {
        upstream(frames.skip(1))
    }
}

/// The scopes after each has seen an error.
pub open spec fn all_marked(frames: Seq<FrameView>) -> Seq<FrameView> {
    frames.map_values(|f: FrameView| FrameView { seen_error: true, ..f })
}

/// The scopes after the innermost was given an envelope to hold back.
pub open spec fn tail_pushed(frames: Seq<FrameView>, env: EnvelopeView) -> Seq<FrameView> {
    if frames.len() == 0 {
        frames
    } else {
        frames.drop_last().push(frame::with_tail(frames.last(), env))
    }
}

/// Whether the innermost scope holds envelopes back.
pub open spec fn top_buffers(frames: Seq<FrameView>) -> bool {
    frames.len() > 0 && frame::buffers(frames.last())
}

impl ScopeStack {
    /// No open scope.
    pub fn new() -> (r: Self)
        ensures
            r@ == Seq::<FrameView>::empty(),
    {
        let r = ScopeStack { frames: Vec::new() };
        proof {
            assert(r@ =~= Seq::<FrameView>::empty());
        }
        r
    }

    /// How many scopes are open.
    pub fn depth(&self) -> (n: usize)
        ensures
            n == self@.len(),
    {
        self.frames.len()
    }
}

/// The open scopes, the innermost first.
pub fn frames_innermost_first(stack: &ScopeStack) -> (r: Vec<&ScopeFrame>)
    ensures
        visited(r@) == stack@.reverse(),
{
    let n: usize = stack.frames.len();
    let mut out: Vec<&ScopeFrame> = Vec::new();
    let mut i: usize = n;
    while i > 0
        invariant
            i <= n,
            n == stack.frames@.len(),
            out@.len() == n - i,
            forall|k: int| 0 <= k < out@.len() ==> *(#[trigger] out@[k]) == stack.frames@[n - 1 - k],
        decreases i,
    {
        i = i - 1;
        out.push(&stack.frames[i]);
    }
    proof {
        assert(visited(out@) =~= stack@.reverse());
    }
    out
}

/// What frames that are looked at hold.
pub open spec fn visited(frames: Seq<&ScopeFrame>) -> Seq<FrameView> {
    frames.map_values(|f: &ScopeFrame| f@)
}

/// Hands the open scopes over, the innermost first.
pub fn with_frames_innermost_first<'a, R, F: FnOnce(Vec<&'a ScopeFrame>) -> R>(
    stack: &'a ScopeStack,
    f: F,
) -> (r: R)
    requires
        forall|frames: Vec<&'a ScopeFrame>|
            visited(frames@) == stack@.reverse() ==> #[trigger] f.requires((frames,)),
    ensures
        exists|frames: Vec<&'a ScopeFrame>|
            visited(frames@) == stack@.reverse() && #[trigger] f.ensures((frames,), r),
{
    let frames = frames_innermost_first(stack);
    f(frames)
}

/// Opens a scope. Says how many are open then.
pub fn push_frame(stack: &mut ScopeStack, frame: ScopeFrame) -> (depth: usize)
    ensures
        final(stack)@ == old(stack)@.push(frame@),
        depth == final(stack)@.len(),
{
    let ghost was = stack.frames@;
    let ghost new = frame@;
    stack.frames.push(frame);
    proof {
        assert(frame_views(stack.frames@) =~= frame_views(was).push(new));
    }
    stack.frames.len()
}

/// Closes the innermost scope.
pub fn pop_frame(stack: &mut ScopeStack) -> (r: Option<ScopeFrame>)
    ensures
        old(stack)@.len() == 0 ==> r is None && final(stack)@ == old(stack)@,
        old(stack)@.len() > 0 ==> {
            &&& r matches Some(f)
            &&& f@ == old(stack)@.last()
            &&& final(stack)@ == old(stack)@.drop_last()
        },
{
    let ghost was = stack.frames@;
    let r = stack.frames.pop();
    proof {
        if was.len() > 0 {
            assert(frame_views(stack.frames@) =~= frame_views(was).drop_last());
        }
    }
    r
}

/// Opens a scope that the caller closes with `pop_frame_pub`.
pub fn push_frame_pub(stack: &mut ScopeStack, frame: ScopeFrame)
    ensures
        final(stack)@ == old(stack)@.push(frame@),
{
    let depth: usize = push_frame(stack, frame);
}

/// Closes the innermost scope.
pub fn pop_frame_pub(stack: &mut ScopeStack) -> (r: Option<ScopeFrame>)
    ensures
        old(stack)@.len() == 0 ==> r is None && final(stack)@ == old(stack)@,
        old(stack)@.len() > 0 ==> {
            &&& r matches Some(f)
            &&& f@ == old(stack)@.last()
            &&& final(stack)@ == old(stack)@.drop_last()
        },
{
    pop_frame(stack)
}

/// Offers one field to an envelope.
fn fill_field(env: &mut ObsEnvelope, field: &ScopeField)
    ensures
        final(env)@ == filled(old(env)@, field@),
{
    match field {
        ScopeField::TraceId(v) => {
            if env.trace_id.as_str().is_empty() {
                env.trace_id = v.clone();
            }
        },
        ScopeField::SpanId(v) => {
            if env.span_id.as_str().is_empty() {
                env.span_id = v.clone();
            }
        },
        ScopeField::ParentSpanId(v) => {
            if env.parent_span_id.as_str().is_empty() {
                env.parent_span_id = v.clone();
            }
        },
        ScopeField::Label(k, v) => {
            if env.label(*k).is_none() {
                env.set_label((*k).to_string(), v.clone());
            }
        },
    }
}

/// Fills what an envelope lacks from the open scopes, the innermost first.
pub fn auto_fill_envelope(stack: &ScopeStack, env: &mut ObsEnvelope)
    ensures
        final(env)@ == filled_from(old(env)@, fields_in_reach(stack@)),
{
    let ghost frames = stack@;
    let ghost goal = filled_from(env@, fields_in_reach(frames));
    let mut n: usize = stack.frames.len();
    proof {
        assert(frames.take(n as int) =~= frames);
    }
    while n > 0
        invariant
            n <= stack.frames@.len(),
            frames == frame_views(stack.frames@),
            filled_from(env@, fields_in_reach(frames.take(n as int))) == goal,
        decreases n,
    {
        n = n - 1;
        let fields = stack.frames[n].fields();
        let ghost mine = frame::field_views(fields@);
        let ghost rest = fields_in_reach(frames.take(n as int));
        proof {
            assert(frames.take(n + 1).drop_last() =~= frames.take(n as int));
            assert(frames.take(n + 1).last() == frames[n as int]);
            assert(mine == frames[n as int].fields);
            assert(mine.skip(0) =~= mine);
        }
        let mut i: usize = 0;
        while i < fields.len()
            invariant
                i <= fields@.len(),
                mine == frame::field_views(fields@),
                filled_from(env@, mine.skip(i as int) + rest) == goal,
            decreases fields@.len() - i,
        {
            let ghost left = mine.skip(i as int) + rest;
            proof {
                assert(left[0] == fields@[i as int]@);
                assert(left.skip(1) =~= mine.skip(i + 1) + rest);
            }
            fill_field(env, &fields[i]);
            i = i + 1;
        }
        proof {
            assert(mine.skip(i as int) + rest =~= rest);
        }
    }
}

/// What the outermost scope that knows says of an upstream decision.
#[must_use]
pub fn inbound_traceparent_sampled(stack: &ScopeStack) -> (r: Option<bool>)
    ensures
        r == upstream(stack@),
{
    let ghost frames = stack@;
    let mut i: usize = 0;
    proof {
        assert(frames.skip(0) =~= frames);
    }
    while i < stack.frames.len()
        invariant
            i <= stack.frames@.len(),
            frames == frame_views(stack.frames@),
            upstream(frames) == upstream(frames.skip(i as int)),
        decreases stack.frames@.len() - i,
    {
        proof {
            assert(frames.skip(i as int)[0] == stack.frames@[i as int]@);
            assert(frames.skip(i as int).skip(1) =~= frames.skip(i + 1));
        }
        let sampled = stack.frames[i].traceparent_sampled();
        if sampled.is_some() {
            return sampled;
        }
        i = i + 1;
    }
    None
}

/// The trace and span of the open scopes, where both are known; the innermost
/// scope that knows either decides.
#[must_use]
pub fn active_correlation(stack: &ScopeStack) -> (r: Option<(String, String)>)
    ensures
        match (
            first_trace(fields_in_reach(stack@)),
            first_span(fields_in_reach(stack@)),
        ) {
            (Some(trace), Some(span)) => r matches Some(pair) && pair.0@ == trace && pair.1@ == span,
            _ => r is None,
        },
{
    let ghost frames = stack@;
    let ghost all = fields_in_reach(frames);
    let mut trace: Option<String> = None;
    let mut span: Option<String> = None;
    let mut n: usize = stack.frames.len();
    proof {
        assert(frames.take(n as int) =~= frames);
    }
    while n > 0
        invariant
            n <= stack.frames@.len(),
            frames == frame_views(stack.frames@),
            all == fields_in_reach(frames),
            found(trace, first_trace(all), first_trace(fields_in_reach(frames.take(n as int)))),
            found(span, first_span(all), first_span(fields_in_reach(frames.take(n as int)))),
        decreases n,
    {
        n = n - 1;
        let fields = stack.frames[n].fields();
        let ghost mine = frame::field_views(fields@);
        let ghost rest = fields_in_reach(frames.take(n as int));
        proof {
            assert(frames.take(n + 1).drop_last() =~= frames.take(n as int));
            assert(frames.take(n + 1).last() == frames[n as int]);
            assert(mine == frames[n as int].fields);
            assert(mine.skip(0) =~= mine);
        }
        let mut i: usize = 0;
        while i < fields.len()
            invariant
                i <= fields@.len(),
                mine == frame::field_views(fields@),
                found(trace, first_trace(all), first_trace(mine.skip(i as int) + rest)),
                found(span, first_span(all), first_span(mine.skip(i as int) + rest)),
            decreases fields@.len() - i,
        {
            let ghost left = mine.skip(i as int) + rest;
            proof {
                assert(left[0] == fields@[i as int]@);
                assert(left.skip(1) =~= mine.skip(i + 1) + rest);
            }
            match &fields[i] {
                ScopeField::TraceId(v) => {
                    if trace.is_none() {
                        trace = Some(v.clone());
                    }
                },
                ScopeField::SpanId(v) => {
                    if span.is_none() {
                        span = Some(v.clone());
                    }
                },
                _ => {},
            }
            i = i + 1;
        }
        proof {
            assert(mine.skip(i as int) + rest =~= rest);
        }
        if trace.is_some() && span.is_some() {
            return Some((trace.unwrap(), span.unwrap()));
        }
    }
    match (trace, span) {
        (Some(t), Some(s)) => Some((t, s)),
        _ => None,
    }
}

/// Whether a search stands right: what was found is the goal, and where
/// nothing was found the goal is still ahead.
spec fn found(got: Option<String>, goal: Option<Seq<char>>, ahead: Option<Seq<char>>) -> bool {
    match got {
        Some(s) => goal == Some(s@),
        None => goal == ahead,
    }
}

/// What the outermost scope that knows says of an upstream decision.
#[must_use]
pub fn active_sampled(stack: &ScopeStack) -> (r: Option<bool>)
    ensures
        r == upstream(stack@),
{
    inbound_traceparent_sampled(stack)
}

/// Gives the innermost scope an envelope to hold back. Says whether it does.
pub fn push_tail_buffer(stack: &mut ScopeStack, env: &ObsEnvelope) -> (held: bool)
    ensures
        final(stack)@ == tail_pushed(old(stack)@, env@),
        held == top_buffers(old(stack)@),
{
    let ghost start = stack@;
    match pop_frame(stack) {
        Some(frame) => {
            let mut frame = frame;
            let held = frame.push_tail(env.clone());
            let depth: usize = push_frame(stack, frame);
            held
        },
        None => false,
    }
}

/// Notes in every open scope that an error was seen.
pub fn mark_error_on_active_scopes(stack: &mut ScopeStack)
    ensures
        final(stack)@ == all_marked(old(stack)@),
{
    let ghost start = stack@;
    let mut i: usize = 0;
    let n: usize = stack.frames.len();
    while i < n
        invariant
            i <= n,
            n == start.len(),
            stack@.len() == n,
            forall|k: int| 0 <= k < i ==> stack@[k] == all_marked(start)[k],
            forall|k: int| i <= k < n ==> stack@[k] == start[k],
        decreases n - i,
    {
        let ghost was = stack.frames@;
        stack.frames[i].mark_error();
        proof {
            assert(stack@[i as int] == all_marked(start)[i as int]);
            assert forall|k: int| 0 <= k < n && k != i implies stack@[k] == frame_views(was)[k] by {
                assert(stack.frames@[k] == was[k]);
            }
        }
        i = i + 1;
    }
    proof {
        assert(stack@ =~= all_marked(start));
    }
}

/// What an envelope brings itself is never overwritten by a scope.
pub proof fn law_explicit_values_stay(env: EnvelopeView, fields: Seq<ScopeFieldView>)
    ensures
        ({
            let r = filled_from(env, fields);
            &&& env.trace_id.len() > 0 ==> r.trace_id == env.trace_id
            &&& env.span_id.len() > 0 ==> r.span_id == env.span_id
            &&& env.parent_span_id.len() > 0 ==> r.parent_span_id == env.parent_span_id
            &&& forall|k: Seq<char>| #[trigger]
                env.labels.contains_key(k) ==> r.labels.contains_pair(k, env.labels[k])
            &&& r == (EnvelopeView {
                trace_id: r.trace_id,
                span_id: r.span_id,
                parent_span_id: r.parent_span_id,
                labels: r.labels,
                ..env
            })
        }),
    decreases fields.len(),
{
    if fields.len() > 0 {
        law_explicit_values_stay(filled(env, fields[0]), fields.skip(1));
        assert forall|k: Seq<char>| #[trigger] env.labels.contains_key(k) implies filled_from(
            env,
            fields,
        ).labels.contains_pair(k, env.labels[k]) by {
            assert(filled(env, fields[0]).labels.contains_key(k));
        }
    }
}

/// A label that an envelope lacks comes from the innermost scope that has it,
/// and every label in reach is taken.
pub proof fn law_first_label_in_reach_wins(
    env: EnvelopeView,
    fields: Seq<ScopeFieldView>,
    i: int,
    k: Seq<char>,
    v: Seq<char>,
)
    requires
        0 <= i < fields.len(),
        fields[i] == ScopeFieldView::Label(k, v),
        !env.labels.contains_key(k),
        forall|j: int|
            0 <= j < i ==> !(#[trigger] fields[j] matches ScopeFieldView::Label(other, _) && other
                == k),
    ensures
        filled_from(env, fields).labels.contains_pair(k, v),
    decreases fields.len(),
{
    let next = filled(env, fields[0]);
    if i == 0 {
        law_explicit_values_stay(next, fields.skip(1));
        assert(next.labels.contains_key(k));
    } else {
        assert(fields.skip(1)[i - 1] == fields[i]);
        assert forall|j: int| 0 <= j < i - 1 implies !(#[trigger] fields.skip(1)[j] matches
            ScopeFieldView::Label(other, _) && other == k) by {
            assert(fields.skip(1)[j] == fields[j + 1]);
        }
        assert(!(fields[0] matches ScopeFieldView::Label(other, _) && other == k));
        law_first_label_in_reach_wins(next, fields.skip(1), i - 1, k, v);
    }
}

/// An envelope without a trace takes the first one in reach that is not empty;
/// where there is none, it stays without.
pub proof fn law_first_trace_in_reach_wins(
    env: EnvelopeView,
    fields: Seq<ScopeFieldView>,
    i: int,
    v: Seq<char>,
)
    requires
        env.trace_id.len() == 0,
        0 <= i <= fields.len(),
        i < fields.len() ==> fields[i] == ScopeFieldView::TraceId(v) && v.len() > 0,
        forall|j: int|
            0 <= j < i ==> (#[trigger] fields[j] matches ScopeFieldView::TraceId(o) ==> o.len()
                == 0),
    ensures
        i < fields.len() ==> filled_from(env, fields).trace_id == v,
        i == fields.len() ==> filled_from(env, fields).trace_id.len() == 0,
    decreases fields.len(),
{
    if fields.len() > 0 {
        let next = filled(env, fields[0]);
        if i == 0 {
            law_explicit_values_stay(next, fields.skip(1));
        } else {
            assert forall|j: int| 0 <= j < i - 1 implies (#[trigger] fields.skip(1)[j] matches
                ScopeFieldView::TraceId(o) ==> o.len() == 0) by {
                assert(fields.skip(1)[j] == fields[j + 1]);
            }
            assert(fields[0] matches ScopeFieldView::TraceId(o) ==> o.len() == 0);
            if i < fields.len() {
                assert(fields.skip(1)[i - 1] == fields[i]);
            }
            law_first_trace_in_reach_wins(next, fields.skip(1), i - 1, v);
        }
    }
}

/// An envelope without a span takes the first one in reach that is not empty;
/// where there is none, it stays without.
pub proof fn law_first_span_in_reach_wins(
    env: EnvelopeView,
    fields: Seq<ScopeFieldView>,
    i: int,
    v: Seq<char>,
)
    requires
        env.span_id.len() == 0,
        0 <= i <= fields.len(),
        i < fields.len() ==> fields[i] == ScopeFieldView::SpanId(v) && v.len() > 0,
        forall|j: int|
            0 <= j < i ==> (#[trigger] fields[j] matches ScopeFieldView::SpanId(o) ==> o.len()
                == 0),
    ensures
        i < fields.len() ==> filled_from(env, fields).span_id == v,
        i == fields.len() ==> filled_from(env, fields).span_id.len() == 0,
    decreases fields.len(),
{
    if fields.len() > 0 {
        let next = filled(env, fields[0]);
        if i == 0 {
            law_explicit_values_stay(next, fields.skip(1));
        } else {
            assert forall|j: int| 0 <= j < i - 1 implies (#[trigger] fields.skip(1)[j] matches
                ScopeFieldView::SpanId(o) ==> o.len() == 0) by {
                assert(fields.skip(1)[j] == fields[j + 1]);
            }
            assert(fields[0] matches ScopeFieldView::SpanId(o) ==> o.len() == 0);
            if i < fields.len() {
                assert(fields.skip(1)[i - 1] == fields[i]);
            }
            law_first_span_in_reach_wins(next, fields.skip(1), i - 1, v);
        }
    }
}

/// An envelope without the parent of a span takes the first one in reach that is not empty;
/// where there is none, it stays without.
pub proof fn law_first_parent_in_reach_wins(
    env: EnvelopeView,
    fields: Seq<ScopeFieldView>,
    i: int,
    v: Seq<char>,
)
    requires
        env.parent_span_id.len() == 0,
        0 <= i <= fields.len(),
        i < fields.len() ==> fields[i] == ScopeFieldView::ParentSpanId(v) && v.len() > 0,
        forall|j: int|
            0 <= j < i ==> (#[trigger] fields[j] matches ScopeFieldView::ParentSpanId(o) ==> o.len()
                == 0),
    ensures
        i < fields.len() ==> filled_from(env, fields).parent_span_id == v,
        i == fields.len() ==> filled_from(env, fields).parent_span_id.len() == 0,
    decreases fields.len(),
{
    if fields.len() > 0 {
        let next = filled(env, fields[0]);
        if i == 0 {
            law_explicit_values_stay(next, fields.skip(1));
        } else {
            assert forall|j: int| 0 <= j < i - 1 implies (#[trigger] fields.skip(1)[j] matches
                ScopeFieldView::ParentSpanId(o) ==> o.len() == 0) by {
                assert(fields.skip(1)[j] == fields[j + 1]);
            }
            assert(fields[0] matches ScopeFieldView::ParentSpanId(o) ==> o.len() == 0);
            if i < fields.len() {
                assert(fields.skip(1)[i - 1] == fields[i]);
            }
            law_first_parent_in_reach_wins(next, fields.skip(1), i - 1, v);
        }
    }
}

/// An envelope takes no label but those in reach.
pub proof fn law_no_label_comes_from_elsewhere(
    env: EnvelopeView,
    fields: Seq<ScopeFieldView>,
    k: Seq<char>,
)
    requires
        !env.labels.contains_key(k),
        forall|i: int|
            0 <= i < fields.len() ==> !(#[trigger] fields[i] matches ScopeFieldView::Label(o, _)
                && o == k),
    ensures
        !filled_from(env, fields).labels.contains_key(k),
    decreases fields.len(),
{
    if fields.len() > 0 {
        assert(!(fields[0] matches ScopeFieldView::Label(o, _) && o == k));
        assert forall|i: int| 0 <= i < fields.skip(1).len() implies !(#[trigger] fields.skip(
            1,
        )[i] matches ScopeFieldView::Label(o, _) && o == k) by {
            assert(fields.skip(1)[i] == fields[i + 1]);
        }
        law_no_label_comes_from_elsewhere(filled(env, fields[0]), fields.skip(1), k);
    }
}

/// Where the `j`-th field of the `i`-th scope stands among the fields in reach:
/// behind those of every scope inside that one and those before it, and behind
/// nothing else.
pub open spec fn place_in_reach(frames: Seq<FrameView>, i: int, j: int) -> int
    decreases frames.len(),
{
    if frames.len() == 0 || i >= frames.len() - 1 {
        j
    } else {
        frames.last().fields.len() + place_in_reach(frames.drop_last(), i, j)
    }
}

/// Every field of every open scope is in reach, each at its place.
pub proof fn law_every_field_is_in_reach(frames: Seq<FrameView>, i: int, j: int)
    requires
        0 <= i < frames.len(),
        0 <= j < frames[i].fields.len(),
    ensures
        0 <= place_in_reach(frames, i, j) < fields_in_reach(frames).len(),
        fields_in_reach(frames)[place_in_reach(frames, i, j)] == frames[i].fields[j],
    decreases frames.len(),
{
    if i < frames.len() - 1 {
        law_every_field_is_in_reach(frames.drop_last(), i, j);
    }
}

/// What is in reach is a field of an open scope.
proof fn lemma_reach_source(frames: Seq<FrameView>, p: int) -> (r: (int, int))
    requires
        0 <= p < fields_in_reach(frames).len(),
    ensures
        0 <= r.0 < frames.len(),
        0 <= r.1 < frames[r.0].fields.len(),
        place_in_reach(frames, r.0, r.1) == p,
    decreases frames.len(),
{
    let n = frames.last().fields.len() as int;
    if p < n {
        (frames.len() - 1, p)
    } else {
        let r = lemma_reach_source(frames.drop_last(), p - n);
        r
    }
}

proof fn lemma_inner_is_before(frames: Seq<FrameView>, i: int, j: int, a: int, b: int)
    requires
        0 <= i < frames.len(),
        0 <= j < frames[i].fields.len(),
        0 <= a < frames.len(),
        0 <= b < frames[a].fields.len(),
        place_in_reach(frames, a, b) < place_in_reach(frames, i, j),
    ensures
        a > i || (a == i && b < j),
    decreases frames.len(),
{
    if i < frames.len() - 1 && a < frames.len() - 1 {
        lemma_inner_is_before(frames.drop_last(), i, j, a, b);
    } else if a < frames.len() - 1 {
        law_every_field_is_in_reach(frames.drop_last(), a, b);
    }
}

/// A label that an envelope lacks comes from the innermost open scope that has
/// it, though scopes around that one have it too.
pub proof fn law_innermost_scope_wins(
    env: EnvelopeView,
    frames: Seq<FrameView>,
    i: int,
    j: int,
    k: Seq<char>,
    v: Seq<char>,
)
    requires
        !env.labels.contains_key(k),
        0 <= i < frames.len(),
        0 <= j < frames[i].fields.len(),
        frames[i].fields[j] == ScopeFieldView::Label(k, v),
        forall|a: int, b: int|
            #![trigger frames[a].fields[b]]
            0 <= a < frames.len() && 0 <= b < frames[a].fields.len() && (a > i || (a == i && b < j))
                ==> !(frames[a].fields[b] matches ScopeFieldView::Label(o, _) && o == k),
    ensures
        filled_from(env, fields_in_reach(frames)).labels.contains_pair(k, v),
{
    let all = fields_in_reach(frames);
    let p = place_in_reach(frames, i, j);
    law_every_field_is_in_reach(frames, i, j);
    assert forall|q: int| 0 <= q < p implies !(#[trigger] all[q] matches ScopeFieldView::Label(o, _)
        && o == k) by {
        let (a, b) = lemma_reach_source(frames, q);
        law_every_field_is_in_reach(frames, a, b);
        lemma_inner_is_before(frames, i, j, a, b);
        assert(all[q] == frames[a].fields[b]);
    }
    law_first_label_in_reach_wins(env, all, p, k, v);
}

/// An envelope without a span takes that of the innermost open scope that has
/// one, and likewise its trace and the parent of its span.
pub proof fn law_innermost_ids_win(
    env: EnvelopeView,
    frames: Seq<FrameView>,
    i: int,
    j: int,
    field: ScopeFieldView,
)
    requires
        0 <= i < frames.len(),
        0 <= j < frames[i].fields.len(),
        field == frames[i].fields[j],
        forall|a: int, b: int|
            #![trigger frames[a].fields[b]]
            0 <= a < frames.len() && 0 <= b < frames[a].fields.len() && (a > i || (a == i && b < j))
                ==> match (field, frames[a].fields[b]) {
                (ScopeFieldView::TraceId(_), ScopeFieldView::TraceId(o)) => o.len() == 0,
                (ScopeFieldView::SpanId(_), ScopeFieldView::SpanId(o)) => o.len() == 0,
                (ScopeFieldView::ParentSpanId(_), ScopeFieldView::ParentSpanId(o)) => o.len() == 0,
                _ => true,
            },
    ensures
        ({
            let r = filled_from(env, fields_in_reach(frames));
            match field {
                ScopeFieldView::TraceId(v) => env.trace_id.len() == 0 && v.len() > 0
                    ==> r.trace_id == v,
                ScopeFieldView::SpanId(v) => env.span_id.len() == 0 && v.len() > 0 ==> r.span_id
                    == v,
                ScopeFieldView::ParentSpanId(v) => env.parent_span_id.len() == 0 && v.len() > 0
                    ==> r.parent_span_id == v,
                ScopeFieldView::Label(_, _) => true,
            }
        }),
{
    let all = fields_in_reach(frames);
    let p = place_in_reach(frames, i, j);
    law_every_field_is_in_reach(frames, i, j);
    assert forall|q: int| 0 <= q < p implies (match (field, #[trigger] all[q]) {
        (ScopeFieldView::TraceId(_), ScopeFieldView::TraceId(o)) => o.len() == 0,
        (ScopeFieldView::SpanId(_), ScopeFieldView::SpanId(o)) => o.len() == 0,
        (ScopeFieldView::ParentSpanId(_), ScopeFieldView::ParentSpanId(o)) => o.len() == 0,
        _ => true,
    }) by {
        let (a, b) = lemma_reach_source(frames, q);
        law_every_field_is_in_reach(frames, a, b);
        lemma_inner_is_before(frames, i, j, a, b);
        assert(all[q] == frames[a].fields[b]);
    }
    match field {
        ScopeFieldView::TraceId(v) => {
            if env.trace_id.len() == 0 && v.len() > 0 {
                law_first_trace_in_reach_wins(env, all, p, v);
            }
        },
        ScopeFieldView::SpanId(v) => {
            if env.span_id.len() == 0 && v.len() > 0 {
                law_first_span_in_reach_wins(env, all, p, v);
            }
        },
        ScopeFieldView::ParentSpanId(v) => {
            if env.parent_span_id.len() == 0 && v.len() > 0 {
                law_first_parent_in_reach_wins(env, all, p, v);
            }
        },
        _ => {},
    }
}

/// The trace and the span that correlate are each the first in reach.
pub proof fn law_correlation_is_the_first_in_reach(
    fields: Seq<ScopeFieldView>,
    i: int,
    v: Seq<char>,
)
    requires
        0 <= i <= fields.len(),
    ensures
        i < fields.len() && fields[i] == ScopeFieldView::TraceId(v) && (forall|j: int|
            0 <= j < i ==> !(#[trigger] fields[j] is TraceId)) ==> first_trace(fields) == Some(v),
        i < fields.len() && fields[i] == ScopeFieldView::SpanId(v) && (forall|j: int|
            0 <= j < i ==> !(#[trigger] fields[j] is SpanId)) ==> first_span(fields) == Some(v),
        (forall|j: int| 0 <= j < fields.len() ==> !(#[trigger] fields[j] is TraceId))
            ==> first_trace(fields) is None,
        (forall|j: int| 0 <= j < fields.len() ==> !(#[trigger] fields[j] is SpanId)) ==> first_span(
            fields,
        ) is None,
    decreases fields.len(),
{
    if fields.len() > 0 {
        let tail = fields.skip(1);
        assert forall|j: int| 0 <= j < tail.len() implies #[trigger] tail[j] == fields[j + 1] by {}
        assert(fields[0] == fields[0]);
        if i > 0 {
            law_correlation_is_the_first_in_reach(tail, i - 1, v);
        } else {
            law_correlation_is_the_first_in_reach(tail, 0, v);
        }
    }
}

/// What an upstream caller decided is what the outermost open scope that knows
/// of it says; where none does, nothing is known.
pub proof fn law_outermost_upstream_decision_counts(frames: Seq<FrameView>, i: int)
    requires
        0 <= i <= frames.len(),
        forall|j: int| 0 <= j < i ==> (#[trigger] frames[j]).traceparent_sampled is None,
        i < frames.len() ==> frames[i].traceparent_sampled is Some,
    ensures
        upstream(frames) == (if i < frames.len() {
            frames[i].traceparent_sampled
        } else {
            None
        }),
    decreases frames.len(),
{
    if frames.len() > 0 {
        assert(i > 0 ==> frames[0].traceparent_sampled is None);
        let tail = frames.skip(1);
        assert forall|j: int| 0 <= j < tail.len() implies #[trigger] tail[j] == frames[j + 1] by {}
        if i > 0 {
            law_outermost_upstream_decision_counts(tail, i - 1);
        }
    }
}

/// An error marks every open scope, and changes nothing else about any.
pub proof fn law_an_error_marks_every_scope(frames: Seq<FrameView>, i: int)
    requires
        0 <= i < frames.len(),
    ensures
        all_marked(frames).len() == frames.len(),
        all_marked(frames)[i].seen_error,
        all_marked(frames)[i].tail == frames[i].tail,
        all_marked(frames)[i].fields == frames[i].fields,
        all_marked(frames)[i].kind == frames[i].kind,
        all_marked(frames)[i].tail_capacity == frames[i].tail_capacity,
        all_marked(frames)[i].traceparent_sampled == frames[i].traceparent_sampled,
        all_marked(frames)[i].span == frames[i].span,
{
}

/// Only the innermost scope is given an envelope to hold back. It holds the
/// envelope last where it is no context and has room, and the scopes around it
/// stay as they are.
pub proof fn law_only_the_innermost_scope_holds(
    frames: Seq<FrameView>,
    env: EnvelopeView,
    i: int,
)
    requires
        0 <= i < frames.len(),
    ensures
        ({
            let after = tail_pushed(frames, env);
            let top = frames.last();
            let holds = top.kind == ScopeKind::Scope && top.tail_capacity > 0;
            &&& after.len() == frames.len()
            &&& i < frames.len() - 1 ==> after[i] == frames[i]
            &&& top_buffers(frames) == holds
            &&& holds ==> after.last().tail.len() > 0 && after.last().tail.last() == env
            &&& !holds ==> after == frames
            &&& after.last() == (FrameView { tail: after.last().tail, ..top })
        }),
        !top_buffers(Seq::<FrameView>::empty()),
{
    if !frame::buffers(frames.last()) {
        assert(tail_pushed(frames, env) =~= frames);
    }
}

} // verus!
