//! The open scopes, kept to be shown with an error.

use vstd::prelude::*;

use crate::scope::frame::{self, FrameView, ScopeField, ScopeFieldView, ScopeFrame};
use crate::scope::{self, ScopeStack};
use crate::text::{self, copy_opt, copy_pairs, push_decimal};

verus! {

/// One scope.
#[derive(Debug)]
pub struct CapturedFrame {
    /// The name of its span.
    pub name: Option<String>,
    /// The target of its span.
    pub target: Option<String>,
    /// Its fields, by their names.
    pub fields: Vec<(String, String)>,
}

/// One scope.
pub struct CapturedView {
    pub name: Option<Seq<char>>,
    pub target: Option<Seq<char>>,
    pub fields: Seq<(Seq<char>, Seq<char>)>,
}

/// Names and values.
pub open spec fn pair_views(list: Seq<(String, String)>) -> Seq<(Seq<char>, Seq<char>)> {
    list.map_values(|p: (String, String)| (p.0@, p.1@))
}

impl View for CapturedFrame {
    type V = CapturedView;

    open spec fn view(&self) -> CapturedView {
        CapturedView {
            name: text::opt_text(self.name),
            target: text::opt_text(self.target),
            fields: pair_views(self.fields@),
        }
    }
}

/// The open scopes, the outermost first.
#[derive(Debug)]
pub struct SpanTrace {
    frames: Vec<CapturedFrame>,
}

/// Scopes, by what they are.
pub open spec fn captured_views(list: Seq<CapturedFrame>) -> Seq<CapturedView> {
    list.map_values(|f: CapturedFrame| f@)
}

impl View for SpanTrace {
    type V = Seq<CapturedView>;

    closed spec fn view(&self) -> Seq<CapturedView> {
        captured_views(self.frames@)
    }
}

/// The name and the value of a field.
pub open spec fn named(field: ScopeFieldView) -> (Seq<char>, Seq<char>) {
    match field {
        ScopeFieldView::TraceId(v) => ("trace_id"@, v),
        ScopeFieldView::SpanId(v) => ("span_id"@, v),
        ScopeFieldView::ParentSpanId(v) => ("parent_span_id"@, v),
        ScopeFieldView::Label(k, v) => (k, v),
    }
}

/// What is kept of a scope.
pub open spec fn captured(f: FrameView) -> CapturedView {
    CapturedView {
        name: match f.span {
            Some((name, _)) => Some(name),
            None => None,
        },
        target: match f.span {
            Some((_, target)) => Some(target),
            None => None,
        },
        fields: f.fields.map_values(|field: ScopeFieldView| named(field)),
    }
}

/// What is kept of a scope.
fn capture_frame(f: &ScopeFrame) -> (r: CapturedFrame)
    ensures
        r@ == captured(f@),
{
    let list = f.fields();
    let ghost goal = captured(f@).fields;
    let mut fields: Vec<(String, String)> = Vec::new();
    let mut i: usize = 0;
    while i < list.len()
        invariant
            i <= list@.len(),
            goal == frame::field_views(list@).map_values(|field: ScopeFieldView| named(field)),
            pair_views(fields@) =~= goal.take(i as int),
        decreases list@.len() - i,
    {
        let pair = match &list[i] {
            ScopeField::TraceId(v) => ("trace_id".to_string(), v.clone()),
            ScopeField::SpanId(v) => ("span_id".to_string(), v.clone()),
            ScopeField::ParentSpanId(v) => ("parent_span_id".to_string(), v.clone()),
            ScopeField::Label(k, v) => ((*k).to_string(), v.clone()),
        };
        let ghost was = fields@;
        let ghost new = (pair.0@, pair.1@);
        fields.push(pair);
        proof {
            assert(pair_views(fields@) =~= pair_views(was).push(new));
        }
        i = i + 1;
    }
    proof {
        assert(goal.take(i as int) =~= goal);
    }
    match f.as_span_frame() {
        Some(span) => CapturedFrame {
            name: Some(span.name.to_string()),
            target: Some(span.target.to_string()),
            fields,
        },
        None => CapturedFrame { name: None, target: None, fields },
    }
}

/// Names and values, with commas between them.
pub open spec fn pairs_text(pairs: Seq<(Seq<char>, Seq<char>)>) -> Seq<char>
    decreases pairs.len(),
{
    if pairs.len() == 0 {
        Seq::empty()
    } else {
        (if pairs.len() == 1 {
            Seq::empty()
        } else {
            pairs_text(pairs.drop_last()) + ", "@
        }) + (pairs.last().0.push('=') + pairs.last().1)
    }
}

/// The depth and the name in the line of a scope.
pub open spec fn frame_head(depth: nat, f: CapturedView) -> Seq<char> {
    "  "@ + text::decimal(depth) + ": "@ + (match f.name {
        Some(name) => name,
        None => "<scope>"@,
    })
}

/// The target in the line of a scope.
pub open spec fn frame_target(f: CapturedView) -> Seq<char> {
    match f.target {
        Some(t) => " @ "@ + t,
        None => Seq::empty(),
    }
}

/// The fields in the line of a scope.
pub open spec fn frame_fields(f: CapturedView) -> Seq<char> {
    if f.fields.len() > 0 {
        " ["@ + pairs_text(f.fields) + "]"@
    } else {
        Seq::empty()
    }
}

/// The line of a scope.
pub open spec fn frame_line(depth: nat, f: CapturedView) -> Seq<char> {
    (frame_head(depth, f) + frame_target(f) + frame_fields(f)).push('\n')
}

/// The lines of scopes, the innermost first.
pub open spec fn frame_lines(frames: Seq<CapturedView>, depth: nat) -> Seq<char>
    decreases frames.len(),
{
    if frames.len() == 0 {
        Seq::empty()
    } else {
        frame_line(depth, frames.last()) + frame_lines(frames.drop_last(), depth + 1)
    }
}

/// The scopes as text.
pub open spec fn trace_text(frames: Seq<CapturedView>) -> Seq<char> {
    if frames.len() == 0 {
        "(no obs scope active)"@
    } else {
        frame_lines(frames, 0)
    }
}

/// Appends names and values, with commas between them.
fn push_pairs(out: &mut String, pairs: &Vec<(String, String)>)
    ensures
        final(out)@ == old(out)@ + pairs_text(pair_views(pairs@)),
{
    let ghost start = out@;
    let ghost views = pair_views(pairs@);
    let mut i: usize = 0;
    proof {
        assert(views.take(0) =~= Seq::<(Seq<char>, Seq<char>)>::empty());
        assert(out@ =~= start + pairs_text(views.take(0)));
    }
    while i < pairs.len()
        invariant
            i <= pairs@.len(),
            views == pair_views(pairs@),
            out@ == start + pairs_text(views.take(i as int)),
        decreases pairs@.len() - i,
    {
        let ghost now = views.take(i + 1);
        if i > 0 {
            out.append(", ");
        }
        out.append(pairs[i].0.as_str());
        out.push('=');
        out.append(pairs[i].1.as_str());
        proof {
            assert(now.drop_last() =~= views.take(i as int));
            assert(now.last() == views[i as int]);
            assert(out@ =~= start + pairs_text(now));
        }
        i = i + 1;
    }
    proof {
        assert(views.take(i as int) =~= views);
    }
}

/// Appends the line of a scope.
fn push_frame_line(out: &mut String, depth: usize, f: &CapturedFrame)
    ensures
        final(out)@ == old(out)@ + frame_line(depth as nat, f@),
{
    let ghost start = out@;
    out.append("  ");
    push_decimal(out, depth as u64);
    out.append(": ");
    match &f.name {
        Some(name) => out.append(name.as_str()),
        None => out.append("<scope>"),
    }
    let ghost s1 = start + frame_head(depth as nat, f@);
    assert(out@ =~= s1);
    if let Some(t) = &f.target {
        out.append(" @ ");
        out.append(t.as_str());
    }
    let ghost s2 = s1 + frame_target(f@);
    assert(out@ =~= s2);
    if f.fields.len() > 0 {
        out.append(" [");
        push_pairs(out, &f.fields);
        out.append("]");
    }
    assert(out@ =~= s2 + frame_fields(f@));
    out.push('\n');
    assert(out@ =~= start + frame_line(depth as nat, f@));
}

impl Clone for CapturedFrame {
    fn clone(&self) -> (r: Self)
        ensures
            r@ == self@,
    {
        CapturedFrame {
            name: copy_opt(&self.name),
            target: copy_opt(&self.target),
            fields: copy_pairs(&self.fields),
        }
    }
}

impl Clone for SpanTrace {
    fn clone(&self) -> (r: Self)
        ensures
            r@ == self@,
    {
        let mut frames: Vec<CapturedFrame> = Vec::new();
        let mut i: usize = 0;
        while i < self.frames.len()
            invariant
                i <= self.frames@.len(),
                captured_views(frames@) =~= captured_views(self.frames@).take(i as int),
            decreases self.frames@.len() - i,
        {
            let f = self.frames[i].clone();
            let ghost was = frames@;
            let ghost new = f@;
            frames.push(f);
            proof {
                assert(captured_views(frames@) =~= captured_views(was).push(new));
            }
            i = i + 1;
        }
        let r = SpanTrace { frames };
        proof {
            assert(r@ =~= self@);
        }
        r
    }
}

impl Default for SpanTrace {
    fn default() -> (r: Self)
        ensures
            r@ == Seq::<CapturedView>::empty(),
    {
        let r = SpanTrace { frames: Vec::new() };
        proof {
            assert(r@ =~= Seq::<CapturedView>::empty());
        }
        r
    }
}

impl SpanTrace {
    /// Keeps the open scopes.
    #[must_use]
    pub fn capture(stack: &ScopeStack) -> (r: Self)
        ensures
            r@ == stack@.map_values(|f: FrameView| captured(f)),
    {
        let ghost goal = stack@.map_values(|f: FrameView| captured(f));
        let mut frames: Vec<CapturedFrame> = Vec::new();
        let mut i: usize = 0;
        while i < stack.frames.len()
            invariant
                i <= stack.frames@.len(),
                goal == scope::frame_views(stack.frames@).map_values(|f: FrameView| captured(f)),
                captured_views(frames@) =~= goal.take(i as int),
            decreases stack.frames@.len() - i,
        {
            let kept = capture_frame(&stack.frames[i]);
            let ghost was = frames@;
            let ghost new = kept@;
            frames.push(kept);
            proof {
                assert(captured_views(frames@) =~= captured_views(was).push(new));
            }
            i = i + 1;
        }
        proof {
            assert(goal.take(i as int) =~= goal);
        }
        SpanTrace { frames }
    }

    /// Whether no scope was open.
    #[must_use]
    pub fn is_empty(&self) -> (r: bool)
        ensures
            r == (self@.len() == 0),
    {
        self.frames.len() == 0
    }

    /// How many scopes were open.
    #[must_use]
    pub fn len(&self) -> (n: usize)
        ensures
            n == self@.len(),
    {
        self.frames.len()
    }

    /// The scopes as text, the innermost first, each on a line of its own.
    pub fn render(&self) -> (r: String)
        ensures
            r@ == trace_text(self@),
    {
        let size: usize = self.frames.len();
        if size == 0 {
            return "(no obs scope active)".to_string();
        }
        let ghost views = self@;
        let mut out = String::new();
        let mut n: usize = size;
        proof {
            assert(views.take(n as int) =~= views);
            assert(out@ + frame_lines(views, 0) =~= frame_lines(views, 0));
        }
        while n > 0
            invariant
                n <= size,
                size == self.frames@.len(),
                views == captured_views(self.frames@),
                out@ + frame_lines(views.take(n as int), (size - n) as nat) == frame_lines(
                    views,
                    0,
                ),
            decreases n,
        {
            let ghost was = out@;
            let ghost front = views.take(n as int);
            push_frame_line(&mut out, size - n, &self.frames[n - 1]);
            proof {
                assert(front.drop_last() =~= views.take(n - 1));
                assert(front.last() == self.frames@[n - 1]@);
                assert(out@ + frame_lines(views.take(n - 1), (size - n + 1) as nat) =~= was
                    + frame_lines(front, (size - n) as nat));
            }
            n = n - 1;
        }
        proof {
            assert(views.take(0) =~= Seq::<CapturedView>::empty());
            assert(out@ =~= frame_lines(views, 0));
        }
        out
    }
}

/// A field keeps its value under its name.
pub proof fn law_fields_have_their_names(k: Seq<char>, v: Seq<char>)
    ensures
        named(ScopeFieldView::TraceId(v)) == ("trace_id"@, v),
        named(ScopeFieldView::SpanId(v)) == ("span_id"@, v),
        named(ScopeFieldView::ParentSpanId(v)) == ("parent_span_id"@, v),
        named(ScopeFieldView::Label(k, v)) == (k, v),
{
}

/// Of a scope its fields are kept, in their order, and the name and the target
/// of its span where it has one.
pub proof fn law_a_scope_is_captured_whole(f: FrameView, i: int)
    ensures
        captured(f).fields.len() == f.fields.len(),
        0 <= i < f.fields.len() ==> captured(f).fields[i] == named(f.fields[i]),
        f.span matches Some(s) ==> captured(f).name == Some(s.0) && captured(f).target == Some(s.1),
        f.span is None ==> captured(f).name is None && captured(f).target is None,
{
}

/// The innermost scope is told first, at depth zero, and each one around it one
/// deeper.
pub proof fn law_scopes_are_told_from_the_inside(
    frames: Seq<CapturedView>,
    f: CapturedView,
    depth: nat,
)
    ensures
        frame_lines(frames.push(f), depth) == frame_line(depth, f) + frame_lines(frames, depth + 1),
        trace_text(frames.push(f)) == frame_line(0, f) + frame_lines(frames, 1),
        frame_lines(Seq::empty(), depth).len() == 0,
        trace_text(Seq::empty()) == "(no obs scope active)"@,
{
    assert(frames.push(f).drop_last() =~= frames);
}

/// A line says the depth, the name, the target and the fields, and leaves out
/// what the scope has not.
pub proof fn law_a_line_says_what_the_scope_has(
    depth: nat,
    name: Seq<char>,
    target: Seq<char>,
    fields: Seq<(Seq<char>, Seq<char>)>,
)
    requires
        fields.len() > 0,
    ensures
        frame_line(depth, CapturedView { name: Some(name), target: Some(target), fields }) == "  "@
            + text::decimal(depth) + ": "@ + name + " @ "@ + target + " ["@ + pairs_text(fields)
            + "]\n"@,
        frame_line(
            depth,
            CapturedView { name: Some(name), target: Some(target), fields: Seq::empty() },
        ) == "  "@ + text::decimal(depth) + ": "@ + name + " @ "@ + target + "\n"@,
        frame_line(depth, CapturedView { name: None, target: None, fields }) == "  "@
            + text::decimal(depth) + ": <scope> ["@ + pairs_text(fields) + "]\n"@,
{
    reveal_strlit("]");
    reveal_strlit("]\n");
    reveal_strlit("\n");
    reveal_strlit(": ");
    reveal_strlit("<scope>");
    reveal_strlit(" [");
    reveal_strlit(": <scope> [");
    let none = Seq::<(Seq<char>, Seq<char>)>::empty();
    assert(frame_line(depth, CapturedView { name: Some(name), target: Some(target), fields })
        =~= "  "@ + text::decimal(depth) + ": "@ + name + " @ "@ + target + " ["@ + pairs_text(
        fields,
    ) + "]\n"@);
    assert(frame_line(
        depth,
        CapturedView { name: Some(name), target: Some(target), fields: none },
    ) =~= "  "@ + text::decimal(depth) + ": "@ + name + " @ "@ + target + "\n"@);
    assert(": "@ + "<scope>"@ + " ["@ =~= ": <scope> ["@);
    assert(frame_line(depth, CapturedView { name: None, target: None, fields }) =~= "  "@
        + text::decimal(depth) + (": "@ + "<scope>"@ + " ["@) + pairs_text(fields) + "]\n"@);
}

/// Fields are told in their order as names and values, with commas between them.
pub proof fn law_pairs_are_told_in_order(
    pairs: Seq<(Seq<char>, Seq<char>)>,
    key: Seq<char>,
    value: Seq<char>,
)
    ensures
        pairs.len() > 0 ==> pairs_text(pairs.push((key, value))) == pairs_text(pairs) + ", "@ + key
            + "="@ + value,
        pairs_text(seq![(key, value)]) == key + "="@ + value,
{
    reveal_strlit("=");
    let all = pairs.push((key, value));
    let one = seq![(key, value)];
    assert(all.drop_last() =~= pairs);
    assert(all.last() == (key, value));
    assert(pairs_text(one) =~= key + "="@ + value);
    if pairs.len() > 0 {
        assert(pairs_text(all) =~= pairs_text(pairs) + ", "@ + key + "="@ + value);
    }
}

} // verus!
