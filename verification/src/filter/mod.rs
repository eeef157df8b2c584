//! The filter: which emit sites and which events are wanted.
//!
//! A filter is a list of directives between commas. A bare level or `off` sets
//! the floor for everything that no other directive is about. A target sets it
//! for the modules and events under that target. Label clauses make a
//! directive dynamic: it is held against the labels of each event.

pub mod fault;
pub mod grammar;

use vstd::prelude::*;
use vstd::slice::slice_subrange;
use vstd::utf8::*;

pub use grammar::{Directive, DirectiveView};

use crate::callsite::{Interest, ObsCallsite};
use crate::envelope::ObsEnvelope;
use crate::filter::fault::failure_text;
use crate::text::{self, chars_eq, chars_of, text_eq, text_of, trim};
use crate::text_map::TextMap;
use crate::types::Severity;

verus! {

/// A filter as it was read.
pub struct FilterView {
    pub default_level: Severity,
    pub default_off: bool,
    pub statics: Seq<DirectiveView>,
    pub dynamics: Seq<DirectiveView>,
}

/// The filter that lets everything from `Info` on pass.
pub open spec fn open_filter() -> FilterView {
    FilterView {
        default_level: Severity::Info,
        default_off: false,
        statics: Seq::empty(),
        dynamics: Seq::empty(),
    }
}

/// The filter `f` with one more directive.
pub open spec fn with_directive(f: FilterView, d: DirectiveView) -> FilterView {
    if d.fields.len() > 0 {
        FilterView { dynamics: f.dynamics.push(d), ..f }
    } else if d.target is Some {
        FilterView { statics: f.statics.push(d), ..f }
    } else if d.off {
        FilterView { default_off: true, ..f }
    } else {
        FilterView { default_level: d.level, default_off: false, ..f }
    }
}

/// How a character moves the splitter on: how deep it is in brackets, and
/// whether it is inside a quoted value there.
pub open spec fn split_state(c: char, depth: int, quoted: bool) -> (int, bool) {
    if c == '"' && depth > 0 {
        (depth, !quoted)
    } else if c == '[' && !quoted {
        (depth + 1, quoted)
    } else if c == ']' && !quoted {
        (depth - 1, quoted)
    } else {
        (depth, quoted)
    }
}

/// Whether a character ends a directive.
pub open spec fn is_split(c: char, depth: int, quoted: bool) -> bool {
    c == ',' && depth == 0 && !quoted
}

/// `s` cut at the commas that stand outside brackets.
pub open spec fn pieces(s: Seq<char>, depth: int, quoted: bool) -> Seq<Seq<char>>
    decreases s.len(),
{
    if s.len() == 0 {
        seq![Seq::empty()]
    } else if is_split(s[0], depth, quoted) {
        seq![Seq::<char>::empty()] + pieces(s.skip(1), depth, quoted)
    } else {
        let (d, q) = split_state(s[0], depth, quoted);
        let tail = pieces(s.skip(1), d, q);
        tail.update(0, seq![s[0]] + tail[0])
    }
}

/// What is said of a text that spells no directive, where `left` is the end of
/// it that begins at the fault.
pub open spec fn malformed_text(s: Seq<char>, left: Seq<char>) -> Seq<char> {
    fault::parse_failure(s, (s.len() - left.len()) as nat)
}

/// Whether what is said of a directive of one line is the directive with a
/// caret at the fault.
pub open spec fn points_at_fault(said: Seq<char>, s: Seq<char>, left: Seq<char>) -> bool {
    !s.contains('\n') ==> said == fault::pointed_at(s, (s.len() - left.len()) as nat)
}

/// The filter `f` with the directives that `list` spells, or the first piece
/// that spells none and the end of it that begins at the fault. Blank pieces
/// are passed over.
pub open spec fn with_pieces(
    f: FilterView,
    list: Seq<Seq<char>>,
) -> Result<FilterView, (Seq<char>, Seq<char>)>
    decreases list.len(),
{
    if list.len() == 0 {
        Ok(f)
    } else {
        let piece = text::trimmed(list[0]);
        if piece.len() == 0 {
            with_pieces(f, list.skip(1))
        } else {
            match grammar::directive_of(piece) {
                Ok(d) => with_pieces(with_directive(f, d), list.skip(1)),
                Err(left) => Err((piece, left)),
            }
        }
    }
}

/// Whether `s` is `target` or lies under it: what follows the target begins
/// with `.` or `::`.
pub open spec fn under(s: Seq<char>, target: Seq<char>) -> bool {
    let n = target.len() as int;
    s == target || (target.is_prefix_of(s) && s.len() > n && (s[n] == '.' || (s[n] == ':' && s.len()
        > n + 1 && s[n + 1] == ':')))
}

/// Whether a static directive is about an emit site.
pub open spec fn is_about(d: DirectiveView, full_name: Seq<char>, module: Seq<char>) -> bool {
    match d.target {
        Some(t) => under(full_name, t) || under(module, t),
        None => false,
    }
}

/// How long the target of a directive is, in bytes.
pub open spec fn target_len(d: DirectiveView) -> nat {
    match d.target {
        Some(t) => encode_utf8(t).len(),
        None => 0,
    }
}

/// The directive that decides for an emit site: the one with the longest
/// target, the first of those that are as long.
pub open spec fn deciding(
    statics: Seq<DirectiveView>,
    full_name: Seq<char>,
    module: Seq<char>,
) -> Option<DirectiveView>
    decreases statics.len(),
{
    if statics.len() == 0 {
        None
    } else {
        let best = deciding(statics.drop_last(), full_name, module);
        let d = statics.last();
        if is_about(d, full_name, module) && (match best {
            Some(b) => target_len(d) > target_len(b),
            None => true,
        }) {
            Some(d)
        } else {
            best
        }
    }
}

/// Whether a static decision lets a severity pass; where no directive decides,
/// the floor does.
pub open spec fn passes_statics(
    f: FilterView,
    full_name: Seq<char>,
    module: Seq<char>,
    sev: Severity,
) -> bool {
    match deciding(f.statics, full_name, module) {
        Some(d) => !d.off && sev.rank() >= d.level.rank(),
        None => !f.default_off && sev.rank() >= f.default_level.rank(),
    }
}

/// Whether a dynamic directive can be about events of this name.
pub open spec fn names_event(d: DirectiveView, full_name: Seq<char>) -> bool {
    d.target == Some(full_name) || d.target is None
}

/// Whether some dynamic directive can be about events of this name.
pub open spec fn has_dynamic(f: FilterView, full_name: Seq<char>) -> bool {
    exists|i: int| 0 <= i < f.dynamics.len() && names_event(#[trigger] f.dynamics[i], full_name)
}

/// What the filter has to say of an emit site before there is an event.
pub open spec fn interest_of(
    f: FilterView,
    full_name: Seq<char>,
    module: Seq<char>,
    sev: Severity,
) -> Interest {
    if has_dynamic(f, full_name) {
        Interest::Sometimes
    } else if passes_statics(f, full_name, module, sev) {
        Interest::Always
    } else {
        Interest::Never
    }
}

/// Whether the labels are all that the clauses ask for.
pub open spec fn labels_match(
    fields: Seq<(Seq<char>, Seq<char>)>,
    labels: Map<Seq<char>, Seq<char>>,
) -> bool {
    forall|i: int|
        0 <= i < fields.len() ==> labels.contains_pair(
            (#[trigger] fields[i]).0,
            fields[i].1,
        )
}

/// The first dynamic directive with the given target whose clauses match.
pub open spec fn first_match(
    dynamics: Seq<DirectiveView>,
    target: Option<Seq<char>>,
    labels: Map<Seq<char>, Seq<char>>,
) -> Option<DirectiveView>
    decreases dynamics.len(),
{
    if dynamics.len() == 0 {
        None
    } else if dynamics[0].target == target && labels_match(dynamics[0].fields, labels) {
        Some(dynamics[0])
    } else {
        first_match(dynamics.skip(1), target, labels)
    }
}

/// The dynamic directive that decides for an event: one that names the event
/// goes before one that names none.
pub open spec fn dynamic_for(
    f: FilterView,
    full_name: Seq<char>,
    labels: Map<Seq<char>, Seq<char>>,
) -> Option<DirectiveView> {
    match first_match(f.dynamics, Some(full_name), labels) {
        Some(d) => Some(d),
        None => first_match(f.dynamics, None, labels),
    }
}

/// Whether an event is wanted.
pub open spec fn allows(
    f: FilterView,
    full_name: Seq<char>,
    labels: Map<Seq<char>, Seq<char>>,
    sev: Severity,
) -> bool {
    match dynamic_for(f, full_name, labels) {
        Some(d) => !d.off && sev.rank() >= d.level.rank(),
        None => passes_statics(f, full_name, Seq::empty(), sev),
    }
}

// ---------------------------------------------------------------------------
// The filter.
// ---------------------------------------------------------------------------
/// A filter that was read.
#[derive(Debug)]
pub struct Filter {
    default_level: Severity,
    default_off: bool,
    statics: Vec<Directive>,
    dynamics: Vec<Directive>,
}

/// What the directives say.
pub open spec fn directive_views(list: Seq<Directive>) -> Seq<DirectiveView> {
    list.map_values(|d: Directive| d@)
}

impl View for Filter {
    type V = FilterView;

    closed spec fn view(&self) -> FilterView {
        FilterView {
            default_level: self.default_level,
            default_off: self.default_off,
            statics: directive_views(self.statics@),
            dynamics: directive_views(self.dynamics@),
        }
    }
}

/// A filter could not be read.
#[derive(Debug)]
pub enum FilterParseError {
    /// A directive makes no sense. The text shows the directive and where the
    /// fault is.
    Malformed(String),
}

impl FilterParseError {
    /// The message for a person.
    pub fn message(&self) -> (r: String)
        ensures
            r@ == "malformed filter directive: "@ + (match *self {
                FilterParseError::Malformed(d) => d@,
            }),
    {
        let mut out = String::new();
        out.append("malformed filter directive: ");
        match self {
            FilterParseError::Malformed(d) => out.append(d.as_str()),
        }
        proof {
            assert(Seq::<char>::empty() + "malformed filter directive: "@
                =~= "malformed filter directive: "@);
        }
        out
    }
}

/// Cuts a filter at the commas that stand outside brackets.
fn split_directives(s: &[char]) -> (out: Vec<&[char]>)
    ensures
        out@.map_values(|p: &[char]| p@) == pieces(s@, 0, false),
{
    let mut out: Vec<&[char]> = Vec::new();
    let mut depth: i128 = 0;
    let mut quoted: bool = false;
    let mut start: usize = 0;
    let mut i: usize = 0;
    let ghost whole = pieces(s@, 0, false);
    proof {
        assert(s@.skip(0) =~= s@);
        lemma_pieces_len(s@, 0, false);
        assert(s@.subrange(0, 0) + whole[0] =~= whole[0]);
        assert(out@.map_values(|p: &[char]| p@) + whole.update(
            0,
            s@.subrange(0, 0) + whole[0],
        ) =~= whole);
    }
    while i < s.len()
        invariant
            start <= i <= s@.len(),
            -(i as int) <= depth <= i,
            pieces(s@.skip(i as int), depth as int, quoted).len() > 0,
            ({
                let tail = pieces(s@.skip(i as int), depth as int, quoted);
                whole == out@.map_values(|p: &[char]| p@) + tail.update(
                    0,
                    s@.subrange(start as int, i as int) + tail[0],
                )
            }),
        decreases s@.len() - i,
    {
        let c = s[i];
        let ghost before = out@.map_values(|p: &[char]| p@);
        let ghost tail = pieces(s@.skip(i as int), depth as int, quoted);
        let ghost here = s@.subrange(start as int, i as int);
        proof {
            assert(s@.skip(i as int).skip(1) =~= s@.skip(i + 1));
            assert(s@.skip(i as int)[0] == c);
        }
        if c == ',' && depth == 0 && !quoted {
            out.push(slice_subrange(s, start, i));
            start = i + 1;
            proof {
                let next = pieces(s@.skip(i + 1), depth as int, quoted);
                lemma_pieces_len(s@.skip(i + 1), depth as int, quoted);
                assert(here + Seq::<char>::empty() =~= here);
                assert(out@.map_values(|p: &[char]| p@) =~= before.push(here));
                assert(s@.subrange(start as int, i + 1) + next[0] =~= next[0]);
                assert(before + tail.update(0, here + tail[0]) =~= before.push(here) + next.update(
                    0,
                    s@.subrange(start as int, i + 1) + next[0],
                ));
            }
        } else {
            if c == '"' && depth > 0 {
                quoted = !quoted;
            } else if c == '[' && !quoted {
                depth = depth + 1;
            } else if c == ']' && !quoted {
                depth = depth - 1;
            }
            proof {
                let next = pieces(s@.skip(i + 1), depth as int, quoted);
                lemma_pieces_len(s@.skip(i + 1), depth as int, quoted);
                assert(here + (seq![c] + next[0]) =~= s@.subrange(start as int, i + 1) + next[0]);
                assert(tail.update(0, here + tail[0]) =~= next.update(
                    0,
                    s@.subrange(start as int, i + 1) + next[0],
                ));
            }
        }
        i = i + 1;
    }
    let ghost before = out@.map_values(|p: &[char]| p@);
    out.push(slice_subrange(s, start, s.len()));
    proof {
        let last = s@.subrange(start as int, s@.len() as int);
        assert(last + Seq::<char>::empty() =~= last);
        assert(out@.map_values(|p: &[char]| p@) =~= before.push(last));
        assert(before + seq![Seq::<char>::empty()].update(0, last) =~= before.push(last));
    }
    out
}

proof fn lemma_pieces_len(s: Seq<char>, depth: int, quoted: bool)
    ensures
        pieces(s, depth, quoted).len() > 0,
    decreases s.len(),
{
    if s.len() > 0 {
        let (d, q) = split_state(s[0], depth, quoted);
        lemma_pieces_len(s.skip(1), d, q);
        lemma_pieces_len(s.skip(1), depth, quoted);
    }
}

/// Copies directives.
fn copy_directives(list: &Vec<Directive>) -> (r: Vec<Directive>)
    ensures
        directive_views(r@) == directive_views(list@),
{
    let mut out: Vec<Directive> = Vec::new();
    let mut i: usize = 0;
    while i < list.len()
        invariant
            i <= list@.len(),
            directive_views(out@) =~= directive_views(list@).take(i as int),
        decreases list@.len() - i,
    {
        let d = list[i].clone();
        let ghost was = out@;
        let ghost new = d@;
        out.push(d);
        proof {
            assert(directive_views(out@) =~= directive_views(was).push(new));
        }
        i = i + 1;
    }
    out
}

impl Clone for Filter {
    fn clone(&self) -> (r: Self)
        ensures
            r@ == self@,
    {
        Filter {
            default_level: self.default_level,
            default_off: self.default_off,
            statics: copy_directives(&self.statics),
            dynamics: copy_directives(&self.dynamics),
        }
    }
}

impl Default for Filter {
    fn default() -> (r: Self)
        ensures
            r@ == open_filter(),
    {
        Filter::new()
    }
}

/// Whether `s` is `target` or lies under it.
fn matches_segment(s: &[char], target: &[char]) -> (r: bool)
    ensures
        r == under(s@, target@),
{
    let n: usize = target.len();
    if s.len() < n {
        return false;
    }
    let front = slice_subrange(s, 0, n);
    if !chars_eq(front, target) {
        proof {
            if target@.is_prefix_of(s@) {
                assert(front@ =~= target@);
            }
            assert(s@ == target@ ==> front@ =~= target@);
        }
        return false;
    }
    proof {
        assert(target@.is_prefix_of(s@)) by {
            assert(s@.subrange(0, n as int) =~= target@);
        }
        if s@.len() == n {
            assert(s@ =~= target@);
        }
    }
    s.len() == n || s[n] == '.' || (s[n] == ':' && s.len() - n > 1 && s[n + 1] == ':')
}

/// Whether the labels of an event are all that a directive asks for.
fn directive_matches_env(d: &Directive, env: &ObsEnvelope) -> (r: bool)
    ensures
        r == labels_match(d@.fields, env@.labels),
{
    let mut i: usize = 0;
    while i < d.fields.len()
        invariant
            i <= d.fields@.len(),
            forall|k: int|
                0 <= k < i ==> env@.labels.contains_pair((#[trigger] d@.fields[k]).0, d@.fields[k].1),
        decreases d.fields@.len() - i,
    {
        let (key, value) = &d.fields[i];
        proof {
            assert(d@.fields[i as int] == (key@, value@));
        }
        match env.label(key.as_str()) {
            Some(actual) => {
                if !text_eq(actual, value.as_str()) {
                    return false;
                }
            },
            None => return false,
        }
        i = i + 1;
    }
    true
}

impl Filter {
    /// The filter that lets everything from `Info` on pass.
    #[must_use]
    pub fn new() -> (r: Self)
        ensures
            r@ == open_filter(),
    {
        let r = Filter {
            default_level: Severity::Info,
            default_off: false,
            statics: Vec::new(),
            dynamics: Vec::new(),
        };
        proof {
            assert(r@.statics =~= Seq::<DirectiveView>::empty());
            assert(r@.dynamics =~= Seq::<DirectiveView>::empty());
        }
        r
    }

    /// Reads a filter.
    ///
    /// # Errors
    ///
    /// The first piece that is no directive, such as `=info`, is reported, with
    /// the place of the fault.
    pub fn parse(s: &str) -> (r: Result<Self, FilterParseError>)
        ensures
            match with_pieces(open_filter(), pieces(s@, 0, false)) {
                Ok(f) => r matches Ok(filter) && filter@ == f,
                Err((piece, left)) => {
                    &&& r matches Err(FilterParseError::Malformed(m))
                    &&& m@ == malformed_text(piece, left)
                    &&& points_at_fault(m@, piece, left)
                },
            },
    {
        let chars = chars_of(s);
        let list = split_directives(chars.as_slice());
        let ghost views = list@.map_values(|p: &[char]| p@);
        let mut filter = Filter::new();
        let mut i: usize = 0;
        proof {
            assert(views.skip(0) =~= views);
        }
        while i < list.len()
            invariant
                i <= list@.len(),
                views == list@.map_values(|p: &[char]| p@),
                with_pieces(open_filter(), views) == with_pieces(filter@, views.skip(i as int)),
                views == pieces(s@, 0, false),
            decreases list@.len() - i,
        {
            proof {
                assert(views.skip(i as int).skip(1) =~= views.skip(i + 1));
                assert(views[i as int] == list@[i as int]@);
            }
            let piece = trim(list[i]);
            if piece.len() > 0 {
                match filter.add_piece(piece) {
                    Ok(()) => {},
                    Err(e) => return Err(e),
                }
            }
            i = i + 1;
        }
        Ok(filter)
    }

    /// Adds the directive that a trimmed piece spells.
    fn add_piece(&mut self, piece: &[char]) -> (r: Result<(), FilterParseError>)
        ensures
            match grammar::directive_of(piece@) {
                Ok(d) => r is Ok && final(self)@ == with_directive(old(self)@, d),
                Err(left) => {
                    &&& r matches Err(FilterParseError::Malformed(m))
                    &&& m@ == malformed_text(piece@, left)
                    &&& points_at_fault(m@, piece@, left)
                    &&& final(self)@ == old(self)@
                },
            },
    {
        let directive = match grammar::read_directive(piece) {
            Ok(d) => d,
            Err(left) => {
                let at: usize = piece.len() - left.len();
                let shown = text_of(piece);
                return Err(FilterParseError::Malformed(failure_text(shown.as_str(), at)));
            },
        };
        let ghost d = directive@;
        proof {
            assert(d.fields.len() == directive.fields@.len());
        }
        if directive.fields.len() > 0 {
            let ghost was = self.dynamics@;
            self.dynamics.push(directive);
            proof {
                assert(directive_views(self.dynamics@) =~= directive_views(was).push(d));
            }
        } else if directive.target.is_some() {
            let ghost was = self.statics@;
            self.statics.push(directive);
            proof {
                assert(directive_views(self.statics@) =~= directive_views(was).push(d));
            }
        } else if directive.off {
            self.default_off = true;
        } else {
            self.default_level = directive.level;
            self.default_off = false;
        }
        Ok(())
    }

    /// Adds one directive.
    ///
    /// # Errors
    ///
    /// What is no directive is reported, and the filter stays as it was.
    pub fn add_directive(&mut self, raw: &str) -> (r: Result<(), FilterParseError>)
        ensures
            match grammar::directive_of(text::trimmed(raw@)) {
                Ok(d) => r is Ok && final(self)@ == with_directive(old(self)@, d),
                Err(left) => {
                    &&& r matches Err(FilterParseError::Malformed(m))
                    &&& m@ == malformed_text(text::trimmed(raw@), left)
                    &&& points_at_fault(m@, text::trimmed(raw@), left)
                    &&& final(self)@ == old(self)@
                },
            },
    {
        let chars = chars_of(raw);
        self.add_piece(trim(chars.as_slice()))
    }

    /// The directive that decides for an emit site.
    fn static_level_for(&self, full_name: &[char], module: &[char]) -> (r: Option<&Directive>)
        ensures
            match deciding(self@.statics, full_name@, module@) {
                Some(d) => r matches Some(directive) && directive@ == d,
                None => r is None,
            },
    {
        let ghost views = self@.statics;
        let mut best: Option<&Directive> = None;
        let mut i: usize = 0;
        proof {
            assert(views.take(0) =~= Seq::<DirectiveView>::empty());
        }
        while i < self.statics.len()
            invariant
                i <= self.statics@.len(),
                views == directive_views(self.statics@),
                match deciding(views.take(i as int), full_name@, module@) {
                    Some(d) => best matches Some(directive) && directive@ == d,
                    None => best is None,
                },
            decreases self.statics@.len() - i,
        {
            let d = &self.statics[i];
            proof {
                assert(views.take(i + 1).drop_last() =~= views.take(i as int));
                assert(views.take(i + 1).last() == d@);
            }
            if let Some(target) = &d.target {
                let chars = chars_of(target.as_str());
                if matches_segment(full_name, chars.as_slice()) || matches_segment(
                    module,
                    chars.as_slice(),
                ) {
                    let longer = match best {
                        Some(b) => match &b.target {
                            Some(t) => target.as_str().as_bytes().len()
                                > t.as_str().as_bytes().len(),
                            None => target.as_str().as_bytes().len() > 0,
                        },
                        None => true,
                    };
                    if longer {
                        best = Some(d);
                    }
                }
            }
            i = i + 1;
        }
        proof {
            assert(views.take(i as int) =~= views);
        }
        best
    }

    /// Whether the static directives, or the floor, let a severity pass.
    fn static_allows(&self, full_name: &[char], module: &[char], sev: Severity) -> (r: bool)
        ensures
            r == passes_statics(self@, full_name@, module@, sev),
    {
        match self.static_level_for(full_name, module) {
            Some(d) => !d.off && sev.at_least(d.level),
            None => !self.default_off && sev.at_least(self.default_level),
        }
    }

    /// Whether some dynamic directive can be about events of this name.
    fn has_dynamic_for(&self, full_name: &str) -> (r: bool)
        ensures
            r == has_dynamic(self@, full_name@),
    {
        let mut i: usize = 0;
        while i < self.dynamics.len()
            invariant
                i <= self.dynamics@.len(),
                forall|k: int| 0 <= k < i ==> !names_event(#[trigger] self@.dynamics[k], full_name@),
            decreases self.dynamics@.len() - i,
        {
            proof {
                assert(self@.dynamics[i as int] == self.dynamics@[i as int]@);
            }
            match &self.dynamics[i].target {
                Some(t) => {
                    if text_eq(t.as_str(), full_name) {
                        return true;
                    }
                },
                None => return true,
            }
            i = i + 1;
        }
        false
    }

    /// What the filter has to say of an emit site before there is an event.
    #[must_use]
    pub fn callsite_interest(&self, callsite: &ObsCallsite) -> (r: Interest)
        ensures
            r == interest_of(
                self@,
                callsite@.full_name,
                callsite@.module,
                callsite@.default_sev,
            ),
    {
        if self.has_dynamic_for(callsite.full_name()) {
            return Interest::Sometimes;
        }
        let full_name = chars_of(callsite.full_name());
        let module = chars_of(callsite.module());
        if self.static_allows(full_name.as_slice(), module.as_slice(), callsite.default_sev()) {
            Interest::Always
        } else {
            Interest::Never
        }
    }

    /// The first dynamic directive with the given target whose clauses match.
    fn first_dynamic(&self, target: Option<&str>, env: &ObsEnvelope) -> (r: Option<&Directive>)
        ensures
            ({
                let t = match target {
                    Some(name) => Some(name@),
                    None => None::<Seq<char>>,
                };
                match first_match(self@.dynamics, t, env@.labels) {
                    Some(d) => r matches Some(directive) && directive@ == d,
                    None => r is None,
                }
            }),
    {
        let ghost t = match target {
            Some(name) => Some(name@),
            None => None::<Seq<char>>,
        };
        let ghost views = self@.dynamics;
        let mut i: usize = 0;
        proof {
            assert(views.skip(0) =~= views);
        }
        while i < self.dynamics.len()
            invariant
                i <= self.dynamics@.len(),
                views == directive_views(self.dynamics@),
                t == (match target {
                    Some(name) => Some(name@),
                    None => None::<Seq<char>>,
                }),
                first_match(views, t, env@.labels) == first_match(
                    views.skip(i as int),
                    t,
                    env@.labels,
                ),
            decreases self.dynamics@.len() - i,
        {
            let d = &self.dynamics[i];
            proof {
                assert(views.skip(i as int)[0] == d@);
                assert(views.skip(i as int).skip(1) =~= views.skip(i + 1));
            }
            let named = match (&d.target, target) {
                (Some(a), Some(b)) => text_eq(a.as_str(), b),
                (None, None) => true,
                _ => false,
            };
            if named && directive_matches_env(d, env) {
                return Some(d);
            }
            i = i + 1;
        }
        None
    }

    /// Whether an event is wanted.
    #[must_use]
    pub fn event_allowed(&self, env: &ObsEnvelope, callsite_sev: Severity) -> (r: bool)
        ensures
            r == allows(self@, env@.full_name, env@.labels, callsite_sev),
    {
        if let Some(d) = self.first_dynamic(Some(env.full_name.as_str()), env) {
            return !d.off && callsite_sev.at_least(d.level);
        }
        if let Some(d) = self.first_dynamic(None, env) {
            return !d.off && callsite_sev.at_least(d.level);
        }
        let full_name = chars_of(env.full_name.as_str());
        let module: Vec<char> = Vec::new();
        self.static_allows(full_name.as_slice(), module.as_slice(), callsite_sev)
    }

    /// The floor for what no directive is about.
    #[must_use]
    pub fn default_level(&self) -> (r: Severity)
        ensures
            r == self@.default_level,
    {
        self.default_level
    }

    /// The static directives, in the order in which they were given.
    pub fn statics(&self) -> (r: &Vec<Directive>)
        ensures
            directive_views(r@) == self@.statics,
    {
        &self.statics
    }

    /// The dynamic directives, in the order in which they were given.
    pub fn dynamics(&self) -> (r: &Vec<Directive>)
        ensures
            directive_views(r@) == self@.dynamics,
    {
        &self.dynamics
    }
}

impl std::str::FromStr for Filter {
    type Err = FilterParseError;

    fn from_str(s: &str) -> (r: Result<Self, FilterParseError>)
        ensures
            match with_pieces(open_filter(), pieces(s@, 0, false)) {
                Ok(f) => r matches Ok(filter) && filter@ == f,
                Err((piece, left)) => {
                    &&& r matches Err(FilterParseError::Malformed(m))
                    &&& m@ == malformed_text(piece, left)
                    &&& points_at_fault(m@, piece, left)
                },
            },
    {
        Filter::parse(s)
    }
}

// ---------------------------------------------------------------------------
// The labels that a filter asks for.
// ---------------------------------------------------------------------------
/// Whether a directive asks for the label `key`, and how often.
pub open spec fn times_asked(fields: Seq<(Seq<char>, Seq<char>)>, key: Seq<char>) -> nat
    decreases fields.len(),
{
    if fields.len() == 0 {
        0
    } else {
        times_asked(fields.drop_last(), key) + (if fields.last().0 == key {
            1nat
        } else {
            0
        })
    }
}

/// The text of a directive's target, empty where it has none.
pub open spec fn target_text(d: DirectiveView) -> Seq<char> {
    match d.target {
        Some(t) => t,
        None => Seq::empty(),
    }
}

/// The targets that ask for the label `key`: one for each clause, in order.
pub open spec fn targets_asking(dynamics: Seq<DirectiveView>, key: Seq<char>) -> Seq<Seq<char>>
    decreases dynamics.len(),
{
    if dynamics.len() == 0 {
        Seq::empty()
    } else {
        let d = dynamics.last();
        targets_asking(dynamics.drop_last(), key) + Seq::new(
            times_asked(d.fields, key),
            |i: int| target_text(d),
        )
    }
}

fn targets_of(dynamics: &Vec<Directive>, key: &str) -> (r: Vec<String>)
    ensures
        text::texts(r@) == targets_asking(directive_views(dynamics@), key@),
{
    let ghost views = directive_views(dynamics@);
    let mut out: Vec<String> = Vec::new();
    let mut i: usize = 0;
    proof {
        assert(views.take(0) =~= Seq::<DirectiveView>::empty());
        assert(text::texts(out@) =~= Seq::<Seq<char>>::empty());
    }
    while i < dynamics.len()
        invariant
            i <= dynamics@.len(),
            views == directive_views(dynamics@),
            text::texts(out@) == targets_asking(views.take(i as int), key@),
        decreases dynamics@.len() - i,
    {
        let d = &dynamics[i];
        let ghost start = text::texts(out@);
        let ghost fields = d@.fields;
        let mut j: usize = 0;
        proof {
            assert(views.take(i + 1).drop_last() =~= views.take(i as int));
            assert(views.take(i + 1).last() == d@);
            assert(fields.take(0) =~= Seq::<(Seq<char>, Seq<char>)>::empty());
            assert(start + Seq::new(0, |k: int| target_text(d@)) =~= start);
        }
        while j < d.fields.len()
            invariant
                j <= d.fields@.len(),
                fields == d@.fields,
                text::texts(out@) == start + Seq::new(
                    times_asked(fields.take(j as int), key@),
                    |k: int| target_text(d@),
                ),
            decreases d.fields@.len() - j,
        {
            proof {
                assert(fields.take(j + 1).drop_last() =~= fields.take(j as int));
                assert(fields.take(j + 1).last() == fields[j as int]);
                assert(fields[j as int].0 == d.fields@[j as int].0@);
            }
            if text_eq(d.fields[j].0.as_str(), key) {
                let name = match &d.target {
                    Some(t) => t.clone(),
                    None => String::new(),
                };
                let ghost was = out@;
                out.push(name);
                proof {
                    assert(text::texts(out@) =~= text::texts(was).push(target_text(d@)));
                    let n = times_asked(fields.take(j as int), key@);
                    assert(start + Seq::new(n, |k: int| target_text(d@)).push(target_text(d@))
                        =~= start + Seq::new(n + 1, |k: int| target_text(d@)));
                }
            }
            j = j + 1;
        }
        proof {
            assert(fields.take(j as int) =~= fields);
        }
        i = i + 1;
    }
    proof {
        assert(views.take(i as int) =~= views);
    }
    out
}

/// Whether some clause among the first `n` directives asks for the label.
pub open spec fn asks_for(dynamics: Seq<DirectiveView>, key: Seq<char>) -> bool {
    exists|i: int, j: int|
        0 <= i < dynamics.len() && 0 <= j < dynamics[i].fields.len() && (
        #[trigger] dynamics[i].fields[j]).0 == key
}

/// The labels that a filter asks for, each with the targets of the clauses
/// that do.
#[must_use]
pub fn referenced_label_keys(filter: &Filter) -> (out: TextMap<Vec<String>>)
    ensures
        forall|key: Seq<char>|
            #![trigger out@.contains_key(key)]
            {
                &&& out@.contains_key(key) <==> asks_for(filter@.dynamics, key)
                &&& out@.contains_key(key) ==> text::texts(out@[key]@) == targets_asking(
                    filter@.dynamics,
                    key,
                )
            },
{
    let ghost views = filter@.dynamics;
    let mut out: TextMap<Vec<String>> = TextMap::new();
    let dynamics = filter.dynamics();
    let mut i: usize = 0;
    while i < dynamics.len()
        invariant
            i <= dynamics@.len(),
            views == directive_views(dynamics@),
            forall|key: Seq<char>|
                #![trigger out@.contains_key(key)]
                {
                    &&& out@.contains_key(key) <==> asks_for(views.take(i as int), key)
                    &&& out@.contains_key(key) ==> text::texts(out@[key]@) == targets_asking(views, key)
                },
        decreases dynamics@.len() - i,
    {
        let d = &dynamics[i];
        let ghost fields = d@.fields;
        let mut j: usize = 0;
        while j < d.fields.len()
            invariant
                i < dynamics@.len(),
                d == dynamics@[i as int],
                j <= d.fields@.len(),
                views == directive_views(dynamics@),
                fields == d@.fields,
                forall|key: Seq<char>|
                    #![trigger out@.contains_key(key)]
                    {
                        &&& out@.contains_key(key) <==> asks_for(views.take(i as int), key) || exists|
                            k: int,
                        |
                            0 <= k < j && (#[trigger] fields[k]).0 == key
                        &&& out@.contains_key(key) ==> text::texts(out@[key]@) == targets_asking(
                            views,
                            key,
                        )
                    },
            decreases d.fields@.len() - j,
        {
            let key = d.fields[j].0.clone();
            let ghost k0 = key@;
            let ghost was = out@;
            let list = targets_of(dynamics, key.as_str());
            let ghost l0 = list;
            out.insert(key, list);
            proof {
                assert(fields[j as int].0 == k0);
                assert forall|k: Seq<char>|
                    #![trigger out@.contains_key(k)]
                    {
                        &&& out@.contains_key(k) <==> asks_for(views.take(i as int), k) || exists|
                            x: int,
                        |
                            0 <= x < j + 1 && (#[trigger] fields[x]).0 == k
                        &&& out@.contains_key(k) ==> text::texts(out@[k]@) == targets_asking(views, k)
                    } by {
                    assert(out@.contains_key(k) <==> k == k0 || was.contains_key(k));
                    if exists|x: int| 0 <= x < j + 1 && (#[trigger] fields[x]).0 == k {
                        let x = choose|x: int| 0 <= x < j + 1 && (#[trigger] fields[x]).0 == k;
                        if x < j {
                            assert(was.contains_key(k));
                        }
                    }
                }
            }
            j = j + 1;
        }
        proof {
            assert forall|key: Seq<char>| #[trigger] out@.contains_key(key) <==> asks_for(
                views.take(i + 1),
                key,
            ) by {
                lemma_asks_step(views, i as int, key);
                assert(views[i as int].fields == fields);
            }
        }
        i = i + 1;
    }
    proof {
        assert(views.take(i as int) =~= views);
    }
    out
}

proof fn lemma_asks_step(views: Seq<DirectiveView>, i: int, key: Seq<char>)
    requires
        0 <= i < views.len(),
    ensures
        asks_for(views.take(i + 1), key) <==> asks_for(views.take(i), key) || exists|k: int|
            0 <= k < views[i].fields.len() && (#[trigger] views[i].fields[k]).0 == key,
{
    let a = views.take(i + 1);
    let b = views.take(i);
    if asks_for(a, key) {
        let (x, y) = choose|x: int, y: int|
            0 <= x < a.len() && 0 <= y < a[x].fields.len() && (#[trigger] a[x].fields[y]).0 == key;
        if x < i {
            assert(b[x].fields[y].0 == key);
        } else {
            assert(views[i].fields[y].0 == key);
        }
    }
    if asks_for(b, key) {
        let (x, y) = choose|x: int, y: int|
            0 <= x < b.len() && 0 <= y < b[x].fields.len() && (#[trigger] b[x].fields[y]).0 == key;
        assert(a[x].fields[y].0 == key);
    }
    if exists|k: int| 0 <= k < views[i].fields.len() && (#[trigger] views[i].fields[k]).0 == key {
        let k = choose|k: int|
            0 <= k < views[i].fields.len() && (#[trigger] views[i].fields[k]).0 == key;
        assert(a[i].fields[k].0 == key);
    }
}

// ---------------------------------------------------------------------------
// What holds of every filter.
// ---------------------------------------------------------------------------
/// The directive that decides for an emit site is one that is about it, and no
/// other that is about it has a longer target.
pub proof fn law_longest_target_decides(
    statics: Seq<DirectiveView>,
    full_name: Seq<char>,
    module: Seq<char>,
)
    ensures
        match deciding(statics, full_name, module) {
            Some(d) => statics.contains(d) && is_about(d, full_name, module) && forall|i: int|
                0 <= i < statics.len() && is_about(
                    #[trigger] statics[i],
                    full_name,
                    module,
                ) ==> target_len(statics[i]) <= target_len(d),
            None => forall|i: int|
                0 <= i < statics.len() ==> !is_about(#[trigger] statics[i], full_name, module),
        },
    decreases statics.len(),
{
    if statics.len() > 0 {
        let front = statics.drop_last();
        law_longest_target_decides(front, full_name, module);
        assert forall|i: int| 0 <= i < statics.len() - 1 implies #[trigger] statics[i]
            == front[i] by {}
        if let Some(d) = deciding(front, full_name, module) {
            let i = choose|i: int| 0 <= i < front.len() && front[i] == d;
            assert(statics[i] == d);
        }
        assert(statics[statics.len() - 1] == statics.last());
    }
}

/// A static `off` that decides for an emit site vetoes it, however severe its
/// events are, unless a dynamic directive may still let one pass.
pub proof fn law_off_vetoes(
    f: FilterView,
    full_name: Seq<char>,
    module: Seq<char>,
    sev: Severity,
)
    requires
        deciding(f.statics, full_name, module) matches Some(d) && d.off,
    ensures
        interest_of(f, full_name, module, sev) == (if has_dynamic(f, full_name) {
            Interest::Sometimes
        } else {
            Interest::Never
        }),
{
}

/// What is remembered of an emit site agrees with what is decided for its
/// events, as long as no directive is about its module alone: a site that is
/// never wanted has no wanted event, and a site that is always wanted has no
/// other.
pub proof fn law_interest_agrees_with_events(
    f: FilterView,
    full_name: Seq<char>,
    module: Seq<char>,
    labels: Map<Seq<char>, Seq<char>>,
    sev: Severity,
)
    requires
        deciding(f.statics, full_name, module) == deciding(f.statics, full_name, Seq::empty()),
    ensures
        interest_of(f, full_name, module, sev) == Interest::Never ==> !allows(
            f,
            full_name,
            labels,
            sev,
        ),
        interest_of(f, full_name, module, sev) == Interest::Always ==> allows(
            f,
            full_name,
            labels,
            sev,
        ),
{
    if !has_dynamic(f, full_name) {
        lemma_no_match(f.dynamics, Some(full_name), labels, full_name);
        lemma_no_match(f.dynamics, None, labels, full_name);
    }
}

proof fn lemma_no_match(
    dynamics: Seq<DirectiveView>,
    target: Option<Seq<char>>,
    labels: Map<Seq<char>, Seq<char>>,
    full_name: Seq<char>,
)
    requires
        target == Some(full_name) || target is None,
        forall|i: int| 0 <= i < dynamics.len() ==> !names_event(#[trigger] dynamics[i], full_name),
    ensures
        first_match(dynamics, target, labels) is None,
    decreases dynamics.len(),
{
    if dynamics.len() > 0 {
        assert(!names_event(dynamics[0], full_name));
        assert forall|i: int| 0 <= i < dynamics.skip(1).len() implies !names_event(
            #[trigger] dynamics.skip(1)[i],
            full_name,
        ) by {
            assert(dynamics.skip(1)[i] == dynamics[i + 1]);
        }
        lemma_no_match(dynamics.skip(1), target, labels, full_name);
    }
}

/// A later bare level takes the place of an earlier one, and of a bare `off`.
pub proof fn law_last_bare_level_counts(f: FilterView, level: Severity)
    ensures
        ({
            let d = DirectiveView { target: None, fields: Seq::empty(), level, off: false };
            &&& with_directive(f, d).default_level == level
            &&& !with_directive(f, d).default_off
            &&& with_directive(f, d).statics == f.statics
            &&& with_directive(f, d).dynamics == f.dynamics
        }),
{
}

/// What the directives before a place and those behind it match goes on
/// matching where the directive at that place is taken out, as long as that one
/// did not.
proof fn lemma_without(
    dynamics: Seq<DirectiveView>,
    p: int,
    target: Option<Seq<char>>,
    labels: Map<Seq<char>, Seq<char>>,
)
    requires
        0 <= p < dynamics.len(),
        !labels_match(dynamics[p].fields, labels),
    ensures
        first_match(dynamics, target, labels) == first_match(dynamics.remove(p), target, labels),
    decreases dynamics.len(),
{
    let less = dynamics.remove(p);
    if p == 0 {
        assert(less =~= dynamics.skip(1));
    } else {
        assert(less.skip(1) =~= dynamics.skip(1).remove(p - 1));
        assert(less[0] == dynamics[0]);
        lemma_without(dynamics.skip(1), p - 1, target, labels);
    }
}

/// A dynamic directive of which one clause asks for a label that an event lacks,
/// or has with another value, does not count for that event, though its other
/// clauses match: the event is let pass, or not, as without the directive.
pub proof fn law_a_failing_clause_silences_a_directive(
    f: FilterView,
    p: int,
    c: int,
    full_name: Seq<char>,
    labels: Map<Seq<char>, Seq<char>>,
    sev: Severity,
)
    requires
        0 <= p < f.dynamics.len(),
        0 <= c < f.dynamics[p].fields.len(),
        !labels.contains_key(f.dynamics[p].fields[c].0) || labels[f.dynamics[p].fields[c].0]
            != f.dynamics[p].fields[c].1,
    ensures
        allows(f, full_name, labels, sev) == allows(
            FilterView { dynamics: f.dynamics.remove(p), ..f },
            full_name,
            labels,
            sev,
        ),
{
    assert(!labels.contains_pair(f.dynamics[p].fields[c].0, f.dynamics[p].fields[c].1));
    assert(!labels_match(f.dynamics[p].fields, labels));
    lemma_without(f.dynamics, p, Some(full_name), labels);
    lemma_without(f.dynamics, p, None, labels);
}

/// Whether an event has every label that a directive asks for, each with the
/// value that it asks for.
pub open spec fn has_all(
    fields: Seq<(Seq<char>, Seq<char>)>,
    labels: Map<Seq<char>, Seq<char>>,
) -> bool {
    forall|c: int|
        #![trigger fields[c]]
        0 <= c < fields.len() ==> labels.contains_key(fields[c].0) && labels[fields[c].0]
            == fields[c].1
}

proof fn lemma_first(
    dynamics: Seq<DirectiveView>,
    p: int,
    target: Option<Seq<char>>,
    labels: Map<Seq<char>, Seq<char>>,
)
    requires
        0 <= p <= dynamics.len(),
        p < dynamics.len() ==> dynamics[p].target == target && has_all(dynamics[p].fields, labels),
        forall|q: int|
            0 <= q < p ==> (#[trigger] dynamics[q]).target != target || !has_all(
                dynamics[q].fields,
                labels,
            ),
    ensures
        first_match(dynamics, target, labels) == (if p < dynamics.len() {
            Some(dynamics[p])
        } else {
            None
        }),
    decreases dynamics.len(),
{
    if dynamics.len() > 0 {
        let d = dynamics[0];
        assert(has_all(d.fields, labels) <==> labels_match(d.fields, labels)) by {
            if has_all(d.fields, labels) {
                assert forall|i: int| 0 <= i < d.fields.len() implies labels.contains_pair(
                    (#[trigger] d.fields[i]).0,
                    d.fields[i].1,
                ) by {}
            } else {
                let c = choose|c: int|
                    #![trigger d.fields[c]]
                    0 <= c < d.fields.len() && !(labels.contains_key(d.fields[c].0)
                        && labels[d.fields[c].0] == d.fields[c].1);
                assert(!labels.contains_pair(d.fields[c].0, d.fields[c].1));
            }
        }
        if p > 0 {
            let tail = dynamics.skip(1);
            assert forall|q: int| 0 <= q < tail.len() implies #[trigger] tail[q] == dynamics[q
                + 1] by {}
            lemma_first(tail, p - 1, target, labels);
        }
    }
}

/// The first dynamic directive for an event by its name whose clauses all match
/// decides for the event; where there is none, the first without a target whose
/// clauses all match does: `off` stops the event, and a level stops what is less
/// severe.
pub proof fn law_the_first_matching_directive_decides(
    f: FilterView,
    p: int,
    full_name: Seq<char>,
    labels: Map<Seq<char>, Seq<char>>,
    sev: Severity,
)
    requires
        0 <= p < f.dynamics.len(),
        has_all(f.dynamics[p].fields, labels),
        f.dynamics[p].target == Some(full_name) || (f.dynamics[p].target is None && forall|q: int|
            0 <= q < f.dynamics.len() ==> (#[trigger] f.dynamics[q]).target != Some(full_name)
                || !has_all(f.dynamics[q].fields, labels)),
        forall|q: int|
            0 <= q < p ==> (#[trigger] f.dynamics[q]).target != f.dynamics[p].target || !has_all(
                f.dynamics[q].fields,
                labels,
            ),
    ensures
        f.dynamics[p].off ==> !allows(f, full_name, labels, sev),
        !f.dynamics[p].off ==> allows(f, full_name, labels, sev) == (sev.rank()
            >= f.dynamics[p].level.rank()),
{
    if f.dynamics[p].target is None {
        lemma_first(f.dynamics, f.dynamics.len() as int, Some(full_name), labels);
    }
    lemma_first(f.dynamics, p, f.dynamics[p].target, labels);
}

/// Where no dynamic directive matches an event, the static directives and the
/// floor decide for it, by its name.
pub proof fn law_statics_decide_the_rest(
    f: FilterView,
    full_name: Seq<char>,
    labels: Map<Seq<char>, Seq<char>>,
    sev: Severity,
)
    requires
        forall|q: int|
            0 <= q < f.dynamics.len() ==> ((#[trigger] f.dynamics[q]).target != Some(full_name)
                && f.dynamics[q].target is Some) || !has_all(f.dynamics[q].fields, labels),
    ensures
        allows(f, full_name, labels, sev) == passes_statics(f, full_name, Seq::empty(), sev),
{
    lemma_first(f.dynamics, f.dynamics.len() as int, Some(full_name), labels);
    lemma_first(f.dynamics, f.dynamics.len() as int, None, labels);
}

/// A name lies under a target where it is the target, or goes on with `.` or
/// `::` after it, and nowhere else: `app` is over `app.db` and `app::db`, but
/// not over `application`.
pub proof fn law_targets_end_at_segments(s: Seq<char>, target: Seq<char>)
    ensures
        under(s, target) <==> s == target || (exists|rest: Seq<char>|
            s == #[trigger] (target.push('.') + rest)) || (exists|rest: Seq<char>|
            s == #[trigger] (target.push(':').push(':') + rest)),
{
    let n = target.len() as int;
    if under(s, target) && s != target {
        if s[n] == '.' {
            assert(s =~= target.push('.') + s.skip(n + 1));
        } else {
            assert(s =~= target.push(':').push(':') + s.skip(n + 2));
        }
    }
    if exists|rest: Seq<char>| s == #[trigger] (target.push('.') + rest) {
        let rest = choose|rest: Seq<char>| s == #[trigger] (target.push('.') + rest);
        assert(s[n] == '.');
        assert(s.subrange(0, n) =~= target);
    }
    if exists|rest: Seq<char>| s == #[trigger] (target.push(':').push(':') + rest) {
        let rest = choose|rest: Seq<char>| s == #[trigger] (target.push(':').push(':') + rest);
        assert(s[n] == ':' && s[n + 1] == ':');
        assert(s.subrange(0, n) =~= target);
    }
}

proof fn lemma_deciding(
    statics: Seq<DirectiveView>,
    p: int,
    full_name: Seq<char>,
    module: Seq<char>,
)
    requires
        0 <= p < statics.len(),
        is_about(statics[p], full_name, module),
        forall|q: int|
            0 <= q < statics.len() && q != p && is_about(
                #[trigger] statics[q],
                full_name,
                module,
            ) ==> target_len(statics[q]) < target_len(statics[p]) || (q > p && target_len(
                statics[q],
            ) == target_len(statics[p])),
    ensures
        deciding(statics, full_name, module) == Some(statics[p]),
    decreases statics.len(),
{
    let front = statics.drop_last();
    assert forall|q: int| 0 <= q < front.len() implies #[trigger] front[q] == statics[q] by {}
    if p < front.len() {
        lemma_deciding(front, p, full_name, module);
        assert(statics[statics.len() - 1] == statics.last());
    } else {
        law_longest_target_decides(front, full_name, module);
        if let Some(d) = deciding(front, full_name, module) {
            let q = choose|q: int| 0 <= q < front.len() && front[q] == d;
            assert(statics[q] == d);
        }
    }
}

/// Of the static directives over a name or a module the one with the longest
/// target decides, the earliest of those that are as long: `off` stops
/// everything, and a level stops what is less severe. Where there is none the
/// floor does.
pub proof fn law_the_longest_target_sets_the_level(
    f: FilterView,
    p: int,
    t: Seq<char>,
    full_name: Seq<char>,
    module: Seq<char>,
    sev: Severity,
)
    requires
        0 <= p <= f.statics.len(),
        p < f.statics.len() ==> f.statics[p].target == Some(t) && (under(full_name, t) || under(
            module,
            t,
        )),
        p < f.statics.len() ==> forall|q: int, u: Seq<char>|
            0 <= q < f.statics.len() && q != p && #[trigger] f.statics[q].target == Some(u) && (
            #[trigger] under(full_name, u) || under(module, u)) ==> encode_utf8(u).len()
                < encode_utf8(t).len() || (q > p && encode_utf8(u).len() == encode_utf8(t).len()),
        p == f.statics.len() ==> forall|q: int, u: Seq<char>|
            0 <= q < f.statics.len() && #[trigger] f.statics[q].target == Some(u)
                ==> !#[trigger] under(full_name, u) && !under(module, u),
    ensures
        p < f.statics.len() && f.statics[p].off ==> !passes_statics(f, full_name, module, sev),
        p < f.statics.len() && !f.statics[p].off ==> passes_statics(f, full_name, module, sev) == (
        sev.rank() >= f.statics[p].level.rank()),
        p == f.statics.len() && f.default_off ==> !passes_statics(f, full_name, module, sev),
        p == f.statics.len() && !f.default_off ==> passes_statics(f, full_name, module, sev) == (
        sev.rank() >= f.default_level.rank()),
{
    if p < f.statics.len() {
        assert forall|q: int|
            0 <= q < f.statics.len() && q != p && is_about(
                #[trigger] f.statics[q],
                full_name,
                module,
            ) implies target_len(f.statics[q]) < target_len(f.statics[p]) || (q > p && target_len(
            f.statics[q],
        ) == target_len(f.statics[p])) by {
            let u = f.statics[q].target->Some_0;
            assert(f.statics[q].target == Some(u));
            assert(under(full_name, u) || under(module, u));
        }
        lemma_deciding(f.statics, p, full_name, module);
    } else {
        law_longest_target_decides(f.statics, full_name, module);
        if let Some(d) = deciding(f.statics, full_name, module) {
            let q = choose|q: int| 0 <= q < f.statics.len() && f.statics[q] == d;
            let u = d.target->Some_0;
            assert(f.statics[q].target == Some(u));
            assert(under(full_name, u) || under(module, u));
        }
    }
}

/// An emit site is decided for once and for all where no dynamic directive can
/// be about its events: always wanted, or never. A dynamic directive that names
/// its events, or none, leaves the decision to each event.
pub proof fn law_dynamic_directives_leave_sites_open(
    f: FilterView,
    full_name: Seq<char>,
    module: Seq<char>,
    sev: Severity,
)
    ensures
        interest_of(f, full_name, module, sev) == Interest::Sometimes <==> exists|q: int|
            0 <= q < f.dynamics.len() && ((#[trigger] f.dynamics[q]).target is None
                || f.dynamics[q].target == Some(full_name)),
        interest_of(f, full_name, module, sev) == Interest::Always ==> passes_statics(
            f,
            full_name,
            module,
            sev,
        ),
        interest_of(f, full_name, module, sev) == Interest::Never ==> !passes_statics(
            f,
            full_name,
            module,
            sev,
        ),
        interest_of(f, full_name, module, sev) != Interest::Unknown,
{
    if exists|q: int|
        0 <= q < f.dynamics.len() && ((#[trigger] f.dynamics[q]).target is None
            || f.dynamics[q].target == Some(full_name)) {
        let q = choose|q: int|
            0 <= q < f.dynamics.len() && ((#[trigger] f.dynamics[q]).target is None
                || f.dynamics[q].target == Some(full_name));
        assert(names_event(f.dynamics[q], full_name));
    }
}

/// A filter that nothing was read into lets everything from `Info` on pass, and
/// nothing less severe, whatever it is called and labelled.
pub proof fn law_an_empty_filter_lets_info_pass(
    full_name: Seq<char>,
    labels: Map<Seq<char>, Seq<char>>,
    sev: Severity,
)
    ensures
        allows(open_filter(), full_name, labels, sev) <==> sev == Severity::Info || sev
            == Severity::Warn || sev == Severity::Error || sev == Severity::Fatal,
        with_pieces(open_filter(), pieces(Seq::empty(), 0, false)) == Ok::<
            FilterView,
            (Seq<char>, Seq<char>),
        >(open_filter()),
{
    reveal_with_fuel(with_pieces, 3);
    assert(text::trimmed(Seq::<char>::empty()) =~= Seq::<char>::empty());
}

/// A directive with clauses is kept as a dynamic one, one with a target alone as
/// a static one, and a bare level or `off` sets the floor; each is added behind
/// those before it, and nothing else changes.
pub proof fn law_directives_are_kept_by_what_they_name(f: FilterView, d: DirectiveView)
    ensures
        ({
            let g = with_directive(f, d);
            &&& d.fields.len() > 0 ==> g == (FilterView { dynamics: f.dynamics.push(d), ..f })
            &&& d.fields.len() == 0 && d.target is Some ==> g == (FilterView {
                statics: f.statics.push(d),
                ..f
            })
            &&& d.fields.len() == 0 && d.target is None ==> g.statics == f.statics && g.dynamics
                == f.dynamics && g.default_off == d.off && (!d.off ==> g.default_level == d.level)
                && (d.off ==> g.default_level == f.default_level)
        }),
{
}

/// The pieces of a filter, put together with commas between them, are the filter
/// again.
pub open spec fn joined(list: Seq<Seq<char>>) -> Seq<char>
    decreases list.len(),
{
    if list.len() == 0 {
        Seq::empty()
    } else if list.len() == 1 {
        list[0]
    } else {
        list[0] + seq![','] + joined(list.skip(1))
    }
}

/// Cutting a filter loses nothing but the commas that it is cut at.
pub proof fn law_cutting_loses_only_commas(s: Seq<char>, depth: int, quoted: bool)
    ensures
        joined(pieces(s, depth, quoted)) == s,
    decreases s.len(),
{
    if s.len() == 0 {
        assert(joined(pieces(s, depth, quoted)) =~= s);
    } else if is_split(s[0], depth, quoted) {
        let tail = pieces(s.skip(1), depth, quoted);
        law_cutting_loses_only_commas(s.skip(1), depth, quoted);
        lemma_pieces_len(s.skip(1), depth, quoted);
        let all = pieces(s, depth, quoted);
        assert(all.skip(1) =~= tail);
        assert(joined(all) =~= s);
    } else {
        let (d, q) = split_state(s[0], depth, quoted);
        let tail = pieces(s.skip(1), d, q);
        law_cutting_loses_only_commas(s.skip(1), d, q);
        lemma_pieces_len(s.skip(1), d, q);
        let all = pieces(s, depth, quoted);
        assert(all.skip(1) =~= tail.skip(1));
        assert(joined(all) =~= seq![s[0]] + joined(tail));
        assert(seq![s[0]] + s.skip(1) =~= s);
    }
}

/// Whether a text has none of the signs that a filter is cut by.
pub open spec fn is_plain(s: Seq<char>) -> bool {
    forall|i: int|
        0 <= i < s.len() ==> #[trigger] s[i] != ',' && s[i] != '[' && s[i] != ']' && s[i] != '"'
}

/// Whether a text has none of the signs that end or open a clause block, though
/// it may have commas.
pub open spec fn is_inner(s: Seq<char>) -> bool {
    forall|i: int| 0 <= i < s.len() ==> #[trigger] s[i] != '[' && s[i] != ']' && s[i] != '"'
}

proof fn lemma_plain_front(a: Seq<char>, rest: Seq<char>, depth: int, quoted: bool)
    requires
        is_plain(a) || (depth != 0 && is_inner(a)) || (quoted && forall|i: int|
            0 <= i < a.len() ==> #[trigger] a[i] != '"'),
    ensures
        pieces(rest, depth, quoted).len() > 0,
        pieces(a + rest, depth, quoted) == pieces(rest, depth, quoted).update(
            0,
            a + pieces(rest, depth, quoted)[0],
        ),
    decreases a.len(),
{
    let tail = pieces(rest, depth, quoted);
    lemma_pieces_len(rest, depth, quoted);
    if a.len() == 0 {
        assert(a + rest =~= rest);
        assert(tail.update(0, a + tail[0]) =~= tail) by {
            assert(a + tail[0] =~= tail[0]);
        }
    } else {
        assert forall|i: int| 0 <= i < a.skip(1).len() implies #[trigger] a.skip(1)[i] == a[i
            + 1] by {}
        lemma_plain_front(a.skip(1), rest, depth, quoted);
        assert((a + rest).skip(1) =~= a.skip(1) + rest);
        assert((a + rest)[0] == a[0]);
        let mid = pieces(a.skip(1) + rest, depth, quoted);
        assert(split_state(a[0], depth, quoted) == (depth, quoted));
        assert(mid.update(0, seq![a[0]] + mid[0]) =~= tail.update(0, a + tail[0])) by {
            assert(seq![a[0]] + (a.skip(1) + tail[0]) =~= a + tail[0]);
        }
    }
}

/// A comma outside brackets ends a directive.
pub proof fn law_commas_end_directives(a: Seq<char>, b: Seq<char>)
    requires
        is_plain(a),
    ensures
        pieces(a + seq![','] + b, 0, false) == seq![a] + pieces(b, 0, false),
        pieces(a, 0, false) == seq![a],
{
    let rest = seq![','] + b;
    lemma_plain_front(a, rest, 0, false);
    assert(a + seq![','] + b =~= a + rest);
    assert(rest.skip(1) =~= b);
    let tail = pieces(b, 0, false);
    let all = pieces(rest, 0, false);
    assert(all =~= seq![Seq::<char>::empty()] + tail);
    assert(all.update(0, a + all[0]) =~= seq![a] + tail) by {
        assert(a + Seq::<char>::empty() =~= a);
    }
    lemma_plain_front(a, Seq::empty(), 0, false);
    assert(a + Seq::<char>::empty() =~= a);
    assert(pieces(a, 0, false) =~= seq![a]);
}

/// A comma between brackets does not end a directive, and neither does a comma
/// or a bracket between quotes there: what follows the closing bracket is read
/// on as before.
pub proof fn law_brackets_keep_commas(
    head: Seq<char>,
    inner: Seq<char>,
    tail: Seq<char>,
    value: Seq<char>,
)
    requires
        is_plain(head),
        is_inner(inner),
        is_plain(tail),
        forall|i: int| 0 <= i < value.len() ==> #[trigger] value[i] != '"',
    ensures
        pieces(head + seq!['['] + inner + seq![']'] + tail, 0, false) == seq![
            head + seq!['['] + inner + seq![']'] + tail,
        ],
        pieces(head + seq!['['] + inner + seq!['"'] + value + seq!['"', ']'] + tail, 0, false)
            == seq![head + seq!['['] + inner + seq!['"'] + value + seq!['"', ']'] + tail],
{
    let closed = seq![']'] + tail;
    lemma_plain_front(tail, Seq::empty(), 0, false);
    assert(tail + Seq::<char>::empty() =~= tail);
    assert(pieces(tail, 0, false) =~= seq![tail]);
    assert(closed.skip(1) =~= tail);
    assert(pieces(closed, 1, false) =~= seq![closed]);
    // Without quotes.
    let body = inner + closed;
    lemma_plain_front(inner, closed, 1, false);
    assert(pieces(body, 1, false) =~= seq![body]);
    let block = seq!['['] + body;
    assert(block.skip(1) =~= body);
    assert(pieces(block, 0, false) =~= seq![block]);
    lemma_plain_front(head, block, 0, false);
    assert(pieces(head + block, 0, false) =~= seq![head + block]);
    assert(head + block =~= head + seq!['['] + inner + seq![']'] + tail);
    // With quotes.
    let end = seq!['"'] + closed;
    assert(end.skip(1) =~= closed);
    assert(pieces(end, 1, true) =~= seq![end]);
    lemma_plain_front(value, end, 1, true);
    assert(pieces(value + end, 1, true) =~= seq![value + end]);
    let quote = seq!['"'] + (value + end);
    assert(quote.skip(1) =~= value + end);
    assert(pieces(quote, 1, false) =~= seq![quote]);
    lemma_plain_front(inner, quote, 1, false);
    assert(pieces(inner + quote, 1, false) =~= seq![inner + quote]);
    let block2 = seq!['['] + (inner + quote);
    assert(block2.skip(1) =~= inner + quote);
    assert(pieces(block2, 0, false) =~= seq![block2]);
    lemma_plain_front(head, block2, 0, false);
    assert(pieces(head + block2, 0, false) =~= seq![head + block2]);
    assert(head + block2 =~= head + seq!['['] + inner + seq!['"'] + value + seq!['"', ']'] + tail);
}

/// A directive asks for a label once for each of its clauses about it.
pub proof fn law_clauses_are_counted(
    fields: Seq<(Seq<char>, Seq<char>)>,
    key: Seq<char>,
    value: Seq<char>,
    other: Seq<char>,
)
    ensures
        times_asked(fields.push((key, value)), key) == times_asked(fields, key) + 1,
        other != key ==> times_asked(fields.push((key, value)), other) == times_asked(
            fields,
            other,
        ),
        times_asked(Seq::empty(), key) == 0,
{
    assert(fields.push((key, value)).drop_last() =~= fields);
}

proof fn lemma_asked(fields: Seq<(Seq<char>, Seq<char>)>, key: Seq<char>, j: int)
    ensures
        0 <= j < fields.len() && fields[j].0 == key ==> times_asked(fields, key) > 0,
        times_asked(fields, key) > 0 ==> exists|k: int|
            0 <= k < fields.len() && (#[trigger] fields[k]).0 == key,
    decreases fields.len(),
{
    if fields.len() > 0 {
        let front = fields.drop_last();
        lemma_asked(front, key, j);
        if times_asked(fields, key) > 0 {
            if fields.last().0 == key {
                assert(fields[fields.len() - 1].0 == key);
            } else {
                let k = choose|k: int| 0 <= k < front.len() && (#[trigger] front[k]).0 == key;
                assert(fields[k].0 == key);
            }
        }
    }
}

/// Directives are listed in their order under the labels that they ask for, each
/// by its target as often as it asks; one without a target by an empty text. A
/// label for which none asks has no list.
pub proof fn law_targets_are_listed_under_the_labels_they_ask_for(
    dynamics: Seq<DirectiveView>,
    d: DirectiveView,
    key: Seq<char>,
)
    ensures
        targets_asking(dynamics.push(d), key).len() == targets_asking(dynamics, key).len()
            + times_asked(d.fields, key),
        targets_asking(dynamics, key).is_prefix_of(targets_asking(dynamics.push(d), key)),
        times_asked(d.fields, key) > 0 ==> targets_asking(dynamics.push(d), key).last() == (
        match d.target {
            Some(t) => t,
            None => Seq::empty(),
        }),
        asks_for(dynamics, key) <==> targets_asking(dynamics, key).len() > 0,
    decreases dynamics.len(),
{
    let all = dynamics.push(d);
    assert(all.drop_last() =~= dynamics);
    assert(all.last() == d);
    let before = targets_asking(dynamics, key);
    assert(before =~= targets_asking(all, key).take(before.len() as int));
    if dynamics.len() > 0 {
        let front = dynamics.drop_last();
        let last = dynamics.last();
        law_targets_are_listed_under_the_labels_they_ask_for(front, last, key);
        assert(front.push(last) =~= dynamics);
        lemma_asked(last.fields, key, 0);
        if asks_for(dynamics, key) {
            let (i, j) = choose|i: int, j: int|
                0 <= i < dynamics.len() && 0 <= j < dynamics[i].fields.len() && (
                #[trigger] dynamics[i].fields[j]).0 == key;
            if i == dynamics.len() - 1 {
                lemma_asked(last.fields, key, j);
            } else {
                assert(front[i].fields[j].0 == key);
            }
        }
        if times_asked(last.fields, key) > 0 {
            let k = choose|k: int| 0 <= k < last.fields.len() && (#[trigger] last.fields[k]).0 == key;
            assert(dynamics[dynamics.len() - 1].fields[k].0 == key);
        }
        if asks_for(front, key) {
            let (i, j) = choose|i: int, j: int|
                0 <= i < front.len() && 0 <= j < front[i].fields.len() && (
                #[trigger] front[i].fields[j]).0 == key;
            assert(dynamics[i].fields[j].0 == key);
        }
    }
}

/// What is said of a directive of one line is the directive, with a caret under
/// the place where it cannot be read any further.
pub proof fn law_the_caret_stands_under_the_fault(
    said: Seq<char>,
    front: Seq<char>,
    left: Seq<char>,
)
    requires
        points_at_fault(said, front + left, left),
        !(front + left).contains('\n'),
    ensures
        said == front + left + "\n"@ + Seq::new(text::byte_len(front), |i: int| ' ') + "^\n"@,
{
    let s = front + left;
    assert(s.take(front.len() as int) =~= front);
}

} // verus!
