//! Envelopes as text, in one of four styles.

use vstd::prelude::*;

use super::calendar::{self, civil_from_days};
use crate::envelope::{record, EnvelopeView, ObsEnvelope};
use crate::json::{self, new_object, put, put_number, put_text, write_object, Json, JsonView};
use crate::registry::ScrubbedEnvelope;
use crate::text::{
    self, chars_of, is_whitespace, push_chars, push_decimal, push_decimal_padded, push_padded_left,
    push_padded_right,
};
use crate::text_map;
use crate::types::{EnumValue, Severity};

verus! {

/// How envelopes are written.
#[derive(Debug, Clone, Copy, PartialEq, Eq, Structural)]
pub enum FormatterStyle {
    /// One line, which is easy to read and to search.
    Compact,
    /// One line with the names of the fields.
    Full,
    /// Several lines for a person.
    Pretty,
    /// One line of JSON.
    Json,
}

impl Default for FormatterStyle {
    fn default() -> (r: Self)
        ensures
            r == FormatterStyle::Compact,
    {
        FormatterStyle::Compact
    }
}

// ---------------------------------------------------------------------------
// Pieces.
// ---------------------------------------------------------------------------
/// A moment, in nanoseconds since 1970, in UTC as RFC 3339 writes it, to the
/// microsecond.
pub open spec fn utc_text(ts_ns: nat) -> Seq<char> {
    let secs = ts_ns / 1_000_000_000;
    let micros = ts_ns % 1_000_000_000 / 1_000;
    let date = calendar::date_of((secs / 86_400) as int);
    let time = secs % 86_400;
    let day = text::zero_padded(date.year as nat, 4).push('-') + text::zero_padded(
        date.month as nat,
        2,
    ).push('-') + text::zero_padded(date.day as nat, 2).push('T');
    let clock = text::zero_padded(time / 3_600, 2).push(':') + text::zero_padded(
        time / 60 % 60,
        2,
    ).push(':') + text::zero_padded(time % 60, 2).push('.');
    day + clock + text::zero_padded(micros, 6).push('Z')
}

/// A moment, in nanoseconds since 1970, in UTC as RFC 3339 writes it, to the
/// microsecond.
pub fn iso8601_utc(ts_ns: u64) -> (r: String)
    ensures
        r@ == utc_text(ts_ns as nat),
{
    let secs: u64 = ts_ns / 1_000_000_000;
    let micros: u64 = ts_ns % 1_000_000_000 / 1_000;
    let time: u64 = secs % 86_400;
    let days: u64 = secs / 86_400;
    let (year, month, day) = civil_from_days(days as i64);
    let ghost date = calendar::date_of(days as int);
    proof {
        calendar::lemma_near_years(date);
    }
    let mut out = String::new();
    push_decimal_padded(&mut out, year as u64, 4, '0');
    out.push('-');
    let ghost s1 = text::zero_padded(date.year as nat, 4).push('-');
    assert(out@ =~= s1);
    push_decimal_padded(&mut out, month as u64, 2, '0');
    out.push('-');
    let ghost s2 = s1 + text::zero_padded(date.month as nat, 2).push('-');
    assert(out@ =~= s2);
    push_decimal_padded(&mut out, day as u64, 2, '0');
    out.push('T');
    let ghost s3 = s2 + text::zero_padded(date.day as nat, 2).push('T');
    assert(out@ =~= s3);
    push_decimal_padded(&mut out, time / 3_600, 2, '0');
    out.push(':');
    let ghost s4 = s3 + text::zero_padded((time / 3_600) as nat, 2).push(':');
    assert(out@ =~= s4);
    push_decimal_padded(&mut out, time / 60 % 60, 2, '0');
    out.push(':');
    let ghost s5 = s4 + text::zero_padded((time / 60 % 60) as nat, 2).push(':');
    assert(out@ =~= s5);
    push_decimal_padded(&mut out, time % 60, 2, '0');
    out.push('.');
    let ghost s6 = s5 + text::zero_padded((time % 60) as nat, 2).push('.');
    assert(out@ =~= s6);
    push_decimal_padded(&mut out, micros, 6, '0');
    out.push('Z');
    assert(out@ =~= s6 + text::zero_padded(micros as nat, 6).push('Z'));
    out
}

/// A severity in capitals.
pub open spec fn upper_name(sev: EnumValue<Severity>) -> Seq<char> {
    match record::known_sev(sev) {
        Severity::Trace => "TRACE"@,
        Severity::Debug => "DEBUG"@,
        Severity::Info => "INFO"@,
        Severity::Warn => "WARN"@,
        Severity::Error => "ERROR"@,
        Severity::Fatal => "FATAL"@,
        Severity::Unspecified => "?"@,
    }
}

/// The severity of an envelope in capitals.
pub fn sev_upper(env: &ObsEnvelope) -> (r: &'static str)
    ensures
        r@ == upper_name(env@.sev),
{
    match env.native_sev() {
        Severity::Trace => "TRACE",
        Severity::Debug => "DEBUG",
        Severity::Info => "INFO",
        Severity::Warn => "WARN",
        Severity::Error => "ERROR",
        Severity::Fatal => "FATAL",
        Severity::Unspecified => "?",
    }
}

/// A text, or a dash in place of an empty one.
pub open spec fn or_dash(s: Seq<char>) -> Seq<char> {
    if s.len() == 0 {
        "-"@
    } else {
        s
    }
}

/// A text, or a dash in place of an empty one.
pub fn dash_or(s: &str) -> (r: &str)
    ensures
        r@ == or_dash(s@),
{
    if s.is_empty() {
        "-"
    } else {
        s
    }
}

/// Whether a character makes a value that holds it stand in quotes.
pub open spec fn is_quoting(c: char) -> bool {
    text::is_space(c) || c == '=' || c == '"'
}

/// Whether a value stands in quotes.
pub open spec fn quoted(v: Seq<char>) -> bool {
    exists|i: int| 0 <= i < v.len() && is_quoting(#[trigger] v[i])
}

/// A value with a backslash before each quote and each backslash.
pub open spec fn escaped(v: Seq<char>) -> Seq<char>
    decreases v.len(),
{
    if v.len() == 0 {
        Seq::empty()
    } else if v.last() == '"' || v.last() == '\\' {
        escaped(v.drop_last()).push('\\').push(v.last())
    } else {
        escaped(v.drop_last()).push(v.last())
    }
}

/// A value as it stands in a compact line.
pub open spec fn value_text(v: Seq<char>) -> Seq<char> {
    if quoted(v) {
        seq!['"'] + escaped(v).push('"')
    } else {
        v
    }
}

/// Labels as `key=value`, with a space between them.
pub open spec fn fields_text(pairs: Seq<(Seq<char>, Seq<char>)>) -> Seq<char>
    decreases pairs.len(),
{
    if pairs.len() == 0 {
        Seq::empty()
    } else {
        (if pairs.len() == 1 {
            Seq::empty()
        } else {
            fields_text(pairs.drop_last()).push(' ')
        }) + (pairs.last().0.push('=') + value_text(pairs.last().1))
    }
}

/// Whether a value stands in quotes.
pub fn needs_quoting(v: &[char]) -> (r: bool)
    ensures
        r == quoted(v@),
{
    let mut i: usize = 0;
    while i < v.len()
        invariant
            i <= v@.len(),
            forall|k: int| 0 <= k < i ==> !is_quoting(#[trigger] v@[k]),
        decreases v@.len() - i,
    {
        let c = v[i];
        if is_whitespace(c) || c == '=' || c == '"' {
            assert(is_quoting(v@[i as int]));
            return true;
        }
        i = i + 1;
    }
    false
}

/// Appends a value as it stands in a compact line.
fn push_value(out: &mut String, value: &str)
    ensures
        final(out)@ == old(out)@ + value_text(value@),
{
    let v = chars_of(value);
    if !needs_quoting(v.as_slice()) {
        out.append(value);
        return;
    }
    let ghost start = out@;
    out.push('"');
    let mut i: usize = 0;
    proof {
        assert(v@.take(0) =~= Seq::<char>::empty());
        assert(out@ =~= start.push('"') + escaped(v@.take(0)));
    }
    while i < v.len()
        invariant
            i <= v@.len(),
            out@ == start.push('"') + escaped(v@.take(i as int)),
        decreases v@.len() - i,
    {
        let c = v[i];
        proof {
            assert(v@.take(i + 1).drop_last() =~= v@.take(i as int));
        }
        if c == '"' || c == '\\' {
            out.push('\\');
        }
        out.push(c);
        proof {
            assert(out@ =~= start.push('"') + escaped(v@.take(i + 1)));
        }
        i = i + 1;
    }
    out.push('"');
    proof {
        assert(v@.take(i as int) =~= v@);
        assert(out@ =~= start + value_text(value@));
    }
}

/// The labels of an envelope as `key=value`, in the order of their keys, with
/// a space between them.
pub fn tracing_style_fields(env: &ObsEnvelope) -> (r: String)
    ensures
        r@ == fields_text(text_map::ordered(env@.labels)),
{
    let mut out = String::new();
    let n: usize = env.labels.len();
    let ghost pairs = text_map::text_pairs(env.labels.pairs());
    proof {
        text_map::lemma_text_ordered(env.labels@, env.labels.pairs());
        assert(pairs.take(0) =~= Seq::<(Seq<char>, Seq<char>)>::empty());
    }
    let mut i: usize = 0;
    while i < n
        invariant
            i <= n,
            n == env.labels.pairs().len(),
            pairs == text_map::text_pairs(env.labels.pairs()),
            out@ == fields_text(pairs.take(i as int)),
        decreases n - i,
    {
        let ghost start = out@;
        let ghost now = pairs.take(i + 1);
        if i > 0 {
            out.push(' ');
        }
        let (key, value) = env.labels.at(i);
        out.append(key.as_str());
        out.push('=');
        push_value(&mut out, value.as_str());
        proof {
            assert(now.drop_last() =~= pairs.take(i as int));
            assert(now.last() == (key@, value@));
            assert(out@ =~= fields_text(now));
        }
        i = i + 1;
    }
    proof {
        assert(pairs.take(i as int) =~= pairs);
    }
    out
}

/// Labels as `key=value`, with commas between them.
pub open spec fn listed_labels(pairs: Seq<(Seq<char>, Seq<char>)>) -> Seq<char>
    decreases pairs.len(),
{
    if pairs.len() == 0 {
        Seq::empty()
    } else {
        (if pairs.len() == 1 {
            Seq::empty()
        } else {
            listed_labels(pairs.drop_last()) + ", "@
        }) + (pairs.last().0.push('=') + pairs.last().1)
    }
}

/// The labels of an envelope in braces, as `key=value` in the order of their
/// keys, with commas between them.
pub fn compact_labels(env: &ObsEnvelope) -> (r: String)
    ensures
        r@ == seq!['{'] + listed_labels(text_map::ordered(env@.labels)).push('}'),
{
    let mut out = String::new();
    out.push('{');
    let n: usize = env.labels.len();
    let ghost pairs = text_map::text_pairs(env.labels.pairs());
    proof {
        text_map::lemma_text_ordered(env.labels@, env.labels.pairs());
        assert(pairs.take(0) =~= Seq::<(Seq<char>, Seq<char>)>::empty());
        assert(out@ =~= seq!['{'] + listed_labels(pairs.take(0)));
    }
    let mut i: usize = 0;
    while i < n
        invariant
            i <= n,
            n == env.labels.pairs().len(),
            pairs == text_map::text_pairs(env.labels.pairs()),
            out@ == seq!['{'] + listed_labels(pairs.take(i as int)),
        decreases n - i,
    {
        let ghost now = pairs.take(i + 1);
        if i > 0 {
            out.append(", ");
        }
        let (key, value) = env.labels.at(i);
        out.append(key.as_str());
        out.push('=');
        out.append(value.as_str());
        proof {
            assert(now.drop_last() =~= pairs.take(i as int));
            assert(now.last() == (key@, value@));
            assert(out@ =~= seq!['{'] + listed_labels(now));
        }
        i = i + 1;
    }
    out.push('}');
    proof {
        assert(pairs.take(i as int) =~= pairs);
        assert(out@ =~= seq!['{'] + listed_labels(pairs).push('}'));
    }
    out
}

/// What stands behind the last dot of a name.
pub open spec fn leaf(name: Seq<char>) -> Seq<char>
    decreases name.len(),
{
    if name.len() == 0 || name.last() == '.' {
        Seq::empty()
    } else {
        leaf(name.drop_last()).push(name.last())
    }
}

/// What stands behind the last dot of a name.
fn leaf_of(name: &[char]) -> (r: &[char])
    ensures
        r@ == leaf(name@),
{
    let size: usize = name.len();
    let mut n: usize = size;
    proof {
        assert(name@.take(size as int) =~= name@);
        assert(leaf(name@) =~= leaf(name@.take(size as int)) + name@.skip(size as int));
    }
    while n > 0 && name[n - 1] != '.'
        invariant
            n <= size,
            size == name@.len(),
            leaf(name@) == leaf(name@.take(n as int)) + name@.skip(n as int),
        decreases n,
    {
        proof {
            let front = name@.take(n as int);
            assert(front.drop_last() =~= name@.take(n - 1));
            assert(leaf(front) + name@.skip(n as int) =~= leaf(name@.take(n - 1)) + name@.skip(
                n - 1,
            ));
        }
        n = n - 1;
    }
    let r = vstd::slice::slice_subrange(name, n, size);
    proof {
        assert(leaf(name@.take(n as int)) =~= Seq::<char>::empty());
        assert(r@ =~= leaf(name@));
    }
    r
}

// ---------------------------------------------------------------------------
// The styles.
// ---------------------------------------------------------------------------
/// The labels in a compact line, under the last part of the event's name.
pub open spec fn scope_text(env: EnvelopeView) -> Seq<char> {
    let fields = fields_text(text_map::ordered(env.labels));
    if fields.len() == 0 {
        Seq::empty()
    } else {
        leaf(env.full_name).push('{') + fields + "}: "@
    }
}

/// The trace in a compact line.
pub open spec fn trace_text(env: EnvelopeView) -> Seq<char> {
    if env.trace_id.len() > 0 || env.span_id.len() > 0 {
        ": trace_id="@ + or_dash(env.trace_id) + " span_id="@ + or_dash(env.span_id)
    } else {
        Seq::empty()
    }
}

/// An envelope as one line.
pub open spec fn compact_text(env: EnvelopeView) -> Seq<char> {
    (utc_text(env.ts_ns as nat).push(' ') + text::pad_left(upper_name(env.sev), 5, ' ').push(' ')
        + scope_text(env) + env.full_name + trace_text(env)).push('\n')
}

/// An envelope as one line: when, how severe, its labels, its name and its
/// trace.
pub fn render_compact(env: &ObsEnvelope) -> (r: String)
    ensures
        r@ == compact_text(env@),
{
    let mut out = iso8601_utc(env.ts_ns);
    out.push(' ');
    push_padded_left(&mut out, sev_upper(env), 5, ' ');
    out.push(' ');
    let ghost s1 = utc_text(env.ts_ns as nat).push(' ') + text::pad_left(
        upper_name(env@.sev),
        5,
        ' ',
    ).push(' ');
    assert(out@ =~= s1);
    let fields = tracing_style_fields(env);
    if !fields.as_str().is_empty() {
        let name = chars_of(env.full_name.as_str());
        push_chars(&mut out, leaf_of(name.as_slice()));
        out.push('{');
        out.append(fields.as_str());
        out.append("}: ");
    }
    let ghost s2 = s1 + scope_text(env@);
    assert(out@ =~= s2);
    out.append(env.full_name.as_str());
    let ghost s3 = s2 + env@.full_name;
    if !env.trace_id.as_str().is_empty() || !env.span_id.as_str().is_empty() {
        out.append(": trace_id=");
        out.append(dash_or(env.trace_id.as_str()));
        out.append(" span_id=");
        out.append(dash_or(env.span_id.as_str()));
    }
    assert(out@ =~= s3 + trace_text(env@));
    out.push('\n');
    out
}

/// The labels, each between `lead` and `end`.
pub open spec fn label_texts(
    pairs: Seq<(Seq<char>, Seq<char>)>,
    lead: Seq<char>,
    between: Seq<char>,
    end: Seq<char>,
) -> Seq<char>
    decreases pairs.len(),
{
    if pairs.len() == 0 {
        Seq::empty()
    } else {
        label_texts(pairs.drop_last(), lead, between, end) + (lead + pairs.last().0 + between
            + pairs.last().1 + end)
    }
}

/// Appends the labels, each between `lead` and `end`.
fn push_labels(out: &mut String, env: &ObsEnvelope, lead: &str, between: &str, end: &str)
    ensures
        final(out)@ == old(out)@ + label_texts(
            text_map::ordered(env@.labels),
            lead@,
            between@,
            end@,
        ),
        text_map::entries_in_order(env@.labels, text_map::ordered(env@.labels)),
{
    let ghost start = out@;
    let n: usize = env.labels.len();
    let ghost pairs = text_map::text_pairs(env.labels.pairs());
    proof {
        text_map::lemma_text_ordered(env.labels@, env.labels.pairs());
        assert(pairs.take(0) =~= Seq::<(Seq<char>, Seq<char>)>::empty());
        assert(out@ =~= start + label_texts(pairs.take(0), lead@, between@, end@));
    }
    let mut i: usize = 0;
    while i < n
        invariant
            i <= n,
            n == env.labels.pairs().len(),
            pairs == text_map::text_pairs(env.labels.pairs()),
            text_map::entries_in_order(env@.labels, pairs),
            out@ == start + label_texts(pairs.take(i as int), lead@, between@, end@),
        decreases n - i,
    {
        let ghost now = pairs.take(i + 1);
        let (key, value) = env.labels.at(i);
        out.append(lead);
        out.append(key.as_str());
        out.append(between);
        out.append(value.as_str());
        out.append(end);
        proof {
            assert(now.drop_last() =~= pairs.take(i as int));
            assert(now.last() == (key@, value@));
            assert(out@ =~= start + label_texts(now, lead@, between@, end@));
        }
        i = i + 1;
    }
    proof {
        assert(pairs.take(i as int) =~= pairs);
    }
}

/// When an envelope was emitted: seconds and nanoseconds.
pub open spec fn seconds_text(ts_ns: nat, width: nat) -> Seq<char> {
    text::pad_left(text::decimal(ts_ns / 1_000_000_000), width, ' ').push('.') + text::zero_padded(
        ts_ns % 1_000_000_000,
        9,
    )
}

/// Appends when an envelope was emitted.
fn push_seconds(out: &mut String, ts_ns: u64, width: usize)
    ensures
        final(out)@ == old(out)@ + seconds_text(ts_ns as nat, width as nat),
{
    let ghost start = out@;
    push_decimal_padded(out, ts_ns / 1_000_000_000, width, ' ');
    out.push('.');
    push_decimal_padded(out, ts_ns % 1_000_000_000, 9, '0');
    assert(out@ =~= start + seconds_text(ts_ns as nat, width as nat));
}

/// How a full text begins.
pub open spec fn full_head(env: EnvelopeView) -> Seq<char> {
    seq!['['] + seconds_text(env.ts_ns as nat, 10).push(' ') + text::pad_right(
        record::known_sev(env.sev).name(),
        5,
        ' ',
    ) + "] "@ + text::pad_right(record::known_tier(env.tier).name(), 6, ' ').push(' ')
        + env.full_name
}

/// What a full text says of the service.
pub open spec fn full_service(env: EnvelopeView) -> Seq<char> {
    " service="@ + or_dash(env.service) + " instance="@ + or_dash(env.instance) + " version="@
        + or_dash(env.version) + " reason="@ + record::known_reason(env.sampling_reason).name()
}

/// What a full text says of the trace.
pub open spec fn full_trace(env: EnvelopeView) -> Seq<char> {
    if env.trace_id.len() > 0 || env.span_id.len() > 0 {
        " trace_id="@ + or_dash(env.trace_id) + " span_id="@ + or_dash(env.span_id) + " parent="@
            + or_dash(env.parent_span_id)
    } else {
        Seq::empty()
    }
}

/// What a full text says of the payload.
pub open spec fn full_payload(n: nat) -> Seq<char> {
    if n > 0 {
        " payload_bytes="@ + text::decimal(n)
    } else {
        Seq::empty()
    }
}

/// A full text without the end of its line.
pub open spec fn full_parts(env: EnvelopeView, payload_len: nat) -> Seq<char> {
    full_head(env) + full_service(env) + full_trace(env) + label_texts(
        text_map::ordered(env.labels),
        " label."@,
        "="@,
        Seq::empty(),
    ) + full_payload(payload_len)
}

/// An envelope on one line with the names of the fields.
pub open spec fn full_text(env: EnvelopeView, payload_len: nat) -> Seq<char> {
    full_parts(env, payload_len).push('\n')
}

/// Whether no line ends in `s`.
pub open spec fn no_line_end(s: Seq<char>) -> bool {
    forall|i: int| 0 <= i < s.len() ==> #[trigger] s[i] != '\n'
}

/// Whether no line ends in a text that a full text shows.
pub open spec fn no_line_ends(env: EnvelopeView) -> bool {
    &&& no_line_end(env.full_name)
    &&& no_line_end(env.service)
    &&& no_line_end(env.instance)
    &&& no_line_end(env.version)
    &&& no_line_end(env.trace_id)
    &&& no_line_end(env.span_id)
    &&& no_line_end(env.parent_span_id)
    &&& forall|k: Seq<char>| #[trigger]
        env.labels.contains_key(k) ==> no_line_end(k) && no_line_end(env.labels[k])
}

/// Appends how a full text begins.
fn push_full_start(out: &mut String, env: &ObsEnvelope)
    ensures
        final(out)@ == old(out)@ + full_head(env@),
{
    let ghost start = out@;
    out.push('[');
    push_seconds(out, env.ts_ns, 10);
    out.push(' ');
    push_padded_right(out, env.native_sev().as_str(), 5, ' ');
    out.append("] ");
    push_padded_right(out, env.native_tier().as_str(), 6, ' ');
    out.push(' ');
    out.append(env.full_name.as_str());
    assert(out@ =~= start + full_head(env@));
}

/// Appends how a full text begins, and what it says of the service.
fn push_full_head(out: &mut String, env: &ObsEnvelope)
    ensures
        final(out)@ == old(out)@ + (full_head(env@) + full_service(env@)),
{
    let ghost start = out@;
    push_full_start(out, env);
    let ghost s1 = out@;
    out.append(" service=");
    out.append(dash_or(env.service.as_str()));
    out.append(" instance=");
    out.append(dash_or(env.instance.as_str()));
    out.append(" version=");
    out.append(dash_or(env.version.as_str()));
    out.append(" reason=");
    out.append(env.native_reason().as_str());
    assert(out@ =~= s1 + full_service(env@));
    assert(s1 + full_service(env@) =~= start + (full_head(env@) + full_service(env@)));
}

/// Appends what a full text says of the trace.
fn push_full_trace(out: &mut String, env: &ObsEnvelope)
    ensures
        final(out)@ == old(out)@ + full_trace(env@),
{
    if !env.trace_id.as_str().is_empty() || !env.span_id.as_str().is_empty() {
        out.append(" trace_id=");
        out.append(dash_or(env.trace_id.as_str()));
        out.append(" span_id=");
        out.append(dash_or(env.span_id.as_str()));
        out.append(" parent=");
        out.append(dash_or(env.parent_span_id.as_str()));
    }
    assert(out@ =~= old(out)@ + full_trace(env@));
}

/// An envelope on one line with the names of the fields.
pub fn render_full(env: &ObsEnvelope, payload_len: usize) -> (r: String)
    ensures
        r@ == full_text(env@, payload_len as nat),
        no_line_ends(env@) ==> r@.last() == '\n' && no_line_end(r@.drop_last()),
{
    let mut out = String::new();
    push_full_head(&mut out, env);
    push_full_trace(&mut out, env);
    push_labels(&mut out, env, " label.", "=", "");
    let ghost s4 = out@;
    if payload_len > 0 {
        out.append(" payload_bytes=");
        push_decimal(&mut out, payload_len as u64);
    }
    proof {
        reveal_strlit("");
        assert(""@ =~= Seq::<char>::empty());
        assert(out@ =~= s4 + full_payload(payload_len as nat));
        assert(out@ =~= full_parts(env@, payload_len as nat));
        if no_line_ends(env@) {
            lemma_full_parts(env@, payload_len as nat);
        }
    }
    out.push('\n');
    proof {
        assert(out@.drop_last() =~= full_parts(env@, payload_len as nat));
    }
    out
}

proof fn lemma_digits_end_no_line(n: nat)
    ensures
        no_line_end(text::decimal(n)),
    decreases n,
{
    if n >= 10 {
        lemma_digits_end_no_line(n / 10);
    }
}

proof fn lemma_names_end_no_line(env: EnvelopeView)
    ensures
        no_line_end(record::known_sev(env.sev).name()),
        no_line_end(record::known_tier(env.tier).name()),
        no_line_end(record::known_reason(env.sampling_reason).name()),
{
    reveal_strlit("unspecified");
    reveal_strlit("trace");
    reveal_strlit("debug");
    reveal_strlit("info");
    reveal_strlit("warn");
    reveal_strlit("error");
    reveal_strlit("fatal");
    reveal_strlit("log");
    reveal_strlit("metric");
    reveal_strlit("audit");
    reveal_strlit("head_rate");
    reveal_strlit("tail_error");
    reveal_strlit("slow");
    reveal_strlit("forensic");
    reveal_strlit("runtime");
    reveal_strlit("override");
}

proof fn lemma_labels_end_no_line(pairs: Seq<(Seq<char>, Seq<char>)>)
    requires
        forall|i: int|
            0 <= i < pairs.len() ==> no_line_end((#[trigger] pairs[i]).0) && no_line_end(pairs[i].1),
    ensures
        no_line_end(label_texts(pairs, " label."@, "="@, Seq::empty())),
    decreases pairs.len(),
{
    if pairs.len() > 0 {
        reveal_strlit(" label.");
        reveal_strlit("=");
        let front = pairs.drop_last();
        assert forall|i: int| 0 <= i < front.len() implies no_line_end((#[trigger] front[i]).0)
            && no_line_end(front[i].1) by {
            assert(front[i] == pairs[i]);
        }
        lemma_labels_end_no_line(front);
        assert(pairs.last() == pairs[pairs.len() - 1]);
    }
}

proof fn lemma_full_parts(env: EnvelopeView, payload_len: nat)
    requires
        no_line_ends(env),
        text_map::entries_in_order(env.labels, text_map::ordered(env.labels)),
    ensures
        no_line_end(full_parts(env, payload_len)),
{
    let pairs = text_map::ordered(env.labels);
    lemma_names_end_no_line(env);
    lemma_digits_end_no_line(env.ts_ns as nat / 1_000_000_000);
    lemma_digits_end_no_line(env.ts_ns as nat % 1_000_000_000);
    lemma_digits_end_no_line(payload_len);
    assert forall|i: int| 0 <= i < pairs.len() implies no_line_end((#[trigger] pairs[i]).0)
        && no_line_end(pairs[i].1) by {
        assert(env.labels.contains_pair(pairs[i].0, pairs[i].1));
        assert(env.labels.contains_key(pairs[i].0));
    }
    lemma_labels_end_no_line(pairs);
    reveal_strlit("] ");
    reveal_strlit("-");
    reveal_strlit(" service=");
    reveal_strlit(" instance=");
    reveal_strlit(" version=");
    reveal_strlit(" reason=");
    reveal_strlit(" trace_id=");
    reveal_strlit(" span_id=");
    reveal_strlit(" parent=");
    reveal_strlit(" payload_bytes=");
    assert(no_line_end(seconds_text(env.ts_ns as nat, 10)));
    assert(no_line_end(full_head(env)));
    assert(no_line_end(full_service(env)));
    assert(no_line_end(full_trace(env)));
    assert(no_line_end(full_payload(payload_len)));
}

/// The first line of a pretty text.
pub open spec fn pretty_head(env: EnvelopeView) -> Seq<char> {
    ("─── "@ + env.full_name + " @ "@ + seconds_text(env.ts_ns as nat, 0).push(' ')
        + record::known_sev(env.sev).name().push(' ') + record::known_tier(env.tier).name()
        + " ───"@).push('\n')
}

/// The line of a pretty text on the service.
pub open spec fn pretty_service(env: EnvelopeView) -> Seq<char> {
    ("    service: "@ + env.service + " ("@ + env.version + ") instance: "@ + env.instance).push(
        '\n',
    )
}

/// The line of a pretty text on the trace.
pub open spec fn pretty_trace(env: EnvelopeView) -> Seq<char> {
    if env.trace_id.len() > 0 {
        ("    trace:   "@ + env.trace_id.push('/') + env.span_id + " parent="@
            + env.parent_span_id).push('\n')
    } else {
        Seq::empty()
    }
}

/// The lines of a pretty text on the labels.
pub open spec fn pretty_labels(labels: Map<Seq<char>, Seq<char>>) -> Seq<char> {
    if labels == Map::<Seq<char>, Seq<char>>::empty() {
        Seq::empty()
    } else {
        "    labels:\n"@ + label_texts(text_map::ordered(labels), "        "@, " = "@, "\n"@)
    }
}

/// The line of a pretty text on the payload.
pub open spec fn pretty_payload(n: nat) -> Seq<char> {
    if n > 0 {
        "    payload: "@ + text::decimal(n) + " bytes\n"@
    } else {
        Seq::empty()
    }
}

/// An envelope on several lines for a person.
pub open spec fn pretty_text(env: EnvelopeView, payload_len: nat) -> Seq<char> {
    pretty_head(env) + pretty_service(env) + pretty_trace(env) + pretty_labels(env.labels)
        + pretty_payload(payload_len)
}

/// An envelope on several lines for a person.
pub fn render_pretty(env: &ObsEnvelope, payload_len: usize) -> (r: String)
    ensures
        r@ == pretty_text(env@, payload_len as nat),
{
    let mut out = String::new();
    out.append("─── ");
    out.append(env.full_name.as_str());
    out.append(" @ ");
    push_seconds(&mut out, env.ts_ns, 0);
    out.push(' ');
    out.append(env.native_sev().as_str());
    out.push(' ');
    out.append(env.native_tier().as_str());
    out.append(" ───");
    out.push('\n');
    let ghost s1 = pretty_head(env@);
    assert(out@ =~= s1);
    out.append("    service: ");
    out.append(env.service.as_str());
    out.append(" (");
    out.append(env.version.as_str());
    out.append(") instance: ");
    out.append(env.instance.as_str());
    out.push('\n');
    let ghost s2 = s1 + pretty_service(env@);
    assert(out@ =~= s2);
    if !env.trace_id.as_str().is_empty() {
        out.append("    trace:   ");
        out.append(env.trace_id.as_str());
        out.push('/');
        out.append(env.span_id.as_str());
        out.append(" parent=");
        out.append(env.parent_span_id.as_str());
        out.push('\n');
    }
    let ghost s3 = s2 + pretty_trace(env@);
    assert(out@ =~= s3);
    proof {
        lemma_no_labels(env.labels@);
    }
    if !env.labels.is_empty() {
        out.append("    labels:\n");
        push_labels(&mut out, env, "        ", " = ", "\n");
    }
    let ghost s4 = s3 + pretty_labels(env@.labels);
    assert(out@ =~= s4);
    if payload_len > 0 {
        out.append("    payload: ");
        push_decimal(&mut out, payload_len as u64);
        out.append(" bytes\n");
    }
    assert(out@ =~= s4 + pretty_payload(payload_len as nat));
    out
}

/// No texts are no labels.
pub proof fn lemma_no_labels(m: Map<Seq<char>, String>)
    ensures
        m == Map::<Seq<char>, String>::empty() <==> text_map::text_values(m) == Map::<
            Seq<char>,
            Seq<char>,
        >::empty(),
{
    if m == Map::<Seq<char>, String>::empty() {
        assert(text_map::text_values(m) =~= Map::<Seq<char>, Seq<char>>::empty());
    }
    if text_map::text_values(m) == Map::<Seq<char>, Seq<char>>::empty() {
        assert(m.dom() =~= text_map::text_values(m).dom());
        assert(m =~= Map::<Seq<char>, String>::empty());
    }
}

/// The labels as a JSON object.
pub(crate) fn labels_object(env: &ObsEnvelope) -> (r: serde_json::Map<String, serde_json::Value>)
    ensures
        json::object_entries(r) == json::texts_object(env@.labels),
{
    let mut labels = new_object();
    let n: usize = env.labels.len();
    let ghost pairs = env.labels.pairs();
    let ghost all = json::texts_object(env@.labels);
    let mut i: usize = 0;
    while i < n
        invariant
            i <= n,
            n == pairs.len(),
            pairs == env.labels.pairs(),
            all == json::texts_object(env@.labels),
            text_map::entries_in_order(env.labels@, pairs),
            forall|k: Seq<char>| #[trigger]
                json::object_entries(labels).contains_key(k) ==> all.contains_pair(
                    k,
                    json::object_entries(labels)[k],
                ),
            forall|j: int|
                0 <= j < i ==> json::object_entries(labels).contains_key((#[trigger] pairs[j]).0),
        decreases n - i,
    {
        let (key, value) = env.labels.at(i);
        put(&mut labels, key.as_str(), Json::Text(value.clone()));
        proof {
            assert(all.contains_pair(key@, JsonView::Text(value@)));
        }
        i = i + 1;
    }
    proof {
        assert forall|k: Seq<char>| all.contains_key(k) implies json::object_entries(
            labels,
        ).contains_key(k) by {
            assert(env.labels@.contains_key(k));
            let j = choose|j: int| 0 <= j < pairs.len() && (#[trigger] pairs[j]).0 == k;
            assert(json::object_entries(labels).contains_key(pairs[j].0));
        }
        assert(json::object_entries(labels) =~= all);
    }
    labels
}

/// The object with the labels, where there are any.
pub open spec fn with_labels(
    m: Map<Seq<char>, JsonView>,
    labels: Map<Seq<char>, Seq<char>>,
) -> Map<Seq<char>, JsonView> {
    if labels == Map::<Seq<char>, Seq<char>>::empty() {
        m
    } else {
        m.insert("labels"@, JsonView::Object(json::texts_object(labels)))
    }
}

/// An envelope as a JSON object. What is empty or zero is left out.
pub open spec fn json_object(env: EnvelopeView) -> Map<Seq<char>, JsonView> {
    let m = json::no_entries().insert("ts_ns"@, JsonView::Number(env.ts_ns)).insert(
        "sev"@,
        JsonView::Text(record::known_sev(env.sev).name()),
    ).insert("tier"@, JsonView::Text(record::known_tier(env.tier).name())).insert(
        "full_name"@,
        JsonView::Text(env.full_name),
    );
    let m = json::with_text(m, "service"@, env.service);
    let m = json::with_text(m, "instance"@, env.instance);
    let m = json::with_text(m, "version"@, env.version);
    let m = json::with_text(m, "trace_id"@, env.trace_id);
    let m = json::with_text(m, "span_id"@, env.span_id);
    let m = json::with_text(m, "parent_span_id"@, env.parent_span_id);
    let m = json::with_number(m, "schema_hash"@, env.schema_hash);
    let m = json::with_number(m, "callsite_id"@, env.callsite_id);
    with_labels(m, env.labels)
}

/// An envelope as one line of JSON. What is empty or zero is left out.
pub fn render_json(env: &ObsEnvelope) -> (r: String)
    ensures
        r@ == json::object_text(json_object(env@)).push('\n'),
{
    let mut root = new_object();
    put(&mut root, "ts_ns", Json::Number(env.ts_ns));
    put(&mut root, "sev", Json::Text(env.native_sev().as_str().to_string()));
    put(&mut root, "tier", Json::Text(env.native_tier().as_str().to_string()));
    put(&mut root, "full_name", Json::Text(env.full_name.clone()));
    put_text(&mut root, "service", env.service.as_str());
    put_text(&mut root, "instance", env.instance.as_str());
    put_text(&mut root, "version", env.version.as_str());
    put_text(&mut root, "trace_id", env.trace_id.as_str());
    put_text(&mut root, "span_id", env.span_id.as_str());
    put_text(&mut root, "parent_span_id", env.parent_span_id.as_str());
    put_number(&mut root, "schema_hash", env.schema_hash);
    put_number(&mut root, "callsite_id", env.callsite_id);
    proof {
        lemma_no_labels(env.labels@);
    }
    if !env.labels.is_empty() {
        put(&mut root, "labels", Json::Object(labels_object(env)));
    }
    let mut out = write_object(root);
    out.push('\n');
    out
}

// ---------------------------------------------------------------------------
// The sink.
// ---------------------------------------------------------------------------
/// An envelope in a style.
pub open spec fn styled(style: FormatterStyle, env: EnvelopeView, payload_len: nat) -> Seq<char> {
    match style {
        FormatterStyle::Compact => compact_text(env),
        FormatterStyle::Full => full_text(env, payload_len),
        FormatterStyle::Pretty => pretty_text(env, payload_len),
        FormatterStyle::Json => json::object_text(json_object(env)).push('\n'),
    }
}

/// The sink that writes envelopes as text.
#[derive(Debug, Clone, Copy, PartialEq, Eq, Structural)]
pub struct StdoutSink {
    /// How envelopes are written.
    pub style: FormatterStyle,
    /// What is less severe is dropped.
    pub severity_floor: Severity,
}

impl Default for StdoutSink {
    fn default() -> (r: Self)
        ensures
            r == (StdoutSink {
                style: FormatterStyle::Compact,
                severity_floor: Severity::Trace,
            }),
    {
        StdoutSink::new(FormatterStyle::default())
    }
}

impl StdoutSink {
    /// A sink that writes everything from `Trace` on.
    #[must_use]
    pub fn new(style: FormatterStyle) -> (r: Self)
        ensures
            r == (StdoutSink { style, severity_floor: Severity::Trace }),
    {
        StdoutSink { style, severity_floor: Severity::Trace }
    }

    /// Sets the severity below which envelopes are dropped.
    #[must_use]
    pub fn severity_floor(self, sev: Severity) -> (r: Self)
        ensures
            r == (StdoutSink { severity_floor: sev, ..self }),
    {
        StdoutSink { style: self.style, severity_floor: sev }
    }

    /// The text of an envelope and its severity, unless it is dropped.
    pub fn deliver(&self, env: ScrubbedEnvelope<'_>) -> (r: Option<(Severity, String)>)
        ensures
            ({
                let sev = record::known_sev(env@.envelope.sev);
                if sev.rank() < self.severity_floor.rank() {
                    r is None
                } else {
                    &&& r matches Some((s, text))
                    &&& s == sev
                    &&& text@ == styled(self.style, env@.envelope, env@.payload.len())
                }
            }),
    {
        let envelope = env.envelope();
        let sev = envelope.native_sev();
        if !sev.at_least(self.severity_floor) {
            return None;
        }
        let size: usize = env.payload().len();
        let text = match self.style {
            FormatterStyle::Compact => render_compact(envelope),
            FormatterStyle::Full => render_full(envelope, size),
            FormatterStyle::Pretty => render_pretty(envelope, size),
            FormatterStyle::Json => render_json(envelope),
        };
        Some((sev, text))
    }
}

// ---------------------------------------------------------------------------
// What the text says.
// ---------------------------------------------------------------------------
/// A moment is told by its date and its time of day, to the microsecond.
pub proof fn law_a_moment_is_told_by_date_and_time(
    date: calendar::Date,
    hour: nat,
    minute: nat,
    second: nat,
    micros: nat,
    rest: nat,
    ts_ns: nat,
)
    requires
        date.is_valid(),
        date.day_number() >= 0,
        hour < 24,
        minute < 60,
        second < 60,
        micros < 1_000_000,
        rest < 1_000,
        ts_ns == (((date.day_number() * 24 + hour) * 60 + minute) * 60 + second) * 1_000_000_000
            + micros * 1_000 + rest,
    ensures
        utc_text(ts_ns) == text::zero_padded(date.year as nat, 4) + "-"@ + text::zero_padded(
            date.month as nat,
            2,
        ) + "-"@ + text::zero_padded(date.day as nat, 2) + "T"@ + text::zero_padded(hour, 2) + ":"@
            + text::zero_padded(minute, 2) + ":"@ + text::zero_padded(second, 2) + "."@
            + text::zero_padded(micros, 6) + "Z"@,
{
    reveal_strlit("-");
    reveal_strlit("T");
    reveal_strlit(":");
    reveal_strlit(".");
    reveal_strlit("Z");
    calendar::law_one_date_per_day(date);
    lemma_time_of_day(date.day_number(), hour, minute, second, micros, rest, ts_ns);
    let day = text::zero_padded(date.year as nat, 4).push('-') + text::zero_padded(
        date.month as nat,
        2,
    ).push('-') + text::zero_padded(date.day as nat, 2).push('T');
    let clock = text::zero_padded(hour, 2).push(':') + text::zero_padded(minute, 2).push(':')
        + text::zero_padded(second, 2).push('.');
    let end = text::zero_padded(micros, 6);
    assert(utc_text(ts_ns) == day + clock + end.push('Z'));
    lemma_three_parts(
        text::zero_padded(date.year as nat, 4),
        '-',
        text::zero_padded(date.month as nat, 2),
        '-',
        text::zero_padded(date.day as nat, 2),
        'T',
    );
    lemma_three_parts(
        text::zero_padded(hour, 2),
        ':',
        text::zero_padded(minute, 2),
        ':',
        text::zero_padded(second, 2),
        '.',
    );
    assert("-"@ =~= seq!['-']);
    assert("T"@ =~= seq!['T']);
    assert(":"@ =~= seq![':']);
    assert("."@ =~= seq!['.']);
    let told = day + text::zero_padded(hour, 2) + ":"@ + text::zero_padded(minute, 2) + ":"@
        + text::zero_padded(second, 2) + "."@;
    assert(day + clock =~= told);
    assert(told + end.push('Z') =~= told + end + "Z"@);
}

proof fn lemma_three_parts(a: Seq<char>, x: char, b: Seq<char>, y: char, c: Seq<char>, z: char)
    ensures
        a.push(x) + b.push(y) + c.push(z) == a + seq![x] + b + seq![y] + c + seq![z],
{
    assert(a.push(x) + b.push(y) + c.push(z) =~= a + seq![x] + b + seq![y] + c + seq![z]);
}

proof fn lemma_time_of_day(
    days: int,
    hour: nat,
    minute: nat,
    second: nat,
    micros: nat,
    rest: nat,
    ts_ns: nat,
)
    requires
        days >= 0,
        hour < 24,
        minute < 60,
        second < 60,
        micros < 1_000_000,
        rest < 1_000,
        ts_ns == (((days * 24 + hour) * 60 + minute) * 60 + second) * 1_000_000_000 + micros
            * 1_000 + rest,
    ensures
        ts_ns % 1_000_000_000 / 1_000 == micros,
        ts_ns / 1_000_000_000 / 86_400 == days,
        ts_ns / 1_000_000_000 % 86_400 / 3_600 == hour,
        ts_ns / 1_000_000_000 % 86_400 / 60 % 60 == minute,
        ts_ns / 1_000_000_000 % 86_400 % 60 == second,
{
    let secs = ts_ns / 1_000_000_000;
    assert(secs == days * 86_400 + hour * 3_600 + minute * 60 + second);
    let time = secs % 86_400;
    assert(time == hour * 3_600 + minute * 60 + second);
    assert(time / 60 == hour * 60 + minute);
}

/// A moment is told by whole seconds and nine digits behind the point.
pub proof fn law_a_moment_is_told_in_seconds(secs: nat, nanos: nat, width: nat)
    requires
        nanos < 1_000_000_000,
    ensures
        seconds_text(secs * 1_000_000_000 + nanos, width) == text::pad_left(
            text::decimal(secs),
            width,
            ' ',
        ) + "."@ + text::zero_padded(nanos, 9),
{
    reveal_strlit(".");
    let ts = secs * 1_000_000_000 + nanos;
    assert(ts / 1_000_000_000 == secs);
    assert(ts % 1_000_000_000 == nanos);
    assert(seconds_text(ts, width) =~= text::pad_left(text::decimal(secs), width, ' ') + "."@
        + text::zero_padded(nanos, 9));
}

/// Severities are told in capitals, and one that is not known by a question
/// mark.
pub proof fn law_severities_are_told_in_capitals(n: i32)
    ensures
        upper_name(EnumValue::Known(Severity::Trace)) == "TRACE"@,
        upper_name(EnumValue::Known(Severity::Debug)) == "DEBUG"@,
        upper_name(EnumValue::Known(Severity::Info)) == "INFO"@,
        upper_name(EnumValue::Known(Severity::Warn)) == "WARN"@,
        upper_name(EnumValue::Known(Severity::Error)) == "ERROR"@,
        upper_name(EnumValue::Known(Severity::Fatal)) == "FATAL"@,
        upper_name(EnumValue::Known(Severity::Unspecified)) == "?"@,
        upper_name(EnumValue::Unknown(n)) == "?"@,
{
}

/// A dash stands in for an empty text, and for no other.
pub proof fn law_a_dash_stands_for_nothing(s: Seq<char>)
    ensures
        or_dash(Seq::empty()) == "-"@,
        s.len() > 0 ==> or_dash(s) == s,
{
}

/// A value that holds white space, an equals sign or a quote stands between
/// quotes; any other stands as it is.
pub proof fn law_values_are_quoted_where_they_must_be(v: Seq<char>, i: int)
    ensures
        0 <= i < v.len() && (text::is_space(v[i]) || v[i] == '=' || v[i] == '"') ==> {
            let t = value_text(v);
            t.len() >= 2 && t[0] == '"' && t.last() == '"'
        },
        (forall|j: int|
            0 <= j < v.len() ==> !text::is_space(#[trigger] v[j]) && v[j] != '=' && v[j] != '"')
            ==> value_text(v) == v,
{
    if 0 <= i < v.len() && (text::is_space(v[i]) || v[i] == '=' || v[i] == '"') {
        assert(is_quoting(v[i]));
    }
    if forall|j: int|
        0 <= j < v.len() ==> !text::is_space(#[trigger] v[j]) && v[j] != '=' && v[j] != '"' {
        assert forall|j: int| 0 <= j < v.len() implies !is_quoting(#[trigger] v[j]) by {}
    }
}

/// A backslash stands before each quote and each backslash, and before nothing
/// else.
pub proof fn law_quotes_and_backslashes_are_escaped(v: Seq<char>, c: char)
    ensures
        c == '"' || c == '\\' ==> escaped(v.push(c)) == escaped(v).push('\\').push(c),
        c != '"' && c != '\\' ==> escaped(v.push(c)) == escaped(v).push(c),
        escaped(Seq::empty()).len() == 0,
{
    assert(v.push(c).drop_last() =~= v);
    assert(v.push(c).last() == c);
}

proof fn lemma_escaped_differ(a: Seq<char>, b: Seq<char>)
    requires
        escaped(a) == escaped(b),
    ensures
        a == b,
    decreases a.len(),
{
    if a.len() > 0 && b.len() > 0 {
        assert(escaped(a).last() == a.last());
        assert(escaped(b).last() == b.last());
        let x = escaped(a).drop_last();
        let y = escaped(b).drop_last();
        if a.last() == '"' || a.last() == '\\' {
            assert(x.drop_last() =~= escaped(a.drop_last()));
            assert(y.drop_last() =~= escaped(b.drop_last()));
        } else {
            assert(x =~= escaped(a.drop_last()));
            assert(y =~= escaped(b.drop_last()));
        }
        lemma_escaped_differ(a.drop_last(), b.drop_last());
        assert(a =~= a.drop_last().push(a.last()));
        assert(b =~= b.drop_last().push(b.last()));
    } else {
        assert(a.len() == 0 ==> escaped(a).len() == 0);
        assert(b.len() == 0 ==> escaped(b).len() == 0);
        assert(a =~= b);
    }
}

/// Two values are never told by the same text.
pub proof fn law_values_are_told_apart(a: Seq<char>, b: Seq<char>)
    requires
        value_text(a) == value_text(b),
    ensures
        a == b,
{
    let t = value_text(a);
    if quoted(a) {
        assert(t[0] == '"');
        if !quoted(b) {
            assert(is_quoting(b[0]));
        }
        assert(t.subrange(1, t.len() - 1) =~= escaped(a));
        assert(t.subrange(1, t.len() - 1) =~= escaped(b));
        lemma_escaped_differ(a, b);
    } else if quoted(b) {
        assert(t[0] == '"');
        assert(is_quoting(a[0]));
    }
}

/// Labels are told in their order as keys and values: with spaces between them
/// in a compact line, with commas in a list.
pub proof fn law_labels_are_told_in_order(
    pairs: Seq<(Seq<char>, Seq<char>)>,
    key: Seq<char>,
    value: Seq<char>,
    lead: Seq<char>,
    between: Seq<char>,
    end: Seq<char>,
)
    ensures
        fields_text(seq![(key, value)]) == key + "="@ + value_text(value),
        pairs.len() > 0 ==> fields_text(pairs.push((key, value))) == fields_text(pairs) + " "@ + key
            + "="@ + value_text(value),
        listed_labels(seq![(key, value)]) == key + "="@ + value,
        pairs.len() > 0 ==> listed_labels(pairs.push((key, value))) == listed_labels(pairs) + ", "@
            + key + "="@ + value,
        label_texts(pairs.push((key, value)), lead, between, end) == label_texts(
            pairs,
            lead,
            between,
            end,
        ) + lead + key + between + value + end,
        fields_text(Seq::empty()).len() == 0,
        listed_labels(Seq::empty()).len() == 0,
        label_texts(Seq::empty(), lead, between, end).len() == 0,
{
    reveal_strlit("=");
    reveal_strlit(" ");
    let one = seq![(key, value)];
    let all = pairs.push((key, value));
    assert(all.drop_last() =~= pairs);
    assert(fields_text(one) =~= key + "="@ + value_text(value));
    assert(listed_labels(one) =~= key + "="@ + value);
    if pairs.len() > 0 {
        assert(fields_text(all) =~= fields_text(pairs) + " "@ + key + "="@ + value_text(value));
        assert(listed_labels(all) =~= listed_labels(pairs) + ", "@ + key + "="@ + value);
    }
    assert(label_texts(all, lead, between, end) =~= label_texts(pairs, lead, between, end) + lead
        + key + between + value + end);
}

/// What stands behind the last dot of a name is told; a name without a dot is
/// told whole.
pub proof fn law_the_last_part_of_a_name_is_told(front: Seq<char>, last: Seq<char>)
    requires
        forall|i: int| 0 <= i < last.len() ==> #[trigger] last[i] != '.',
    ensures
        leaf(last) == last,
        leaf(front + "."@ + last) == last,
    decreases last.len(),
{
    reveal_strlit(".");
    let s = front + "."@ + last;
    if last.len() > 0 {
        let rest = last.drop_last();
        assert forall|i: int| 0 <= i < rest.len() implies #[trigger] rest[i] != '.' by {
            assert(rest[i] == last[i]);
        }
        law_the_last_part_of_a_name_is_told(front, rest);
        assert(last[last.len() - 1] != '.');
        assert(s.drop_last() =~= front + "."@ + rest);
        assert(s.last() == last.last());
        assert(rest.push(last.last()) =~= last);
    } else {
        assert(s.last() == '.');
        assert(leaf(last) =~= last);
    }
}

/// A compact line says when, how severe, the labels under the last part of the
/// name, the name and the trace. What the envelope has not is left out.
pub proof fn law_a_compact_line_says_what_there_is(env: EnvelopeView)
    ensures
        ({
            let head = utc_text(env.ts_ns as nat) + " "@ + text::pad_left(
                upper_name(env.sev),
                5,
                ' ',
            ) + " "@;
            let labels = fields_text(text_map::ordered(env.labels));
            let scope = if labels.len() > 0 {
                leaf(env.full_name) + "{"@ + labels + "}: "@
            } else {
                Seq::empty()
            };
            let trace = if env.trace_id.len() > 0 || env.span_id.len() > 0 {
                ": trace_id="@ + or_dash(env.trace_id) + " span_id="@ + or_dash(env.span_id)
            } else {
                Seq::empty()
            };
            compact_text(env) == head + scope + env.full_name + trace + "\n"@
        }),
{
    reveal_strlit(" ");
    reveal_strlit("{");
    reveal_strlit("\n");
    let head = utc_text(env.ts_ns as nat) + " "@ + text::pad_left(upper_name(env.sev), 5, ' ')
        + " "@;
    let labels = fields_text(text_map::ordered(env.labels));
    if labels.len() > 0 {
        assert(scope_text(env) =~= leaf(env.full_name) + "{"@ + labels + "}: "@);
    }
    assert(compact_text(env) =~= head + scope_text(env) + env.full_name + trace_text(env) + "\n"@);
}

/// A full line names each part: the service always, the trace and the payload
/// only where there is one.
pub proof fn law_a_full_line_names_its_parts(env: EnvelopeView, n: nat)
    ensures
        ({
            let head = "["@ + seconds_text(env.ts_ns as nat, 10) + " "@ + text::pad_right(
                record::known_sev(env.sev).name(),
                5,
                ' ',
            ) + "] "@ + text::pad_right(record::known_tier(env.tier).name(), 6, ' ') + " "@
                + env.full_name;
            let service = " service="@ + or_dash(env.service) + " instance="@ + or_dash(
                env.instance,
            ) + " version="@ + or_dash(env.version) + " reason="@ + record::known_reason(
                env.sampling_reason,
            ).name();
            let trace = if env.trace_id.len() > 0 || env.span_id.len() > 0 {
                " trace_id="@ + or_dash(env.trace_id) + " span_id="@ + or_dash(env.span_id)
                    + " parent="@ + or_dash(env.parent_span_id)
            } else {
                Seq::empty()
            };
            let labels = label_texts(
                text_map::ordered(env.labels),
                " label."@,
                "="@,
                Seq::empty(),
            );
            let payload = if n > 0 {
                " payload_bytes="@ + text::decimal(n)
            } else {
                Seq::empty()
            };
            full_text(env, n) == head + service + trace + labels + payload + "\n"@
        }),
{
    reveal_strlit("[");
    reveal_strlit(" ");
    reveal_strlit("\n");
    let head = "["@ + seconds_text(env.ts_ns as nat, 10) + " "@ + text::pad_right(
        record::known_sev(env.sev).name(),
        5,
        ' ',
    ) + "] "@ + text::pad_right(record::known_tier(env.tier).name(), 6, ' ') + " "@ + env.full_name;
    assert(full_head(env) =~= head);
    assert(full_text(env, n) =~= full_parts(env, n) + "\n"@);
}

/// A pretty text has a line for the event and one for the service, and lines for
/// the trace, the labels and the payload only where there are any.
pub proof fn law_a_pretty_text_has_a_line_for_each(env: EnvelopeView, n: nat)
    ensures
        ({
            let head = "─── "@ + env.full_name + " @ "@ + seconds_text(env.ts_ns as nat, 0) + " "@
                + record::known_sev(env.sev).name() + " "@ + record::known_tier(env.tier).name()
                + " ───"@ + "\n"@;
            let service = "    service: "@ + env.service + " ("@ + env.version + ") instance: "@
                + env.instance + "\n"@;
            let trace = if env.trace_id.len() > 0 {
                "    trace:   "@ + env.trace_id + "/"@ + env.span_id + " parent="@
                    + env.parent_span_id + "\n"@
            } else {
                Seq::empty()
            };
            let labels = if env.labels == Map::<Seq<char>, Seq<char>>::empty() {
                Seq::empty()
            } else {
                "    labels:\n"@ + label_texts(
                    text_map::ordered(env.labels),
                    "        "@,
                    " = "@,
                    "\n"@,
                )
            };
            let payload = if n > 0 {
                "    payload: "@ + text::decimal(n) + " bytes\n"@
            } else {
                Seq::empty()
            };
            pretty_text(env, n) == head + service + trace + labels + payload
        }),
{
    reveal_strlit(" ");
    reveal_strlit("/");
    reveal_strlit("\n");
    assert(pretty_head(env) =~= "─── "@ + env.full_name + " @ "@ + seconds_text(
        env.ts_ns as nat,
        0,
    ) + " "@ + record::known_sev(env.sev).name() + " "@ + record::known_tier(env.tier).name()
        + " ───"@ + "\n"@);
    assert(pretty_service(env) =~= "    service: "@ + env.service + " ("@ + env.version
        + ") instance: "@ + env.instance + "\n"@);
    if env.trace_id.len() > 0 {
        assert(pretty_trace(env) =~= "    trace:   "@ + env.trace_id + "/"@ + env.span_id
            + " parent="@ + env.parent_span_id + "\n"@);
    }
}

pub(crate) proof fn lemma_keys_differ()
    ensures
        "ts_ns"@.len() == 5,
        "sev"@.len() == 3,
        "tier"@.len() == 4,
        "full_name"@.len() == 9,
        "service"@.len() == 7,
        "instance"@.len() == 8,
        "version"@.len() == 7,
        "trace_id"@.len() == 8,
        "span_id"@.len() == 7,
        "parent_span_id"@.len() == 14,
        "schema_hash"@.len() == 11,
        "callsite_id"@.len() == 11,
        "labels"@.len() == 6,
        "service"@[1] == 'e',
        "version"@[1] == 'e',
        "span_id"@[1] == 'p',
        "service"@[0] == 's',
        "version"@[0] == 'v',
        "instance"@[0] == 'i',
        "trace_id"@[0] == 't',
        "schema_hash"@[0] == 's',
        "callsite_id"@[0] == 'c',
{
    reveal_strlit("ts_ns");
    reveal_strlit("sev");
    reveal_strlit("tier");
    reveal_strlit("full_name");
    reveal_strlit("service");
    reveal_strlit("instance");
    reveal_strlit("version");
    reveal_strlit("trace_id");
    reveal_strlit("span_id");
    reveal_strlit("parent_span_id");
    reveal_strlit("schema_hash");
    reveal_strlit("callsite_id");
    reveal_strlit("labels");
}

/// Each field of an envelope is found under its name, and left out where it says
/// nothing.
pub proof fn law_json_has_each_field_under_its_name(env: EnvelopeView)
    ensures
        ({
            let m = json_object(env);
            &&& m.contains_pair("ts_ns"@, JsonView::Number(env.ts_ns))
            &&& m.contains_pair("sev"@, JsonView::Text(record::known_sev(env.sev).name()))
            &&& m.contains_pair("tier"@, JsonView::Text(record::known_tier(env.tier).name()))
            &&& m.contains_pair("full_name"@, JsonView::Text(env.full_name))
            &&& env.service.len() > 0 ==> m.contains_pair("service"@, JsonView::Text(env.service))
            &&& env.instance.len() > 0 ==> m.contains_pair(
                "instance"@,
                JsonView::Text(env.instance),
            )
            &&& env.version.len() > 0 ==> m.contains_pair("version"@, JsonView::Text(env.version))
            &&& env.trace_id.len() > 0 ==> m.contains_pair(
                "trace_id"@,
                JsonView::Text(env.trace_id),
            )
            &&& env.span_id.len() > 0 ==> m.contains_pair("span_id"@, JsonView::Text(env.span_id))
            &&& env.parent_span_id.len() > 0 ==> m.contains_pair(
                "parent_span_id"@,
                JsonView::Text(env.parent_span_id),
            )
            &&& env.schema_hash > 0 ==> m.contains_pair(
                "schema_hash"@,
                JsonView::Number(env.schema_hash),
            )
            &&& env.callsite_id > 0 ==> m.contains_pair(
                "callsite_id"@,
                JsonView::Number(env.callsite_id),
            )
            &&& env.service.len() == 0 ==> !m.contains_key("service"@)
            &&& env.trace_id.len() == 0 ==> !m.contains_key("trace_id"@)
            &&& env.schema_hash == 0 ==> !m.contains_key("schema_hash"@)
            &&& env.callsite_id == 0 ==> !m.contains_key("callsite_id"@)
            &&& env.labels == Map::<Seq<char>, Seq<char>>::empty() ==> !m.contains_key("labels"@)
            &&& env.labels != Map::<Seq<char>, Seq<char>>::empty() ==> m.contains_pair(
                "labels"@,
                JsonView::Object(json::texts_object(env.labels)),
            )
        }),
{
    lemma_keys_differ();
}

/// Each style writes its own text, and JSON ends its line.
pub proof fn law_styles_write_their_own_text(env: EnvelopeView, n: nat)
    ensures
        styled(FormatterStyle::Compact, env, n) == compact_text(env),
        styled(FormatterStyle::Full, env, n) == full_text(env, n),
        styled(FormatterStyle::Pretty, env, n) == pretty_text(env, n),
        styled(FormatterStyle::Json, env, n).drop_last() == json::object_text(json_object(env)),
        styled(FormatterStyle::Json, env, n).last() == '\n',
{
    assert(styled(FormatterStyle::Json, env, n).drop_last() =~= json::object_text(
        json_object(env),
    ));
}

/// A sink writes what is as severe as its floor, in its own style, and drops the
/// rest.
pub proof fn law_the_floor_decides_what_is_written(
    sink: StdoutSink,
    env: ScrubbedEnvelope<'_>,
    r: Option<(Severity, String)>,
)
    requires
        call_ensures(StdoutSink::deliver, (&sink, env), r),
    ensures
        r is Some <==> record::known_sev(env@.envelope.sev).rank() >= sink.severity_floor.rank(),
        r matches Some((sev, text)) ==> {
            &&& sev == record::known_sev(env@.envelope.sev)
            &&& text@ == styled(sink.style, env@.envelope, env@.payload.len())
        },
{
}

} // verus!
