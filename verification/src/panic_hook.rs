//! The event that tells of a panic.

use vstd::prelude::*;
use vstd::utf8::*;

use crate::envelope::{record, EnvelopeView, ObsEnvelope};
use crate::self_events::{self, label};
use crate::text::{self, push_decimal};
use crate::types::{EnumValue, SamplingReason, Severity, Tier};

verus! {

/// Where a panic happened.
pub open spec fn location_text(file: Seq<char>, line: u32, column: u32) -> Seq<char> {
    file + ":"@ + text::decimal(line as nat) + ":"@ + text::decimal(column as nat)
}

/// Where a panic happened: file, line and column.
pub fn panic_location(file: &str, line: u32, column: u32) -> (r: String)
    ensures
        r@ == location_text(file@, line, column),
{
    let mut out = String::new();
    out.append(file);
    out.append(":");
    push_decimal(&mut out, line as u64);
    out.append(":");
    push_decimal(&mut out, column as u64);
    proof {
        assert(out@ =~= location_text(file@, line, column));
    }
    out
}

/// The text of a panic that carries none.
pub fn panic_message(payload: Option<&str>) -> (r: String)
    ensures
        r@ == (match payload {
            Some(s) => s@,
            None => "panic with non-string payload"@,
        }),
{
    match payload {
        Some(s) => s.to_string(),
        None => "panic with non-string payload".to_string(),
    }
}

/// Whether a text can be cut after `max` bytes.
pub open spec fn can_cut(s: Seq<char>, max: nat) -> bool {
    text::byte_len(s) <= max || is_char_boundary(encode_utf8(s), max as int)
}

/// `s`, cut after `max` bytes, with an ellipsis to show that.
pub open spec fn cut(s: Seq<char>, max: nat) -> Seq<char> {
    if text::byte_len(s) <= max {
        s
    } else {
        decode_utf8(encode_utf8(s).subrange(0, max as int)).push('…')
    }
}

fn truncate(s: &str, max: usize) -> (r: String)
    requires
        can_cut(s@, max as nat),
    ensures
        r@ == cut(s@, max as nat),
{
    if s.as_bytes().len() <= max {
        return s.to_string();
    }
    let (front, _back) = s.split_at(max);
    proof {
        encode_utf8_decode_utf8(front@);
        assert(encode_utf8(front@) =~= encode_utf8(s@).subrange(0, max as int));
    }
    let mut out = front.to_string();
    out.push('…');
    out
}

/// The event of a panic.
pub open spec fn panicked(message: Seq<char>, location: Seq<char>, ts_ns: u64) -> EnvelopeView {
    let env = EnvelopeView {
        full_name: "obs.runtime.v1.ObsPanicked"@,
        tier: EnumValue::Known(Tier::Log),
        sev: EnumValue::Known(Severity::Fatal),
        ts_ns,
        sampling_reason: EnumValue::Known(SamplingReason::Override),
        ..record::empty_envelope()
    };
    self_events::labelled(
        self_events::labelled(env, "message"@, cut(message, 1024)),
        "location"@,
        location,
    )
}

/// The event of a panic. A message of more than 1024 bytes has to be one that
/// can be cut there.
pub fn panicked_event(message: &str, location: &str, ts_ns: u64) -> (r: ObsEnvelope)
    requires
        can_cut(message@, 1024),
    ensures
        r@ == panicked(message@, location@, ts_ns),
{
    let mut env = ObsEnvelope::default();
    env.full_name = "obs.runtime.v1.ObsPanicked".to_string();
    env.tier = EnumValue::Known(Tier::Log);
    env.sev = EnumValue::Known(Severity::Fatal);
    env.ts_ns = ts_ns;
    env.sampling_reason = EnumValue::Known(SamplingReason::Override);
    let text = truncate(message, 1024);
    label(&mut env, "message", text.as_str());
    label(&mut env, "location", location);
    env
}

/// The place of a panic names the file, then the line, then the column.
pub proof fn law_a_place_is_file_line_and_column(file: Seq<char>, line: u32, column: u32)
    ensures
        file.is_prefix_of(location_text(file, line, column)),
        location_text(file, line, column).skip(file.len() as int) == seq![':'] + text::decimal(
            line as nat,
        ) + seq![':'] + text::decimal(column as nat),
{
    reveal_strlit(":");
    let all = location_text(file, line, column);
    assert(":"@ =~= seq![':']);
    assert(all.take(file.len() as int) =~= file);
    assert(all.skip(file.len() as int) =~= seq![':'] + text::decimal(line as nat) + seq![':']
        + text::decimal(column as nat));
}

/// A message that fits is kept. Of a longer one the first bytes are kept, as
/// many as there may be, and an ellipsis follows.
pub proof fn law_a_cut_message_keeps_its_first_bytes(s: Seq<char>, max: nat)
    requires
        can_cut(s, max),
    ensures
        text::byte_len(s) <= max ==> cut(s, max) == s,
        text::byte_len(s) > max ==> {
            &&& cut(s, max).last() == '…'
            &&& encode_utf8(cut(s, max).drop_last()) == encode_utf8(s).take(max as int)
        },
{
    if text::byte_len(s) > max {
        let bytes = encode_utf8(s);
        encode_utf8_valid_utf8(s);
        let (front, back) = (bytes.subrange(0, max as int), bytes.subrange(
            max as int,
            bytes.len() as int,
        ));
        valid_utf8_split(bytes, max as int);
        decode_utf8_encode_utf8(front);
        assert(cut(s, max).drop_last() =~= decode_utf8(front));
        assert(front =~= bytes.take(max as int));
    }
}

/// A panic is a fatal log record that no sampler drops, with what was said and
/// where as its labels.
pub proof fn law_a_panic_is_fatal(message: Seq<char>, location: Seq<char>, ts_ns: u64)
    ensures
        ({
            let env = panicked(message, location, ts_ns);
            &&& env.full_name == "obs.runtime.v1.ObsPanicked"@
            &&& env.sev == EnumValue::Known(Severity::Fatal)
            &&& env.tier == EnumValue::Known(Tier::Log)
            &&& env.sampling_reason == EnumValue::Known(SamplingReason::Override)
            &&& env.ts_ns == ts_ns
            &&& env.labels.contains_pair("location"@, location)
            &&& text::byte_len(message) <= 1024 ==> env.labels.contains_pair("message"@, message)
            &&& env.labels.contains_pair("message"@, cut(message, 1024))
        }),
{
    reveal_strlit("message");
    reveal_strlit("location");
    assert("message"@.len() != "location"@.len());
}

/// A panic is told by its message, and one without a message by words of its
/// own.
pub proof fn law_a_panic_has_a_message(payload: Option<&str>, r: String)
    requires
        call_ensures(panic_message, (payload,), r),
    ensures
        payload matches Some(s) ==> r@ == s@,
        payload is None ==> r@ == "panic with non-string payload"@,
{
}

/// A message that fits can always be told, and a longer one where a character
/// ends at the limit.
pub proof fn law_a_message_that_fits_can_be_told(s: Seq<char>, max: nat)
    ensures
        text::byte_len(s) <= max ==> can_cut(s, max),
        is_char_boundary(encode_utf8(s), max as int) ==> can_cut(s, max),
{
}

} // verus!
