//! The events by which the library tells what it did: each is an envelope
//! with labels and no payload.

use vstd::prelude::*;

use crate::envelope::{record, EnvelopeView, ObsEnvelope};
use crate::text::{self, chars_of, push_decimal, push_hex, text_of};
use crate::types::{EnumValue, Severity, Tier};

verus! {

/// An event with no labels yet.
pub open spec fn base(full_name: Seq<char>, sev: Severity) -> EnvelopeView {
    EnvelopeView {
        full_name,
        tier: EnumValue::Known(Tier::Log),
        sev: EnumValue::Known(sev),
        ..record::empty_envelope()
    }
}

/// The event with one more label.
pub open spec fn labelled(env: EnvelopeView, key: Seq<char>, value: Seq<char>) -> EnvelopeView {
    EnvelopeView { labels: env.labels.insert(key, value), ..env }
}

/// `s`, cut to `max` characters where it takes more than `max` bytes, with an
/// ellipsis to show that.
pub open spec fn truncated(s: Seq<char>, max: nat) -> Seq<char> {
    if text::byte_len(s) <= max {
        s
    } else {
        (if s.len() <= max {
            s
        } else {
            s.take(max as int)
        }).push('…')
    }
}

fn base_envelope(full_name: &str, sev: Severity) -> (r: ObsEnvelope)
    ensures
        r@ == base(full_name@, sev),
{
    let mut env = ObsEnvelope::default();
    env.full_name = full_name.to_string();
    env.tier = EnumValue::Known(Tier::Log);
    env.sev = EnumValue::Known(sev);
    env
}

/// Sets a label of an event.
pub(crate) fn label(env: &mut ObsEnvelope, key: &str, value: &str)
    ensures
        final(env)@ == labelled(old(env)@, key@, value@),
{
    env.set_label(key.to_string(), value.to_string());
}

fn label_number(env: &mut ObsEnvelope, key: &str, value: u64)
    ensures
        final(env)@ == labelled(old(env)@, key@, text::decimal(value as nat)),
{
    let mut text = String::new();
    push_decimal(&mut text, value);
    proof {
        assert(text@ =~= text::decimal(value as nat));
    }
    env.set_label(key.to_string(), text);
}

fn label_hex(env: &mut ObsEnvelope, key: &str, value: u64)
    ensures
        final(env)@ == labelled(old(env)@, key@, text::hex_digits(value as nat, 16)),
{
    let mut text = String::new();
    push_hex(&mut text, value, 16);
    proof {
        assert(text@ =~= text::hex_digits(value as nat, 16));
    }
    env.set_label(key.to_string(), text);
}

/// `s`, cut to `max` characters where it takes more than `max` bytes.
pub fn truncate(s: &str, max: usize) -> (r: String)
    ensures
        r@ == truncated(s@, max as nat),
{
    if s.as_bytes().len() <= max {
        return s.to_string();
    }
    let chars = chars_of(s);
    let n: usize = if chars.len() <= max {
        chars.len()
    } else {
        max
    };
    let front = vstd::slice::slice_subrange(chars.as_slice(), 0, n);
    proof {
        assert(front@ =~= if s@.len() <= max {
            s@
        } else {
            s@.take(max as int)
        });
    }
    let mut out = text_of(front);
    out.push('…');
    out
}

/// The schema registry was set up.
pub fn registry_initialized(schema_count: u64, arrow_assembly_ns: u64) -> (r: ObsEnvelope)
    ensures
        r@ == labelled(
            labelled(
                base("obs.runtime.v1.ObsRegistryInitialized"@, Severity::Debug),
                "schema_count"@,
                text::decimal(schema_count as nat),
            ),
            "arrow_assembly_ns"@,
            text::decimal(arrow_assembly_ns as nat),
        ),
{
    let mut env = base_envelope("obs.runtime.v1.ObsRegistryInitialized", Severity::Debug);
    label_number(&mut env, "schema_count", schema_count);
    label_number(&mut env, "arrow_assembly_ns", arrow_assembly_ns);
    env
}

/// A new configuration is in force.
pub fn config_reloaded(config_hash: u64) -> (r: ObsEnvelope)
    ensures
        r@ == labelled(
            base("obs.runtime.v1.ObsConfigReloaded"@, Severity::Info),
            "config_hash"@,
            text::hex_digits(config_hash as nat, 16),
        ),
{
    let mut env = base_envelope("obs.runtime.v1.ObsConfigReloaded", Severity::Info);
    label_hex(&mut env, "config_hash", config_hash);
    env
}

/// A new configuration was refused.
pub fn config_reload_failed(reason: &str) -> (r: ObsEnvelope)
    ensures
        r@ == labelled(
            base("obs.runtime.v1.ObsConfigReloadFailed"@, Severity::Warn),
            "reason"@,
            truncated(reason@, 512),
        ),
{
    let mut env = base_envelope("obs.runtime.v1.ObsConfigReloadFailed", Severity::Warn);
    let text = truncate(reason, 512);
    label(&mut env, "reason", text.as_str());
    env
}

/// A sink met an event whose schema it does not know.
pub fn schema_unknown(sink: &str, full_name: &str) -> (r: ObsEnvelope)
    ensures
        r@ == labelled(
            labelled(
                base("obs.runtime.v1.ObsSchemaUnknown"@, Severity::Debug),
                "sink"@,
                sink@,
            ),
            "full_name"@,
            full_name@,
        ),
{
    let mut env = base_envelope("obs.runtime.v1.ObsSchemaUnknown", Severity::Debug);
    label(&mut env, "sink", sink);
    label(&mut env, "full_name", full_name);
    env
}

/// An audit record went to the spool.
pub fn audit_spooled(full_name: &str) -> (r: ObsEnvelope)
    ensures
        r@ == labelled(
            base("obs.runtime.v1.ObsAuditSpooled"@, Severity::Warn),
            "full_name"@,
            full_name@,
        ),
{
    let mut env = base_envelope("obs.runtime.v1.ObsAuditSpooled", Severity::Warn);
    label(&mut env, "full_name", full_name);
    env
}

/// The spool did not take an audit record.
pub fn audit_spool_failed(reason: &str) -> (r: ObsEnvelope)
    ensures
        r@ == labelled(
            base("obs.runtime.v1.ObsAuditSpoolFailed"@, Severity::Fatal),
            "reason"@,
            truncated(reason@, 512),
        ),
{
    let mut env = base_envelope("obs.runtime.v1.ObsAuditSpoolFailed", Severity::Fatal);
    let text = truncate(reason, 512);
    label(&mut env, "reason", text.as_str());
    env
}

/// Audit records of an earlier process were recovered.
pub fn audit_spool_recovered(record_count: u64) -> (r: ObsEnvelope)
    ensures
        r@ == labelled(
            base("obs.runtime.v1.ObsAuditSpoolRecovered"@, Severity::Info),
            "record_count"@,
            text::decimal(record_count as nat),
        ),
{
    let mut env = base_envelope("obs.runtime.v1.ObsAuditSpoolRecovered", Severity::Info);
    label_number(&mut env, "record_count", record_count);
    env
}

/// An envelope was dropped.
pub fn sink_dropped(tier: &str, reason: &str) -> (r: ObsEnvelope)
    ensures
        r@ == labelled(
            labelled(base("obs.runtime.v1.ObsSinkDropped"@, Severity::Warn), "tier"@, tier@),
            "reason"@,
            reason@,
        ),
{
    let mut env = base_envelope("obs.runtime.v1.ObsSinkDropped", Severity::Warn);
    label(&mut env, "tier", tier);
    label(&mut env, "reason", reason);
    env
}

/// Two events share the hash of their schemas.
pub fn callsite_hash_collision(hash: u64, first: &str, second: &str) -> (r: ObsEnvelope)
    ensures
        r@ == labelled(
            labelled(
                labelled(
                    base("obs.runtime.v1.ObsCallsiteHashCollision"@, Severity::Warn),
                    "schema_hash"@,
                    text::hex_digits(hash as nat, 16),
                ),
                "first"@,
                first@,
            ),
            "second"@,
            second@,
        ),
{
    let mut env = base_envelope("obs.runtime.v1.ObsCallsiteHashCollision", Severity::Warn);
    label_hex(&mut env, "schema_hash", hash);
    label(&mut env, "first", first);
    label(&mut env, "second", second);
    env
}

/// A span was begun and not ended in time.
pub fn span_pair_orphaned(full_name: &str) -> (r: ObsEnvelope)
    ensures
        r@ == labelled(
            base("obs.runtime.v1.ObsSpanPairOrphaned"@, Severity::Debug),
            "full_name"@,
            full_name@,
        ),
{
    let mut env = base_envelope("obs.runtime.v1.ObsSpanPairOrphaned", Severity::Debug);
    label(&mut env, "full_name", full_name);
    env
}

/// A label takes more values than it may.
pub fn label_cardinality_high(full_name: &str, label_key: &str, estimated_distinct: u64) -> (r:
    ObsEnvelope)
    ensures
        r@ == labelled(
            labelled(
                labelled(
                    base("obs.runtime.v1.ObsLabelCardinalityHigh"@, Severity::Warn),
                    "full_name"@,
                    full_name@,
                ),
                "label_key"@,
                label_key@,
            ),
            "estimated_distinct"@,
            text::decimal(estimated_distinct as nat),
        ),
{
    let mut env = base_envelope("obs.runtime.v1.ObsLabelCardinalityHigh", Severity::Warn);
    label(&mut env, "full_name", full_name);
    label(&mut env, "label_key", label_key);
    label_number(&mut env, "estimated_distinct", estimated_distinct);
    env
}

/// An envelope was dropped for the size of its payload.
pub fn oversized_dropped(full_name: &str, size_bytes: u64) -> (r: ObsEnvelope)
    ensures
        r@ == labelled(
            labelled(
                base("obs.runtime.v1.ObsOversizedDropped"@, Severity::Warn),
                "full_name"@,
                full_name@,
            ),
            "size_bytes"@,
            text::decimal(size_bytes as nat),
        ),
{
    let mut env = base_envelope("obs.runtime.v1.ObsOversizedDropped", Severity::Warn);
    label(&mut env, "full_name", full_name);
    label_number(&mut env, "size_bytes", size_bytes);
    env
}

/// An envelope was dropped for the size of a label.
pub fn oversized_label_dropped(full_name: &str, label_name: &str, size_bytes: u64) -> (r:
    ObsEnvelope)
    ensures
        r@ == labelled(
            labelled(
                labelled(
                    labelled(
                        base("obs.runtime.v1.ObsOversizedDropped"@, Severity::Warn),
                        "full_name"@,
                        full_name@,
                    ),
                    "label_name"@,
                    label_name@,
                ),
                "size_bytes"@,
                text::decimal(size_bytes as nat),
            ),
            "reason"@,
            "label"@,
        ),
{
    let mut env = base_envelope("obs.runtime.v1.ObsOversizedDropped", Severity::Warn);
    label(&mut env, "full_name", full_name);
    label(&mut env, "label_name", label_name);
    label_number(&mut env, "size_bytes", size_bytes);
    label(&mut env, "reason", "label");
    env
}

/// A text from outside was cut.
pub fn label_oversized(field: &str, original_size: u64, capped_size: u64) -> (r: ObsEnvelope)
    ensures
        r@ == labelled(
            labelled(
                labelled(
                    base("obs.runtime.v1.ObsLabelOversized"@, Severity::Warn),
                    "field"@,
                    field@,
                ),
                "original_size"@,
                text::decimal(original_size as nat),
            ),
            "capped_size"@,
            text::decimal(capped_size as nat),
        ),
{
    let mut env = base_envelope("obs.runtime.v1.ObsLabelOversized", Severity::Warn);
    label(&mut env, "field", field);
    label_number(&mut env, "original_size", original_size);
    label_number(&mut env, "capped_size", capped_size);
    env
}

/// An event about the library itself is a log record of its name and severity
/// that brings nothing else.
pub proof fn law_an_event_begins_bare(full_name: Seq<char>, sev: Severity)
    ensures
        ({
            let env = base(full_name, sev);
            &&& env.full_name == full_name
            &&& env.sev == EnumValue::Known(sev)
            &&& env.tier == EnumValue::Known(Tier::Log)
            &&& env.labels == Map::<Seq<char>, Seq<char>>::empty()
            &&& env.payload.len() == 0
            &&& env.trace_id.len() == 0
            &&& env.ts_ns == 0
        }),
{
}

/// A label that is set is found under its key, and nothing else changes.
pub proof fn law_a_label_is_found(
    env: EnvelopeView,
    key: Seq<char>,
    value: Seq<char>,
    other: Seq<char>,
)
    ensures
        labelled(env, key, value).labels.contains_pair(key, value),
        other != key ==> (labelled(env, key, value).labels.contains_key(other)
            <==> env.labels.contains_key(other)),
        other != key ==> labelled(env, key, value).labels[other] == env.labels[other],
        labelled(env, key, value).full_name == env.full_name,
        labelled(env, key, value).sev == env.sev,
        labelled(env, key, value).tier == env.tier,
        labelled(env, key, value).payload == env.payload,
{
}

/// A text that fits is told whole. Of any other the first characters are told,
/// as many as there may be bytes, and an ellipsis.
pub proof fn law_long_texts_are_told_in_part(s: Seq<char>, max: nat)
    ensures
        text::byte_len(s) <= max ==> truncated(s, max) == s,
        text::byte_len(s) > max ==> {
            let told = truncated(s, max);
            &&& told.last() == '…'
            &&& told.drop_last().is_prefix_of(s)
            &&& told.len() - 1 == if s.len() < max {
                s.len() as int
            } else {
                max as int
            }
        },
{
    if text::byte_len(s) > max {
        let told = truncated(s, max);
        assert(told.drop_last() =~= s.take(told.len() - 1));
    }
}

/// Whether an event has a name, a severity and as many labels.
pub open spec fn is_event(
    env: EnvelopeView,
    full_name: Seq<char>,
    sev: Severity,
    labels: Map<Seq<char>, Seq<char>>,
) -> bool {
    &&& env.full_name == full_name
    &&& env.sev == EnumValue::Known(sev)
    &&& env.tier == EnumValue::Known(Tier::Log)
    &&& env.labels == labels
    &&& env.payload.len() == 0
}

/// What is told of the registry and of configurations: that one is in force by
/// its hash, and as a warning that one was refused.
pub proof fn law_configurations_are_told(
    schemas: u64,
    ns: u64,
    a: ObsEnvelope,
    hash: u64,
    b: ObsEnvelope,
    reason: &str,
    c: ObsEnvelope,
    sink: &str,
    name: &str,
    d: ObsEnvelope,
)
    requires
        call_ensures(registry_initialized, (schemas, ns), a),
        call_ensures(config_reloaded, (hash,), b),
        call_ensures(config_reload_failed, (reason,), c),
        call_ensures(schema_unknown, (sink, name), d),
    ensures
        is_event(
            a@,
            "obs.runtime.v1.ObsRegistryInitialized"@,
            Severity::Debug,
            map!["schema_count"@ => text::decimal(schemas as nat), "arrow_assembly_ns"@ =>
                text::decimal(ns as nat)],
        ),
        is_event(
            b@,
            "obs.runtime.v1.ObsConfigReloaded"@,
            Severity::Info,
            map!["config_hash"@ => text::hex_digits(hash as nat, 16)],
        ),
        is_event(
            c@,
            "obs.runtime.v1.ObsConfigReloadFailed"@,
            Severity::Warn,
            map!["reason"@ => truncated(reason@, 512)],
        ),
        is_event(
            d@,
            "obs.runtime.v1.ObsSchemaUnknown"@,
            Severity::Debug,
            map!["sink"@ => sink@, "full_name"@ => name@],
        ),
{
}

/// What is told of audit records: as a warning that one was spooled, as fatal
/// that one was lost, and how many were recovered.
pub proof fn law_audit_records_are_told(
    name: &str,
    a: ObsEnvelope,
    reason: &str,
    b: ObsEnvelope,
    count: u64,
    c: ObsEnvelope,
)
    requires
        call_ensures(audit_spooled, (name,), a),
        call_ensures(audit_spool_failed, (reason,), b),
        call_ensures(audit_spool_recovered, (count,), c),
    ensures
        is_event(
            a@,
            "obs.runtime.v1.ObsAuditSpooled"@,
            Severity::Warn,
            map!["full_name"@ => name@],
        ),
        is_event(
            b@,
            "obs.runtime.v1.ObsAuditSpoolFailed"@,
            Severity::Fatal,
            map!["reason"@ => truncated(reason@, 512)],
        ),
        is_event(
            c@,
            "obs.runtime.v1.ObsAuditSpoolRecovered"@,
            Severity::Info,
            map!["record_count"@ => text::decimal(count as nat)],
        ),
{
}

/// What is told of envelopes that were dropped, each as a warning: by the tier
/// and the reason, or by the name and the size that was too much.
pub proof fn law_dropped_envelopes_are_told(
    tier: &str,
    reason: &str,
    a: ObsEnvelope,
    name: &str,
    size: u64,
    b: ObsEnvelope,
    label_name: &str,
    c: ObsEnvelope,
    field: &str,
    left: u64,
    d: ObsEnvelope,
)
    requires
        call_ensures(sink_dropped, (tier, reason), a),
        call_ensures(oversized_dropped, (name, size), b),
        call_ensures(oversized_label_dropped, (name, label_name, size), c),
        call_ensures(label_oversized, (field, size, left), d),
    ensures
        is_event(
            a@,
            "obs.runtime.v1.ObsSinkDropped"@,
            Severity::Warn,
            map!["tier"@ => tier@, "reason"@ => reason@],
        ),
        is_event(
            b@,
            "obs.runtime.v1.ObsOversizedDropped"@,
            Severity::Warn,
            map!["full_name"@ => name@, "size_bytes"@ => text::decimal(size as nat)],
        ),
        is_event(
            c@,
            "obs.runtime.v1.ObsOversizedDropped"@,
            Severity::Warn,
            map!["full_name"@ => name@, "label_name"@ => label_name@, "size_bytes"@ =>
                text::decimal(size as nat), "reason"@ => "label"@],
        ),
        is_event(
            d@,
            "obs.runtime.v1.ObsLabelOversized"@,
            Severity::Warn,
            map!["field"@ => field@, "original_size"@ => text::decimal(size as nat),
                "capped_size"@ => text::decimal(left as nat)],
        ),
{
}

/// What is told of events that do not go together: two of one hash, a span that
/// was not ended, and a label with too many values.
pub proof fn law_what_does_not_fit_is_told(
    hash: u64,
    first: &str,
    second: &str,
    a: ObsEnvelope,
    name: &str,
    b: ObsEnvelope,
    key: &str,
    count: u64,
    c: ObsEnvelope,
)
    requires
        call_ensures(callsite_hash_collision, (hash, first, second), a),
        call_ensures(span_pair_orphaned, (name,), b),
        call_ensures(label_cardinality_high, (name, key, count), c),
    ensures
        is_event(
            a@,
            "obs.runtime.v1.ObsCallsiteHashCollision"@,
            Severity::Warn,
            map!["schema_hash"@ => text::hex_digits(hash as nat, 16), "first"@ => first@,
                "second"@ => second@],
        ),
        is_event(
            b@,
            "obs.runtime.v1.ObsSpanPairOrphaned"@,
            Severity::Debug,
            map!["full_name"@ => name@],
        ),
        is_event(
            c@,
            "obs.runtime.v1.ObsLabelCardinalityHigh"@,
            Severity::Warn,
            map!["full_name"@ => name@, "label_key"@ => key@, "estimated_distinct"@ =>
                text::decimal(count as nat)],
        ),
{
}

} // verus!
