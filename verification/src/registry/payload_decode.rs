//! What a schema's field table makes of a payload.
//!
//! Fields that the table does not declare are passed over, so that an older
//! reader copes with a newer writer. The only failure is a payload that ends
//! inside a field.

use vstd::prelude::*;
use vstd::slice::slice_to_vec;
use vstd::utf8::*;

use super::erased::DecodeError;
use crate::base64::{self, base64_text};
use crate::digest;
use crate::envelope::projection::{self, find_field};
use crate::envelope::{FieldMeta, FieldRole};
use crate::text::utf8_text;
use crate::types::Classification;
use crate::wire::codec::{
    self, decode_tag, decode_value, varint_len, FieldValue, WireFault, WireField, WireKind,
    WireValue,
};

verus! {

/// A decoded value.
#[derive(Debug)]
pub enum RawValue {
    Varint(u64),
    Fixed64(u64),
    Fixed32(u32),
    Bytes(Vec<u8>),
}

/// The number that little-endian bytes spell.
pub open spec fn le_value(b: Seq<u8>) -> nat
    decreases b.len(),
{
    if b.len() == 0 {
        0
    } else {
        b[0] as nat + 256 * le_value(b.skip(1))
    }
}

impl RawValue {
    /// Whether this is what `value` stands for; fixed-width bytes are
    /// little-endian.
    pub open spec fn stands_for(self, value: WireValue) -> bool {
        match (self, value) {
            (RawValue::Varint(a), WireValue::Varint(b)) => a == b,
            (RawValue::Fixed64(a), WireValue::Fixed64(b)) => a == le_value(b),
            (RawValue::Fixed32(a), WireValue::Fixed32(b)) => a == le_value(b),
            (RawValue::Bytes(a), WireValue::Bytes(b)) => a@ == b,
            _ => false,
        }
    }
}

/// A payload as it is walked: the fields met before the end or the first
/// fault, and the offset at which the fault is reported.
pub struct Walked {
    pub fields: Seq<WireField>,
    pub fault: Option<nat>,
}

/// How far a value moves the offset: a length or a number counts as its
/// shortest varint.
pub open spec fn value_span(value: WireValue) -> nat {
    match value {
        WireValue::Varint(v) => codec::varint_bytes(v as nat).len(),
        WireValue::Fixed64(_) => 8,
        WireValue::Fixed32(_) => 4,
        WireValue::Bytes(b) => codec::varint_bytes(b.len()).len() + b.len(),
    }
}

/// What stands at the front of a payload.
pub enum Front {
    /// Nothing is left.
    End,
    /// Something that cannot be read, reported at this offset.
    Fault(nat),
    /// A field, what follows it, and the offset of that.
    Field(WireField, Seq<u8>, nat),
}

/// What stands at the front of `s`, which begins at `offset`. The tag of a
/// group counts as the number zero, and what the group holds is left to be
/// walked as fields of its own.
pub open spec fn front(s: Seq<u8>, offset: nat) -> Front {
    if s.len() == 0 {
        Front::End
    } else {
        match codec::tag_at(s) {
            None => Front::Fault(offset),
            Some((number, kind, body)) => {
                let at = (offset + s.len() - body.len()) as nat;
                match codec::value_at(body, kind) {
                    Err(WireFault::Group) => Front::Field(
                        WireField { number, value: WireValue::Varint(0) },
                        body,
                        at,
                    ),
                    Err(WireFault::Payload { declared }) => Front::Fault(
                        at + codec::varint_bytes(declared as nat).len(),
                    ),
                    Err(_) => Front::Fault(at),
                    Ok((value, rest)) => Front::Field(
                        WireField { number, value },
                        rest,
                        at + value_span(value),
                    ),
                }
            },
        }
    }
}

/// Walks `s`, which begins at `offset`, to its end or its first fault.
pub open spec fn walk(s: Seq<u8>, offset: nat) -> Walked
    decreases s.len(),
{
    match front(s, offset) {
        Front::End => Walked { fields: Seq::empty(), fault: None },
        Front::Fault(at) => Walked { fields: Seq::empty(), fault: Some(at) },
        Front::Field(field, rest, next) => if rest.len() < s.len() {
            let tail = walk(rest, next);
            Walked { fields: seq![field] + tail.fields, fault: tail.fault }
        } else {
            arbitrary()
        },
    }
}

/// What is reported for a fault.
pub open spec fn walk_result(fault: Option<nat>, r: Result<(), DecodeError>) -> bool {
    match fault {
        None => r is Ok,
        Some(at) => r matches Err(DecodeError::Truncated(o)) && o == at,
    }
}

fn le_u64(b: &[u8]) -> (v: u64)
    requires
        b@.len() == 8,
    ensures
        v == le_value(b@),
{
    proof {
        reveal_with_fuel(le_value, 9);
    }
    b[0] as u64 + 0x100 * (b[1] as u64) + 0x1_0000 * (b[2] as u64) + 0x100_0000 * (b[3] as u64)
        + 0x1_0000_0000 * (b[4] as u64) + 0x100_0000_0000 * (b[5] as u64) + 0x1_0000_0000_0000 * (
    b[6] as u64) + 0x100_0000_0000_0000 * (b[7] as u64)
}

fn le_u32(b: &[u8]) -> (v: u32)
    requires
        b@.len() == 4,
    ensures
        v == le_value(b@),
{
    proof {
        reveal_with_fuel(le_value, 5);
    }
    b[0] as u32 + 0x100 * (b[1] as u32) + 0x1_0000 * (b[2] as u32) + 0x100_0000 * (b[3] as u32)
}

/// Reads the value behind a tag and moves `offset` past it.
///
/// # Errors
///
/// A value that is cut short is reported at the offset reached.
fn decode_field_value<'a>(cursor: &'a [u8], kind: WireKind, offset: usize) -> (r: Result<
    (RawValue, &'a [u8], usize),
    DecodeError,
>)
    requires
        offset + cursor@.len() <= usize::MAX,
    ensures
        match codec::value_at(cursor@, kind) {
            Ok((value, rest)) => {
                &&& r matches Ok((raw, left, at))
                &&& raw.stands_for(value)
                &&& left@ == rest
                &&& at == offset + value_span(value)
                &&& at - offset <= cursor@.len() - rest.len()
            },
            Err(WireFault::Group) => {
                &&& r matches Ok((raw, left, at))
                &&& raw == RawValue::Varint(0)
                &&& left@ == cursor@
                &&& at == offset
            },
            Err(WireFault::Payload { declared }) => {
                &&& r matches Err(DecodeError::Truncated(at))
                &&& at == offset + codec::varint_bytes(declared as nat).len()
            },
            Err(_) => {
                &&& r matches Err(DecodeError::Truncated(at))
                &&& at == offset
            },
        },
{
    proof {
        codec::lemma_varint_at_width(cursor@);
        codec::lemma_value_at_bounds(cursor@, kind);
    }
    match decode_value(cursor, kind) {
        Ok((value, rest)) => match value {
            FieldValue::Varint(v) => Ok((RawValue::Varint(v), rest, offset + varint_len(v))),
            FieldValue::Fixed64(b) => Ok((RawValue::Fixed64(le_u64(b)), rest, offset + 8)),
            FieldValue::Fixed32(b) => Ok((RawValue::Fixed32(le_u32(b)), rest, offset + 4)),
            FieldValue::Bytes(b) => {
                let head: usize = varint_len(b.len() as u64);
                Ok((RawValue::Bytes(slice_to_vec(b)), rest, offset + head + b.len()))
            },
        },
        Err(WireFault::Group) => Ok((RawValue::Varint(0), cursor, offset)),
        Err(WireFault::Payload { declared }) => Err(
            DecodeError::Truncated(offset + varint_len(declared)),
        ),
        Err(_) => Err(DecodeError::Truncated(offset)),
    }
}

/// The declared fields among `l`, each with its entry in the table.
pub open spec fn declared(fields: Seq<FieldMeta>, l: Seq<WireField>) -> Seq<(FieldMeta, WireValue)>
    decreases l.len(),
{
    if l.len() == 0 {
        Seq::empty()
    } else {
        let before = declared(fields, l.drop_last());
        match projection::field_of(fields, l.last().number) {
            Some(meta) => before.push((meta, l.last().value)),
            None => before,
        }
    }
}

/// Whether `out` holds the declared fields `l`.
pub open spec fn stand_for(out: Seq<(FieldMeta, RawValue)>, l: Seq<(FieldMeta, WireValue)>) -> bool {
    &&& out.len() == l.len()
    &&& forall|i: int|
        0 <= i < l.len() ==> (#[trigger] out[i]).0 == l[i].0 && out[i].1.stands_for(l[i].1)
}

/// The field at the front of a payload that is not used up: its number and
/// value, what follows it, and the offset of that.
fn next_field<'a>(cursor: &'a [u8], offset: usize) -> (r: Result<
    (u32, RawValue, &'a [u8], usize),
    usize,
>)
    requires
        cursor@.len() > 0,
        offset + cursor@.len() <= usize::MAX,
    ensures
        match (front(cursor@, offset as nat), r) {
            (Front::Field(field, rest, next), Ok((number, raw, left, at))) => {
                &&& number == field.number
                &&& raw.stands_for(field.value)
                &&& left@ == rest
                &&& rest.len() < cursor@.len()
                &&& at == next
                &&& at - offset <= cursor@.len() - rest.len()
            },
            (Front::Fault(o), Err(at)) => at == o,
            _ => false,
        },
{
    proof {
        codec::lemma_tag_at_bounds(cursor@);
    }
    match decode_tag(cursor) {
        None => Err(offset),
        Some((number, kind, body)) => {
            let start: usize = offset + (cursor.len() - body.len());
            proof {
                codec::lemma_value_at_bounds(body@, kind);
            }
            match decode_field_value(body, kind, start) {
                Ok((raw, rest, next)) => Ok((number, raw, rest, next)),
                Err(DecodeError::Truncated(at)) => Err(at),
                Err(_) => Err(offset),
            }
        },
    }
}

/// Walks a payload and keeps the fields that the table declares. The second
/// part is the offset of the fault that ended the walk early.
fn declared_fields(payload: &[u8], fields: &[FieldMeta]) -> (r: (
    Vec<(FieldMeta, RawValue)>,
    Option<usize>,
))
    ensures
        stand_for(r.0@, declared(fields@, walk(payload@, 0).fields)),
        match (walk(payload@, 0).fault, r.1) {
            (None, None) => true,
            (Some(at), Some(o)) => o == at,
            _ => false,
        },
{
    let mut out: Vec<(FieldMeta, RawValue)> = Vec::new();
    let mut cursor = payload;
    let mut offset: usize = 0;
    let total: usize = payload.len();
    let ghost whole = walk(payload@, 0);
    let ghost mut done: Seq<WireField> = Seq::empty();
    proof {
        assert(done + whole.fields =~= whole.fields);
    }
    while cursor.len() > 0
        invariant
            offset + cursor@.len() <= total,
            whole.fields == done + walk(cursor@, offset as nat).fields,
            whole.fault == walk(cursor@, offset as nat).fault,
            whole == walk(payload@, 0),
            stand_for(out@, declared(fields@, done)),
        decreases cursor@.len(),
    {
        match next_field(cursor, offset) {
            Err(at) => {
                proof {
                    assert(done + Seq::<WireField>::empty() =~= done);
                }
                return (out, Some(at));
            },
            Ok((number, value, rest, next)) => {
                proof {
                    let field = front(cursor@, offset as nat)->Field_0;
                    assert(done.push(field).drop_last() =~= done);
                    assert(done + (seq![field] + walk(rest@, next as nat).fields) =~= done.push(
                        field,
                    ) + walk(rest@, next as nat).fields);
                    done = done.push(field);
                }
                if let Some(meta) = find_field(fields, number) {
                    out.push((meta, value));
                }
                cursor = rest;
                offset = next;
            },
        }
    }
    proof {
        assert(done + Seq::<WireField>::empty() =~= done);
    }
    (out, None)
}

/// What a function that walks a payload returns for the fault it met.
fn walk_outcome(fault: Option<usize>) -> (r: Result<(), DecodeError>)
    ensures
        match fault {
            None => r is Ok,
            Some(at) => r == Err::<(), DecodeError>(DecodeError::Truncated(at)),
        },
{
    match fault {
        None => Ok(()),
        Some(at) => Err(DecodeError::Truncated(at)),
    }
}

// ---------------------------------------------------------------------------
// JSON.
// ---------------------------------------------------------------------------
/// A payload field on its way to a JSON object. Floating-point values are
/// carried as their bits.
#[derive(Debug)]
pub enum PayloadJson {
    /// A whole number.
    Number(u64),
    /// A double, as its bits.
    Double(u64),
    /// A single, as its bits.
    Single(u32),
    /// A string.
    Text(String),
}

/// What a payload field is in a JSON object.
pub enum JsonShape {
    Number(nat),
    Double(nat),
    Single(nat),
    Text(Seq<char>),
}

impl View for PayloadJson {
    type V = JsonShape;

    open spec fn view(&self) -> JsonShape {
        match *self {
            PayloadJson::Number(n) => JsonShape::Number(n as nat),
            PayloadJson::Double(n) => JsonShape::Double(n as nat),
            PayloadJson::Single(n) => JsonShape::Single(n as nat),
            PayloadJson::Text(s) => JsonShape::Text(s@),
        }
    }
}

/// The JSON form of a field: bytes are text where they are UTF-8 and base64
/// otherwise, and a classified field shows only that it was there.
pub open spec fn json_shape(meta: FieldMeta, value: WireValue) -> JsonShape {
    if meta.classification.redacted() {
        JsonShape::Text("<redacted>"@)
    } else {
        match value {
            WireValue::Varint(v) => JsonShape::Number(v as nat),
            WireValue::Fixed64(b) => JsonShape::Double(le_value(b)),
            WireValue::Fixed32(b) => JsonShape::Single(le_value(b)),
            WireValue::Bytes(b) => if valid_utf8(b) {
                JsonShape::Text(decode_utf8(b))
            } else {
                JsonShape::Text(base64::base64(b))
            },
        }
    }
}

fn value_to_json(v: &RawValue) -> (r: PayloadJson)
    ensures
        forall|meta: FieldMeta, value: WireValue|
            #![trigger json_shape(meta, value)]
            v.stands_for(value) && !meta.classification.redacted() ==> r@ == json_shape(meta, value),
{
    match v {
        RawValue::Varint(n) => PayloadJson::Number(*n),
        RawValue::Fixed64(n) => PayloadJson::Double(*n),
        RawValue::Fixed32(n) => PayloadJson::Single(*n),
        RawValue::Bytes(b) => match utf8_text(slice_to_vec(b.as_slice())) {
            Some(s) => PayloadJson::Text(s),
            None => PayloadJson::Text(base64_text(b.as_slice())),
        },
    }
}

/// The entries that a payload adds to a JSON object, in the order of the wire.
pub open spec fn json_entries(l: Seq<(FieldMeta, WireValue)>) -> Seq<(Seq<char>, JsonShape)> {
    l.map_values(|p: (FieldMeta, WireValue)| (p.0.name@, json_shape(p.0, p.1)))
}

/// The entries of `out`, by what they hold.
pub open spec fn json_view(out: Seq<(&'static str, PayloadJson)>) -> Seq<(Seq<char>, JsonShape)> {
    out.map_values(|p: (&'static str, PayloadJson)| (p.0@, p.1@))
}

/// Adds the declared fields of a payload to `out`. A name that comes twice is
/// added twice; the later entry is the one that counts.
///
/// # Errors
///
/// A payload that ends inside a field is reported with the offset. The fields
/// before it have been added.
pub fn render_json_default(
    payload: &[u8],
    fields: &[FieldMeta],
    out: &mut Vec<(&'static str, PayloadJson)>,
) -> (r: Result<(), DecodeError>)
    ensures
        json_view(final(out)@) == json_view(old(out)@) + json_entries(
            declared(fields@, walk(payload@, 0).fields),
        ),
        walk_result(walk(payload@, 0).fault, r),
{
    let (found, fault) = declared_fields(payload, fields);
    let ghost l = declared(fields@, walk(payload@, 0).fields);
    let ghost start = json_view(out@);
    let mut i: usize = 0;
    while i < found.len()
        invariant
            i <= found@.len(),
            stand_for(found@, l),
            json_view(out@) =~= start + json_entries(l).take(i as int),
        decreases found@.len() - i,
    {
        let meta = found[i].0;
        let json = if meta.classification.is_redacted() {
            PayloadJson::Text("<redacted>".to_string())
        } else {
            value_to_json(&found[i].1)
        };
        proof {
            assert(json@ == json_shape(l[i as int].0, l[i as int].1));
        }
        let ghost was = out@;
        let ghost new = (meta.name@, json@);
        out.push((meta.name, json));
        proof {
            assert(json_view(out@) =~= json_view(was).push(new));
        }
        i = i + 1;
    }
    assert(json_entries(l).take(i as int) =~= json_entries(l));
    walk_outcome(fault)
}

// ---------------------------------------------------------------------------
// OTLP.
// ---------------------------------------------------------------------------
/// A value in the body of an OTLP log record. Floating-point values are
/// carried as their bits.
#[derive(Debug)]
pub enum OtlpValue {
    /// A signed number.
    Int(i64),
    /// A double, as its bits.
    Double(u64),
    /// A single that is to become a double, as its bits.
    Single(u32),
    /// A string.
    String(String),
    /// Bytes that are no text.
    Bytes(Vec<u8>),
}

/// What a field is in the body of an OTLP log record.
pub enum OtlpShape {
    Int(i64),
    Double(nat),
    Single(nat),
    String(Seq<char>),
    Bytes(Seq<u8>),
}

impl View for OtlpValue {
    type V = OtlpShape;

    open spec fn view(&self) -> OtlpShape {
        match *self {
            OtlpValue::Int(n) => OtlpShape::Int(n),
            OtlpValue::Double(n) => OtlpShape::Double(n as nat),
            OtlpValue::Single(n) => OtlpShape::Single(n as nat),
            OtlpValue::String(s) => OtlpShape::String(s@),
            OtlpValue::Bytes(b) => OtlpShape::Bytes(b@),
        }
    }
}

/// The OTLP form of a field.
pub open spec fn otlp_shape(meta: FieldMeta, value: WireValue) -> OtlpShape {
    if meta.classification.redacted() {
        OtlpShape::String("<redacted>"@)
    } else {
        match value {
            WireValue::Varint(v) => OtlpShape::Int(v as i64),
            WireValue::Fixed64(b) => OtlpShape::Double(le_value(b)),
            WireValue::Fixed32(b) => OtlpShape::Single(le_value(b)),
            WireValue::Bytes(b) => if valid_utf8(b) {
                OtlpShape::String(decode_utf8(b))
            } else {
                OtlpShape::Bytes(b)
            },
        }
    }
}

fn raw_to_otlp(v: &RawValue) -> (r: OtlpValue)
    ensures
        forall|meta: FieldMeta, value: WireValue|
            #![trigger otlp_shape(meta, value)]
            v.stands_for(value) && !meta.classification.redacted() ==> r@ == otlp_shape(meta, value),
{
    match v {
        RawValue::Varint(n) => OtlpValue::Int(*n as i64),
        RawValue::Fixed64(n) => OtlpValue::Double(*n),
        RawValue::Fixed32(n) => OtlpValue::Single(*n),
        RawValue::Bytes(b) => match utf8_text(slice_to_vec(b.as_slice())) {
            Some(s) => OtlpValue::String(s),
            None => OtlpValue::Bytes(slice_to_vec(b.as_slice())),
        },
    }
}

/// The entries that a payload adds to an OTLP body, in the order of the wire.
pub open spec fn otlp_entries(l: Seq<(FieldMeta, WireValue)>) -> Seq<(Seq<char>, OtlpShape)> {
    l.map_values(|p: (FieldMeta, WireValue)| (p.0.name@, otlp_shape(p.0, p.1)))
}

/// The entries of `out`, by what they hold.
pub open spec fn otlp_view(out: Seq<(&'static str, OtlpValue)>) -> Seq<(Seq<char>, OtlpShape)> {
    out.map_values(|p: (&'static str, OtlpValue)| (p.0@, p.1@))
}

/// Adds the declared fields of a payload to an OTLP body.
///
/// # Errors
///
/// A payload that ends inside a field is reported with the offset. The fields
/// before it have been added.
pub fn decode_to_otlp_kv_default(
    payload: &[u8],
    fields: &[FieldMeta],
    out: &mut Vec<(&'static str, OtlpValue)>,
) -> (r: Result<(), DecodeError>)
    ensures
        otlp_view(final(out)@) == otlp_view(old(out)@) + otlp_entries(
            declared(fields@, walk(payload@, 0).fields),
        ),
        walk_result(walk(payload@, 0).fault, r),
{
    let (found, fault) = declared_fields(payload, fields);
    let ghost l = declared(fields@, walk(payload@, 0).fields);
    let ghost start = otlp_view(out@);
    let mut i: usize = 0;
    while i < found.len()
        invariant
            i <= found@.len(),
            stand_for(found@, l),
            otlp_view(out@) =~= start + otlp_entries(l).take(i as int),
        decreases found@.len() - i,
    {
        let meta = found[i].0;
        let otlp = if meta.classification.is_redacted() {
            OtlpValue::String("<redacted>".to_string())
        } else {
            raw_to_otlp(&found[i].1)
        };
        proof {
            assert(otlp@ == otlp_shape(l[i as int].0, l[i as int].1));
        }
        let ghost was = out@;
        let ghost new = (meta.name@, otlp@);
        out.push((meta.name, otlp));
        proof {
            assert(otlp_view(out@) =~= otlp_view(was).push(new));
        }
        i = i + 1;
    }
    assert(otlp_entries(l).take(i as int) =~= otlp_entries(l));
    walk_outcome(fault)
}

// ---------------------------------------------------------------------------
// Metrics.
// ---------------------------------------------------------------------------
/// One reading for a metric sink. A gauge carries the bits of its value.
#[derive(Debug, Clone, Copy, PartialEq, Eq, Structural)]
pub enum Reading {
    /// A counter goes up by this much.
    Counter(u64),
    /// A gauge stands at this double.
    GaugeDouble(u64),
    /// A gauge stands at this single.
    GaugeSingle(u32),
}

/// The unit of a measured field for which the schema declares none.
pub const DEFAULT_UNIT: &'static str = "1";

/// One data point: the instrument that it is for, what it read, and in which
/// unit.
#[derive(Debug, Clone, Copy)]
pub struct MetricPoint {
    pub instrument: &'static str,
    pub reading: Reading,
    pub unit: &'static str,
}

/// What a measured value reads; text has no reading.
pub open spec fn reading_of(value: WireValue) -> Option<Reading> {
    match value {
        WireValue::Varint(v) => Some(Reading::Counter(v)),
        WireValue::Fixed64(b) => Some(Reading::GaugeDouble(le_value(b) as u64)),
        WireValue::Fixed32(b) => Some(Reading::GaugeSingle(le_value(b) as u32)),
        WireValue::Bytes(_) => None,
    }
}

/// The data points of a payload, in the order of the wire: one for each
/// measured field that has a reading.
pub open spec fn metric_points(l: Seq<(FieldMeta, WireValue)>) -> Seq<(Seq<char>, Reading, Seq<char>)>
    decreases l.len(),
{
    if l.len() == 0 {
        Seq::empty()
    } else {
        let before = metric_points(l.drop_last());
        let (meta, value) = l.last();
        match reading_of(value) {
            Some(reading) => if meta.role == FieldRole::Measurement {
                before.push((meta.name@, reading, DEFAULT_UNIT@))
            } else {
                before
            },
            None => before,
        }
    }
}

/// The points of `out`, by what they hold.
pub open spec fn metric_view(out: Seq<MetricPoint>) -> Seq<(Seq<char>, Reading, Seq<char>)> {
    out.map_values(|p: MetricPoint| (p.instrument@, p.reading, p.unit@))
}

/// Adds one data point for each measured field of a payload: a counter for a
/// varint, a gauge for a fixed-width value, named after the field and with
/// unit `"1"`.
///
/// # Errors
///
/// A payload that ends inside a field is reported with the offset. The points
/// before it have been added.
pub fn project_metrics_default(
    payload: &[u8],
    fields: &[FieldMeta],
    out: &mut Vec<MetricPoint>,
) -> (r: Result<(), DecodeError>)
    ensures
        metric_view(final(out)@) == metric_view(old(out)@) + metric_points(
            declared(fields@, walk(payload@, 0).fields),
        ),
        walk_result(walk(payload@, 0).fault, r),
{
    let (found, fault) = declared_fields(payload, fields);
    let ghost l = declared(fields@, walk(payload@, 0).fields);
    let ghost start = metric_view(out@);
    let mut i: usize = 0;
    proof {
        assert(metric_points(l.take(0)) =~= Seq::<(Seq<char>, Reading, Seq<char>)>::empty());
    }
    while i < found.len()
        invariant
            i <= found@.len(),
            stand_for(found@, l),
            metric_view(out@) =~= start + metric_points(l.take(i as int)),
        decreases found@.len() - i,
    {
        let meta = found[i].0;
        proof {
            assert(l.take(i + 1).drop_last() =~= l.take(i as int));
            assert(l.take(i + 1).last() == l[i as int]);
        }
        let reading = match &found[i].1 {
            RawValue::Varint(v) => Some(Reading::Counter(*v)),
            RawValue::Fixed64(v) => Some(Reading::GaugeDouble(*v)),
            RawValue::Fixed32(v) => Some(Reading::GaugeSingle(*v)),
            RawValue::Bytes(_) => None,
        };
        proof {
            assert(reading == reading_of(l[i as int].1));
        }
        if let Some(reading) = reading {
            if meta.role == FieldRole::Measurement {
                let ghost was = out@;
                out.push(MetricPoint { instrument: meta.name, reading, unit: DEFAULT_UNIT });
                proof {
                    assert(metric_view(out@) =~= metric_view(was).push(
                        (meta.name@, reading, DEFAULT_UNIT@),
                    ));
                }
            }
        }
        i = i + 1;
    }
    assert(l.take(i as int) =~= l);
    walk_outcome(fault)
}

// ---------------------------------------------------------------------------
// Columns.
// ---------------------------------------------------------------------------
/// One value for a column builder. Floating-point values are carried as their
/// bits.
#[derive(Debug)]
pub enum ArrowCell {
    Str(String),
    U64(u64),
    I64(i64),
    /// A double, as its bits.
    Double(u64),
    /// A single that is to become a double, as its bits.
    Single(u32),
    Bytes(Vec<u8>),
    Null,
}

/// What a column is given.
pub enum CellShape {
    Str(Seq<char>),
    U64(nat),
    I64(i64),
    Double(nat),
    Single(nat),
    Bytes(Seq<u8>),
    Null,
}

impl View for ArrowCell {
    type V = CellShape;

    open spec fn view(&self) -> CellShape {
        match *self {
            ArrowCell::Str(s) => CellShape::Str(s@),
            ArrowCell::U64(n) => CellShape::U64(n as nat),
            ArrowCell::I64(n) => CellShape::I64(n),
            ArrowCell::Double(n) => CellShape::Double(n as nat),
            ArrowCell::Single(n) => CellShape::Single(n as nat),
            ArrowCell::Bytes(b) => CellShape::Bytes(b@),
            ArrowCell::Null => CellShape::Null,
        }
    }
}

/// Whether a field of this role counts something in eight bytes.
pub open spec fn is_count(role: FieldRole) -> bool {
    role == FieldRole::Measurement || role == FieldRole::DurationNs || role
        == FieldRole::TimestampNs
}

/// What the column of a field is given.
pub open spec fn cell_shape(meta: FieldMeta, value: WireValue) -> CellShape {
    if meta.classification.redacted() {
        CellShape::Str("<redacted>"@)
    } else {
        match value {
            WireValue::Varint(v) => if is_count(meta.role) {
                CellShape::U64(v as nat)
            } else {
                CellShape::I64(v as i64)
            },
            WireValue::Fixed64(b) => if is_count(meta.role) {
                CellShape::U64(le_value(b))
            } else {
                CellShape::Double(le_value(b))
            },
            WireValue::Fixed32(b) => if meta.role == FieldRole::Measurement {
                CellShape::U64(le_value(b))
            } else {
                CellShape::Single(le_value(b))
            },
            WireValue::Bytes(b) => if valid_utf8(b) {
                CellShape::Str(decode_utf8(b))
            } else {
                CellShape::Bytes(b)
            },
        }
    }
}

/// Whether a field with this number is among `l`.
pub open spec fn is_set(l: Seq<(FieldMeta, WireValue)>, number: u32) -> bool {
    exists|i: int| 0 <= i < l.len() && (#[trigger] l[i]).0.number == number
}

/// The fields of the table that `l` leaves unset, each given a null.
pub open spec fn unset_cells(fields: Seq<FieldMeta>, l: Seq<(FieldMeta, WireValue)>) -> Seq<
    (Seq<char>, CellShape),
>
    decreases fields.len(),
{
    if fields.len() == 0 {
        Seq::empty()
    } else {
        let before = unset_cells(fields.drop_last(), l);
        if is_set(l, fields.last().number) {
            before
        } else {
            before.push((fields.last().name@, CellShape::Null))
        }
    }
}

/// What the columns are given for the fields that were met, in the order of
/// the wire.
pub open spec fn cells(l: Seq<(FieldMeta, WireValue)>) -> Seq<(Seq<char>, CellShape)> {
    l.map_values(|p: (FieldMeta, WireValue)| (p.0.name@, cell_shape(p.0, p.1)))
}

/// The cells of `out`, by what they hold.
pub open spec fn cell_view(out: Seq<(&'static str, ArrowCell)>) -> Seq<(Seq<char>, CellShape)> {
    out.map_values(|p: (&'static str, ArrowCell)| (p.0@, p.1@))
}

fn raw_to_cell(role: FieldRole, v: &RawValue) -> (r: ArrowCell)
    ensures
        forall|meta: FieldMeta, value: WireValue|
            #![trigger cell_shape(meta, value)]
            v.stands_for(value) && meta.role == role && !meta.classification.redacted() ==> r@
                == cell_shape(meta, value),
{
    let count = match role {
        FieldRole::Measurement | FieldRole::DurationNs | FieldRole::TimestampNs => true,
        _ => false,
    };
    match v {
        RawValue::Varint(n) => if count {
            ArrowCell::U64(*n)
        } else {
            ArrowCell::I64(*n as i64)
        },
        RawValue::Fixed64(n) => if count {
            ArrowCell::U64(*n)
        } else {
            ArrowCell::Double(*n)
        },
        RawValue::Fixed32(n) => if role == FieldRole::Measurement {
            ArrowCell::U64(*n as u64)
        } else {
            ArrowCell::Single(*n)
        },
        RawValue::Bytes(b) => match utf8_text(slice_to_vec(b.as_slice())) {
            Some(s) => ArrowCell::Str(s),
            None => ArrowCell::Bytes(slice_to_vec(b.as_slice())),
        },
    }
}

fn contains_number(found: &Vec<(FieldMeta, RawValue)>, number: u32) -> (r: bool)
    ensures
        r == exists|i: int| 0 <= i < found@.len() && (#[trigger] found@[i]).0.number == number,
{
    let mut i: usize = 0;
    while i < found.len()
        invariant
            i <= found@.len(),
            forall|k: int| 0 <= k < i ==> (#[trigger] found@[k]).0.number != number,
        decreases found@.len() - i,
    {
        if found[i].0.number == number {
            return true;
        }
        i = i + 1;
    }
    false
}

/// Gives the columns of `out` one row: the declared fields of the payload, then
/// a null for each field of the table that the payload leaves unset.
///
/// # Errors
///
/// A payload that ends inside a field is reported with the offset. The fields
/// before it have been added, and no nulls.
pub fn decode_to_arrow_struct_default(
    payload: &[u8],
    fields: &[FieldMeta],
    out: &mut Vec<(&'static str, ArrowCell)>,
) -> (r: Result<(), DecodeError>)
    ensures
        ({
            let l = declared(fields@, walk(payload@, 0).fields);
            let row = if walk(payload@, 0).fault is None {
                cells(l) + unset_cells(fields@, l)
            } else {
                cells(l)
            };
            cell_view(final(out)@) == cell_view(old(out)@) + row
        }),
        walk_result(walk(payload@, 0).fault, r),
{
    let (found, fault) = declared_fields(payload, fields);
    let ghost l = declared(fields@, walk(payload@, 0).fields);
    let ghost start = cell_view(out@);
    let mut i: usize = 0;
    while i < found.len()
        invariant
            i <= found@.len(),
            stand_for(found@, l),
            cell_view(out@) =~= start + cells(l).take(i as int),
        decreases found@.len() - i,
    {
        let meta = found[i].0;
        let cell = if meta.classification.is_redacted() {
            ArrowCell::Str("<redacted>".to_string())
        } else {
            raw_to_cell(meta.role, &found[i].1)
        };
        proof {
            assert(cell@ == cell_shape(l[i as int].0, l[i as int].1));
        }
        let ghost was = out@;
        let ghost new = (meta.name@, cell@);
        out.push((meta.name, cell));
        proof {
            assert(cell_view(out@) =~= cell_view(was).push(new));
        }
        i = i + 1;
    }
    assert(cells(l).take(i as int) =~= cells(l));
    if fault.is_some() {
        return walk_outcome(fault);
    }
    let mut j: usize = 0;
    proof {
        assert(unset_cells(fields@.take(0), l) =~= Seq::<(Seq<char>, CellShape)>::empty());
    }
    while j < fields.len()
        invariant
            j <= fields@.len(),
            stand_for(found@, l),
            cell_view(out@) =~= start + cells(l) + unset_cells(fields@.take(j as int), l),
        decreases fields@.len() - j,
    {
        proof {
            assert(fields@.take(j + 1).drop_last() =~= fields@.take(j as int));
            assert(fields@.take(j + 1).last() == fields@[j as int]);
            lemma_same_numbers(found@, l, fields@[j as int].number);
        }
        if !contains_number(&found, fields[j].number) {
            let ghost was = out@;
            out.push((fields[j].name, ArrowCell::Null));
            proof {
                assert(cell_view(out@) =~= cell_view(was).push(
                    (fields@[j as int].name@, CellShape::Null),
                ));
            }
        }
        j = j + 1;
    }
    assert(fields@.take(j as int) =~= fields@);
    walk_outcome(fault)
}

proof fn lemma_same_numbers(
    found: Seq<(FieldMeta, RawValue)>,
    l: Seq<(FieldMeta, WireValue)>,
    number: u32,
)
    requires
        stand_for(found, l),
    ensures
        is_set(l, number) == exists|i: int|
            0 <= i < found.len() && (#[trigger] found[i]).0.number == number,
{
    if is_set(l, number) {
        let i = choose|i: int| 0 <= i < l.len() && (#[trigger] l[i]).0.number == number;
        assert(found[i].0.number == number);
    }
    if exists|i: int| 0 <= i < found.len() && (#[trigger] found[i]).0.number == number {
        let i = choose|i: int| 0 <= i < found.len() && (#[trigger] found[i]).0.number == number;
        assert(l[i].0.number == number);
    }
}

/// A payload that was written from fields is walked as those fields, without a
/// fault.
pub proof fn law_written_fields_are_walked(l: Seq<WireField>, offset: nat)
    requires
        forall|i: int| 0 <= i < l.len() ==> (#[trigger] l[i]).well_formed(),
    ensures
        walk(codec::fields_bytes(l), offset) == (Walked { fields: l, fault: None }),
    decreases l.len(),
{
    if l.len() > 0 {
        let tail = l.skip(1);
        let rest = codec::fields_bytes(tail);
        assert forall|i: int| 0 <= i < tail.len() implies (#[trigger] tail[i]).well_formed() by {
            assert(tail[i] == l[i + 1]);
        }
        codec::lemma_field_at(l[0], rest);
        let next = front(codec::fields_bytes(l), offset)->Field_2;
        law_written_fields_are_walked(tail, next);
        assert(seq![l[0]] + tail =~= l);
    } else {
        assert(l =~= Seq::<WireField>::empty());
    }
}

/// What a classified field holds reaches neither a JSON object nor an OTLP
/// body nor a column.
pub proof fn law_classified_value_is_hidden(meta: FieldMeta, a: WireValue, b: WireValue)
    requires
        meta.classification.redacted(),
    ensures
        json_shape(meta, a) == json_shape(meta, b),
        otlp_shape(meta, a) == otlp_shape(meta, b),
        cell_shape(meta, a) == cell_shape(meta, b),
{
}

// ---------------------------------------------------------------------------
// What becomes of a field that was written.
// ---------------------------------------------------------------------------
/// The number that little-endian bytes spell has those bytes: each byte is the
/// rest of the number, divided by a power of 256.
proof fn lemma_le_round(n: nat, width: nat)
    requires
        n < vstd::arithmetic::power::pow(256, width),
    ensures
        le_value(digest::number_bytes(n, width)) == n,
    decreases width,
{
    reveal_with_fuel(vstd::arithmetic::power::pow, 2);
    if width > 0 {
        let tail = digest::number_bytes(n / 256, (width - 1) as nat);
        let all = digest::number_bytes(n, width);
        assert(all.skip(1) =~= tail);
        assert(n / 256 < vstd::arithmetic::power::pow(256, (width - 1) as nat)) by (nonlinear_arith)
            requires
                n < 256 * vstd::arithmetic::power::pow(256, (width - 1) as nat),
        ;
        lemma_le_round(n / 256, (width - 1) as nat);
    }
}

/// A number is read back from its bytes, the lowest first.
pub proof fn law_little_endian_bytes_give_the_number(n: u64, m: u32)
    ensures
        le_value(digest::number_bytes(n as nat, 8)) == n,
        le_value(digest::number_bytes(m as nat, 4)) == m,
        digest::number_bytes(n as nat, 8).len() == 8,
        digest::number_bytes(m as nat, 4).len() == 4,
{
    reveal_with_fuel(vstd::arithmetic::power::pow, 9);
    lemma_le_round(n as nat, 8);
    lemma_le_round(m as nat, 4);
    digest::lemma_number_bytes_len(n as nat, 8);
    digest::lemma_number_bytes_len(m as nat, 4);
}

/// Whether this is the entry of the table that counts for its number, and can
/// be written.
pub open spec fn is_entry(fields: Seq<FieldMeta>, i: int) -> bool {
    &&& 0 <= i < fields.len()
    &&& 1 <= fields[i].number <= 536_870_911
    &&& forall|j: int| 0 <= j < i ==> (#[trigger] fields[j]).number != fields[i].number
}

proof fn lemma_one_written(fields: Seq<FieldMeta>, i: int, value: WireValue)
    requires
        is_entry(fields, i),
        value.well_formed(),
    ensures
        walk(WireField { number: fields[i].number, value }.bytes(), 0).fault is None,
        declared(fields, walk(WireField { number: fields[i].number, value }.bytes(), 0).fields)
            == seq![(fields[i], value)],
{
    let f = WireField { number: fields[i].number, value };
    codec::lemma_fields_bytes_one(f);
    law_written_fields_are_walked(seq![f], 0);
    projection::law_first_entry_counts(fields, i, f.number);
    reveal_with_fuel(declared, 2);
    assert(seq![f].drop_last() =~= Seq::<WireField>::empty());
    assert(declared(fields, seq![f]) =~= seq![(fields[i], value)]);
}

/// The field of entry `i`, written with a value.
pub open spec fn written(fields: Seq<FieldMeta>, i: int, value: WireValue) -> Seq<u8> {
    WireField { number: fields[i].number, value }.bytes()
}

/// Rendering a payload that was written as one unclassified field gives exactly
/// one entry, under the name of the field. A varint is a whole number, eight
/// fixed bytes are a double with those bits and never a whole number, four are
/// a single, and text is that text.
pub proof fn law_json_shows_a_value_by_its_kind(
    fields: Seq<FieldMeta>,
    i: int,
    v: u64,
    m: u32,
    t: Seq<char>,
    out: Seq<(&'static str, PayloadJson)>,
)
    requires
        is_entry(fields, i),
        fields[i].classification == Classification::Internal || fields[i].classification
            == Classification::Unspecified,
        encode_utf8(t).len() <= u64::MAX,
    ensures
        ({
            let shown = |value: WireValue|
                json_view(out) == json_entries(
                    declared(fields, walk(written(fields, i, value), 0).fields),
                );
            let double = WireValue::Fixed64(digest::number_bytes(v as nat, 8));
            let single = WireValue::Fixed32(digest::number_bytes(m as nat, 4));
            let text = WireValue::Bytes(encode_utf8(t));
            &&& shown(WireValue::Varint(v)) || shown(double) || shown(single) || shown(text)
                ==> out.len() == 1 && out[0].0@ == fields[i].name@
            &&& shown(WireValue::Varint(v)) ==> out[0].1 == PayloadJson::Number(v)
            &&& shown(double) ==> out[0].1 == PayloadJson::Double(v)
            &&& shown(single) ==> out[0].1 == PayloadJson::Single(m)
            &&& shown(text) ==> (out[0].1 matches PayloadJson::Text(s) && s@ == t)
        }),
{
    let double = WireValue::Fixed64(digest::number_bytes(v as nat, 8));
    let single = WireValue::Fixed32(digest::number_bytes(m as nat, 4));
    let text = WireValue::Bytes(encode_utf8(t));
    law_little_endian_bytes_give_the_number(v, m);
    encode_utf8_valid_utf8(t);
    encode_utf8_decode_utf8(t);
    lemma_one_written(fields, i, WireValue::Varint(v));
    lemma_one_written(fields, i, double);
    lemma_one_written(fields, i, single);
    lemma_one_written(fields, i, text);
    if out.len() > 0 {
        assert(json_view(out)[0] == (out[0].0@, out[0].1@));
    }
    assert(json_view(out).len() == out.len());
}

/// The signed number that has the same 64 bits.
pub open spec fn signed(v: u64) -> int {
    if v < 0x8000_0000_0000_0000 {
        v as int
    } else {
        v - 0x1_0000_0000_0000_0000
    }
}

/// In an OTLP body a varint is the signed number of the same 64 bits, eight
/// fixed bytes are a double, four are a single, and text is that text; bytes
/// that are no text stay as they are.
pub proof fn law_otlp_shows_a_value_by_its_kind(
    fields: Seq<FieldMeta>,
    i: int,
    v: u64,
    m: u32,
    b: Seq<u8>,
    out: Seq<(&'static str, OtlpValue)>,
)
    requires
        is_entry(fields, i),
        fields[i].classification == Classification::Internal || fields[i].classification
            == Classification::Unspecified,
        b.len() <= u64::MAX,
    ensures
        ({
            let shown = |value: WireValue|
                otlp_view(out) == otlp_entries(
                    declared(fields, walk(written(fields, i, value), 0).fields),
                );
            let double = WireValue::Fixed64(digest::number_bytes(v as nat, 8));
            let single = WireValue::Fixed32(digest::number_bytes(m as nat, 4));
            let bytes = WireValue::Bytes(b);
            &&& shown(WireValue::Varint(v)) || shown(double) || shown(single) || shown(bytes)
                ==> out.len() == 1 && out[0].0@ == fields[i].name@
            &&& shown(WireValue::Varint(v)) ==> (out[0].1 matches OtlpValue::Int(n) && n as int == signed(v))
            &&& shown(double) ==> out[0].1 == OtlpValue::Double(v)
            &&& shown(single) ==> out[0].1 == OtlpValue::Single(m)
            &&& shown(bytes) && valid_utf8(b) ==> (out[0].1 matches OtlpValue::String(s)
                && encode_utf8(s@) == b)
            &&& shown(bytes) && !valid_utf8(b) ==> (out[0].1 matches OtlpValue::Bytes(s) && s@ == b)
        }),
{
    let double = WireValue::Fixed64(digest::number_bytes(v as nat, 8));
    let single = WireValue::Fixed32(digest::number_bytes(m as nat, 4));
    let bytes = WireValue::Bytes(b);
    law_little_endian_bytes_give_the_number(v, m);
    if valid_utf8(b) {
        decode_utf8_encode_utf8(b);
    }
    assert(v < 0x8000_0000_0000_0000u64 ==> v as i64 as int == v as int) by (bit_vector);
    assert(v >= 0x8000_0000_0000_0000u64 ==> v as i64 as int == v - 0x1_0000_0000_0000_0000)
        by (bit_vector);
    lemma_one_written(fields, i, WireValue::Varint(v));
    lemma_one_written(fields, i, double);
    lemma_one_written(fields, i, single);
    lemma_one_written(fields, i, bytes);
    if out.len() > 0 {
        assert(otlp_view(out)[0] == (out[0].0@, out[0].1@));
    }
    assert(otlp_view(out).len() == out.len());
}

/// A measured field gives one data point under its name, in the unit `"1"`: a
/// counter for a varint, a gauge for a double or a single, and none for text. A
/// field that is not measured gives none.
pub proof fn law_only_measurements_are_measured(
    fields: Seq<FieldMeta>,
    i: int,
    v: u64,
    m: u32,
    b: Seq<u8>,
    out: Seq<MetricPoint>,
)
    requires
        is_entry(fields, i),
        b.len() <= u64::MAX,
    ensures
        ({
            let shown = |value: WireValue|
                metric_view(out) == metric_points(
                    declared(fields, walk(written(fields, i, value), 0).fields),
                );
            let double = WireValue::Fixed64(digest::number_bytes(v as nat, 8));
            let single = WireValue::Fixed32(digest::number_bytes(m as nat, 4));
            let measured = fields[i].role == FieldRole::Measurement;
            let numeric = shown(WireValue::Varint(v)) || shown(double) || shown(single);
            &&& numeric && measured ==> out.len() == 1 && out[0].instrument@ == fields[i].name@
                && out[0].unit@ == "1"@
            &&& numeric && !measured ==> out.len() == 0
            &&& shown(WireValue::Bytes(b)) ==> out.len() == 0
            &&& shown(WireValue::Varint(v)) && measured ==> out[0].reading == Reading::Counter(v)
            &&& shown(double) && measured ==> out[0].reading == Reading::GaugeDouble(v)
            &&& shown(single) && measured ==> out[0].reading == Reading::GaugeSingle(m)
        }),
{
    let double = WireValue::Fixed64(digest::number_bytes(v as nat, 8));
    let single = WireValue::Fixed32(digest::number_bytes(m as nat, 4));
    law_little_endian_bytes_give_the_number(v, m);
    lemma_one_written(fields, i, WireValue::Varint(v));
    lemma_one_written(fields, i, double);
    lemma_one_written(fields, i, single);
    lemma_one_written(fields, i, WireValue::Bytes(b));
    lemma_one_point(fields[i], WireValue::Varint(v));
    lemma_one_point(fields[i], double);
    lemma_one_point(fields[i], single);
    lemma_one_point(fields[i], WireValue::Bytes(b));
    if out.len() > 0 {
        assert(metric_view(out)[0] == (out[0].instrument@, out[0].reading, out[0].unit@));
    }
    assert(metric_view(out).len() == out.len());
}

proof fn lemma_one_point(meta: FieldMeta, value: WireValue)
    ensures
        metric_points(seq![(meta, value)]) == (if meta.role == FieldRole::Measurement
            && reading_of(value) is Some {
            seq![(meta.name@, reading_of(value)->Some_0, DEFAULT_UNIT@)]
        } else {
            Seq::empty()
        }),
{
    reveal_with_fuel(metric_points, 2);
    let l = seq![(meta, value)];
    assert(l.drop_last() =~= Seq::<(FieldMeta, WireValue)>::empty());
    if meta.role == FieldRole::Measurement && reading_of(value) is Some {
        assert(metric_points(l) =~= seq![(meta.name@, reading_of(value)->Some_0, DEFAULT_UNIT@)]);
    } else {
        assert(metric_points(l) =~= Seq::<(Seq<char>, Reading, Seq<char>)>::empty());
    }
}

/// A column gets a varint as a count where the field measures, or is a time or
/// a duration, and as a signed number otherwise; eight fixed bytes as a count in
/// the same places and as a double otherwise; four as a count where the field
/// measures and as a single otherwise; text as text and other bytes as they
/// are.
pub proof fn law_columns_get_a_value_by_its_role(
    fields: Seq<FieldMeta>,
    i: int,
    v: u64,
    m: u32,
    b: Seq<u8>,
    out: Seq<(&'static str, ArrowCell)>,
)
    requires
        is_entry(fields, i),
        fields[i].classification == Classification::Internal || fields[i].classification
            == Classification::Unspecified,
        b.len() <= u64::MAX,
    ensures
        ({
            let shown = |value: WireValue|
                cell_view(out) == cells(
                    declared(fields, walk(written(fields, i, value), 0).fields),
                );
            let double = WireValue::Fixed64(digest::number_bytes(v as nat, 8));
            let single = WireValue::Fixed32(digest::number_bytes(m as nat, 4));
            let bytes = WireValue::Bytes(b);
            let measured = fields[i].role == FieldRole::Measurement;
            let count = measured || fields[i].role == FieldRole::DurationNs || fields[i].role
                == FieldRole::TimestampNs;
            &&& shown(WireValue::Varint(v)) || shown(double) || shown(single) || shown(bytes)
                ==> out.len() == 1 && out[0].0@ == fields[i].name@
            &&& shown(WireValue::Varint(v)) && count ==> out[0].1 == ArrowCell::U64(v)
            &&& shown(WireValue::Varint(v)) && !count ==> (out[0].1 matches ArrowCell::I64(n)
                && n as int == signed(v))
            &&& shown(double) ==> out[0].1 == (if count {
                ArrowCell::U64(v)
            } else {
                ArrowCell::Double(v)
            })
            &&& shown(single) ==> out[0].1 == (if measured {
                ArrowCell::U64(m as u64)
            } else {
                ArrowCell::Single(m)
            })
            &&& shown(bytes) && valid_utf8(b) ==> (out[0].1 matches ArrowCell::Str(s)
                && encode_utf8(s@) == b)
            &&& shown(bytes) && !valid_utf8(b) ==> (out[0].1 matches ArrowCell::Bytes(s) && s@ == b)
        }),
{
    let double = WireValue::Fixed64(digest::number_bytes(v as nat, 8));
    let single = WireValue::Fixed32(digest::number_bytes(m as nat, 4));
    let bytes = WireValue::Bytes(b);
    law_little_endian_bytes_give_the_number(v, m);
    if valid_utf8(b) {
        decode_utf8_encode_utf8(b);
    }
    assert(v < 0x8000_0000_0000_0000u64 ==> v as i64 as int == v as int) by (bit_vector);
    assert(v >= 0x8000_0000_0000_0000u64 ==> v as i64 as int == v - 0x1_0000_0000_0000_0000)
        by (bit_vector);
    lemma_one_written(fields, i, WireValue::Varint(v));
    lemma_one_written(fields, i, double);
    lemma_one_written(fields, i, single);
    lemma_one_written(fields, i, bytes);
    if out.len() > 0 {
        assert(cell_view(out)[0] == (out[0].0@, out[0].1@));
    }
    assert(cell_view(out).len() == out.len());
}

/// A personal or secret field is shown under its name as `<redacted>`, whatever
/// it holds.
pub proof fn law_classified_fields_show_the_marker(
    fields: Seq<FieldMeta>,
    i: int,
    value: WireValue,
)
    requires
        is_entry(fields, i),
        value.well_formed(),
        fields[i].classification == Classification::Pii || fields[i].classification
            == Classification::Secret,
    ensures
        ({
            let met = declared(fields, walk(written(fields, i, value), 0).fields);
            let name = fields[i].name@;
            &&& json_entries(met) == seq![(name, JsonShape::Text("<redacted>"@))]
            &&& otlp_entries(met) == seq![(name, OtlpShape::String("<redacted>"@))]
            &&& cells(met) == seq![(name, CellShape::Str("<redacted>"@))]
        }),
{
    lemma_one_written(fields, i, value);
    let met = seq![(fields[i], value)];
    let name = fields[i].name@;
    assert(json_entries(met) =~= seq![(name, JsonShape::Text("<redacted>"@))]);
    assert(otlp_entries(met) =~= seq![(name, OtlpShape::String("<redacted>"@))]);
    assert(cells(met) =~= seq![(name, CellShape::Str("<redacted>"@))]);
}

proof fn lemma_declared_add(fields: Seq<FieldMeta>, a: Seq<WireField>, b: Seq<WireField>)
    ensures
        declared(fields, a + b) == declared(fields, a) + declared(fields, b),
    decreases b.len(),
{
    if b.len() == 0 {
        assert(a + b =~= a);
        assert(declared(fields, a) + declared(fields, b) =~= declared(fields, a));
    } else {
        assert((a + b).drop_last() =~= a + b.drop_last());
        assert((a + b).last() == b.last());
        lemma_declared_add(fields, a, b.drop_last());
        assert(declared(fields, a + b) =~= declared(fields, a) + declared(fields, b));
    }
}

proof fn lemma_points_add(a: Seq<(FieldMeta, WireValue)>, b: Seq<(FieldMeta, WireValue)>)
    ensures
        metric_points(a + b) == metric_points(a) + metric_points(b),
    decreases b.len(),
{
    if b.len() == 0 {
        assert(a + b =~= a);
        assert(metric_points(a) + metric_points(b) =~= metric_points(a));
    } else {
        assert((a + b).drop_last() =~= a + b.drop_last());
        assert((a + b).last() == b.last());
        lemma_points_add(a, b.drop_last());
        assert(metric_points(a + b) =~= metric_points(a) + metric_points(b));
    }
}

/// What is shown of a payload is what is shown of its fields, one after the
/// other: the two halves of a payload are shown as each alone. A field that the
/// table does not declare shows nothing.
pub proof fn law_fields_are_shown_one_by_one(
    fields: Seq<FieldMeta>,
    a: Seq<WireField>,
    b: Seq<WireField>,
    unknown: WireField,
)
    requires
        forall|j: int| 0 <= j < fields.len() ==> (#[trigger] fields[j]).number != unknown.number,
    ensures
        json_entries(declared(fields, a + b)) == json_entries(declared(fields, a)) + json_entries(
            declared(fields, b),
        ),
        otlp_entries(declared(fields, a + b)) == otlp_entries(declared(fields, a)) + otlp_entries(
            declared(fields, b),
        ),
        metric_points(declared(fields, a + b)) == metric_points(declared(fields, a))
            + metric_points(declared(fields, b)),
        cells(declared(fields, a + b)) == cells(declared(fields, a)) + cells(declared(fields, b)),
        declared(fields, seq![unknown]).len() == 0,
{
    lemma_declared_add(fields, a, b);
    let x = declared(fields, a);
    let y = declared(fields, b);
    lemma_points_add(x, y);
    assert(json_entries(x + y) =~= json_entries(x) + json_entries(y));
    assert(otlp_entries(x + y) =~= otlp_entries(x) + otlp_entries(y));
    assert(cells(x + y) =~= cells(x) + cells(y));
    projection::law_first_entry_counts(fields, fields.len() as int, unknown.number);
    reveal_with_fuel(declared, 2);
    assert(seq![unknown].drop_last() =~= Seq::<WireField>::empty());
}

/// Each field of the table that a payload leaves unset gets a null in its
/// column, and no field that the payload sets does.
pub proof fn law_unset_fields_are_null(
    fields: Seq<FieldMeta>,
    l: Seq<(FieldMeta, WireValue)>,
    name: Seq<char>,
)
    ensures
        forall|j: int|
            0 <= j < unset_cells(fields, l).len() ==> (#[trigger] unset_cells(fields, l)[j]).1
                == CellShape::Null,
        (exists|j: int|
            0 <= j < unset_cells(fields, l).len() && (#[trigger] unset_cells(fields, l)[j]).0
                == name) <==> exists|i: int|
            0 <= i < fields.len() && (#[trigger] fields[i]).name@ == name && forall|k: int|
                0 <= k < l.len() ==> (#[trigger] l[k]).0.number != fields[i].number,
    decreases fields.len(),
{
    if fields.len() > 0 {
        let front = fields.drop_last();
        let last = fields.last();
        law_unset_fields_are_null(front, l, name);
        let before = unset_cells(front, l);
        let all = unset_cells(fields, l);
        if exists|j: int| 0 <= j < all.len() && (#[trigger] all[j]).0 == name {
            let j = choose|j: int| 0 <= j < all.len() && (#[trigger] all[j]).0 == name;
            if j < before.len() {
                assert(before[j].0 == name);
                let i = choose|i: int|
                    0 <= i < front.len() && (#[trigger] front[i]).name@ == name && forall|k: int|
                        0 <= k < l.len() ==> (#[trigger] l[k]).0.number != front[i].number;
                assert(fields[i] == front[i]);
            } else {
                assert(fields[fields.len() - 1] == last);
                assert(!is_set(l, last.number));
            }
        }
        if exists|i: int|
            0 <= i < fields.len() && (#[trigger] fields[i]).name@ == name && forall|k: int|
                0 <= k < l.len() ==> (#[trigger] l[k]).0.number != fields[i].number {
            let i = choose|i: int|
                0 <= i < fields.len() && (#[trigger] fields[i]).name@ == name && forall|k: int|
                    0 <= k < l.len() ==> (#[trigger] l[k]).0.number != fields[i].number;
            if i < front.len() {
                assert(front[i] == fields[i]);
                let j = choose|j: int| 0 <= j < before.len() && (#[trigger] before[j]).0 == name;
                assert(all[j] == before[j]);
            } else {
                assert(!is_set(l, last.number));
                assert(all[before.len() as int].0 == name);
            }
        }
    }
}

/// A payload that is cut inside its last field shows the fields before that one,
/// and is reported at the place where the value of that one begins.
pub proof fn law_a_cut_payload_is_reported(l: Seq<WireField>, last: WireField, kept: int)
    requires
        forall|i: int| 0 <= i < l.len() ==> (#[trigger] l[i]).well_formed(),
        last.well_formed(),
        last.value is Fixed64 || last.value is Fixed32,
        0 <= kept < last.value.bytes().len(),
    ensures
        ({
            let cut = codec::fields_bytes(l) + codec::tag_bytes(last.number, last.value.kind())
                + last.value.bytes().take(kept);
            &&& walk(cut, 0).fields == l
            &&& walk(cut, 0).fault == Some(
                codec::fields_bytes(l).len() + codec::tag_bytes(
                    last.number,
                    last.value.kind(),
                ).len(),
            )
        }),
{
    lemma_cut(l, last, kept, 0);
    let tag = codec::tag_bytes(last.number, last.value.kind());
    let end = last.value.bytes().take(kept);
    assert(codec::fields_bytes(l) + (tag + end) =~= codec::fields_bytes(l) + tag + end);
}

proof fn lemma_cut(l: Seq<WireField>, last: WireField, kept: int, offset: nat)
    requires
        forall|i: int| 0 <= i < l.len() ==> (#[trigger] l[i]).well_formed(),
        last.well_formed(),
        last.value is Fixed64 || last.value is Fixed32,
        0 <= kept < last.value.bytes().len(),
    ensures
        ({
            let cut = codec::fields_bytes(l) + (codec::tag_bytes(last.number, last.value.kind())
                + last.value.bytes().take(kept));
            &&& walk(cut, offset).fields == l
            &&& walk(cut, offset).fault == Some(
                offset + codec::fields_bytes(l).len() + codec::tag_bytes(
                    last.number,
                    last.value.kind(),
                ).len(),
            )
        }),
    decreases l.len(),
{
    let end = codec::tag_bytes(last.number, last.value.kind()) + last.value.bytes().take(kept);
    if l.len() > 0 {
        let tail = l.skip(1);
        let rest = codec::fields_bytes(tail) + end;
        assert forall|i: int| 0 <= i < tail.len() implies (#[trigger] tail[i]).well_formed() by {
            assert(tail[i] == l[i + 1]);
        }
        assert(codec::fields_bytes(l) + end =~= l[0].bytes() + rest);
        codec::lemma_field_at(l[0], rest);
        let next = front(codec::fields_bytes(l) + end, offset)->Field_2;
        lemma_cut(tail, last, kept, next);
        assert(seq![l[0]] + tail =~= l);
    } else {
        assert(codec::fields_bytes(l) + end =~= end);
        codec::lemma_tag_at(last.number, last.value.kind(), last.value.bytes().take(kept));
        codec::lemma_tag_at_bounds(end);
        assert(l =~= Seq::<WireField>::empty());
    }
}

proof fn lemma_walked_then(l: Seq<WireField>, rest: Seq<u8>, offset: nat)
    requires
        forall|i: int| 0 <= i < l.len() ==> (#[trigger] l[i]).well_formed(),
    ensures
        walk(codec::fields_bytes(l) + rest, offset).fields == l + walk(
            rest,
            offset + codec::fields_bytes(l).len(),
        ).fields,
        walk(codec::fields_bytes(l) + rest, offset).fault == walk(
            rest,
            offset + codec::fields_bytes(l).len(),
        ).fault,
    decreases l.len(),
{
    let all = codec::fields_bytes(l) + rest;
    if l.len() > 0 {
        let tail = l.skip(1);
        let left = codec::fields_bytes(tail) + rest;
        assert forall|i: int| 0 <= i < tail.len() implies (#[trigger] tail[i]).well_formed() by {
            assert(tail[i] == l[i + 1]);
        }
        assert(all =~= l[0].bytes() + left);
        codec::lemma_field_at(l[0], left);
        lemma_walked_then(tail, rest, offset + l[0].bytes().len());
        let more = walk(rest, offset + codec::fields_bytes(l).len()).fields;
        assert(seq![l[0]] + (tail + more) =~= l + more);
    } else {
        assert(all =~= rest);
        assert(l + walk(rest, offset).fields =~= walk(rest, offset).fields);
    }
}

/// A value whose length says more than there is, is reported behind the length.
/// A tag that cannot be read is reported where it begins, and the tag of a group
/// counts as the number zero, behind which the walk goes on.
pub proof fn law_faults_are_reported_where_they_begin(
    l: Seq<WireField>,
    number: u32,
    declared: u64,
    rest: Seq<u8>,
)
    requires
        forall|i: int| 0 <= i < l.len() ==> (#[trigger] l[i]).well_formed(),
        1 <= number <= codec::MAX_FIELD_NUMBER,
    ensures
        rest.len() < declared ==> walk(
            codec::fields_bytes(l) + (codec::tag_bytes(number, WireKind::LengthDelimited)
                + codec::varint_bytes(declared as nat) + rest),
            0,
        ) == (Walked {
            fields: l,
            fault: Some(
                codec::fields_bytes(l).len() + codec::tag_bytes(
                    number,
                    WireKind::LengthDelimited,
                ).len() + codec::varint_bytes(declared as nat).len(),
            ),
        }),
        rest.len() > 0 && codec::tag_at(rest) is None ==> walk(codec::fields_bytes(l) + rest, 0)
            == (Walked { fields: l, fault: Some(codec::fields_bytes(l).len()) }),
        walk(
            codec::fields_bytes(l) + (codec::tag_bytes(number, WireKind::StartGroup) + rest),
            0,
        ).fields == l + seq![WireField { number, value: WireValue::Varint(0) }] + walk(
            rest,
            codec::fields_bytes(l).len() + codec::tag_bytes(number, WireKind::StartGroup).len(),
        ).fields,
{
    if rest.len() < declared {
        lemma_long_value(l, number, declared, rest);
    }
    if rest.len() > 0 && codec::tag_at(rest) is None {
        lemma_walked_then(l, rest, 0);
        assert(l + Seq::<WireField>::empty() =~= l);
    }
    lemma_group(l, number, rest);
}

proof fn lemma_long_value(l: Seq<WireField>, number: u32, declared: u64, rest: Seq<u8>)
    requires
        forall|i: int| 0 <= i < l.len() ==> (#[trigger] l[i]).well_formed(),
        1 <= number <= codec::MAX_FIELD_NUMBER,
        rest.len() < declared,
    ensures
        ({
            let tag = codec::tag_bytes(number, WireKind::LengthDelimited);
            let len = codec::varint_bytes(declared as nat);
            walk(codec::fields_bytes(l) + (tag + len + rest), 0) == (Walked {
                fields: l,
                fault: Some(codec::fields_bytes(l).len() + tag.len() + len.len()),
            })
        }),
{
    let tag = codec::tag_bytes(number, WireKind::LengthDelimited);
    let len = codec::varint_bytes(declared as nat);
    let cut = tag + len + rest;
    lemma_walked_then(l, cut, 0);
    codec::lemma_tag_at(number, WireKind::LengthDelimited, len + rest);
    assert(cut =~= tag + (len + rest));
    codec::lemma_varint_at(declared, rest);
    codec::lemma_tag_at_bounds(cut);
    assert(l + Seq::<WireField>::empty() =~= l);
}

proof fn lemma_group(l: Seq<WireField>, number: u32, rest: Seq<u8>)
    requires
        forall|i: int| 0 <= i < l.len() ==> (#[trigger] l[i]).well_formed(),
        1 <= number <= codec::MAX_FIELD_NUMBER,
    ensures
        ({
            let group = codec::tag_bytes(number, WireKind::StartGroup);
            walk(codec::fields_bytes(l) + (group + rest), 0).fields == l + seq![
                WireField { number, value: WireValue::Varint(0) },
            ] + walk(rest, codec::fields_bytes(l).len() + group.len()).fields
        }),
{
    let at = codec::fields_bytes(l).len();
    let group = codec::tag_bytes(number, WireKind::StartGroup);
    lemma_walked_then(l, group + rest, 0);
    codec::lemma_tag_at(number, WireKind::StartGroup, rest);
    codec::lemma_tag_at_bounds(group + rest);
    let first = seq![WireField { number, value: WireValue::Varint(0) }];
    let more = walk(rest, at + group.len()).fields;
    assert(walk(group + rest, at).fields == first + more);
    assert(l + (first + more) =~= l + first + more);
}

/// A payload without a fault is read, and one with a fault is reported with the
/// place of the fault.
pub proof fn law_a_fault_is_reported_with_its_place(at: nat, o: usize, r: Result<(), DecodeError>)
    ensures
        walk_result(None, r) <==> r is Ok,
        walk_result(Some(at), Ok(())) == false,
        walk_result(Some(at), Err(DecodeError::Truncated(o))) <==> o == at,
{
}

} // verus!
