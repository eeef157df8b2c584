//! The fields of an event, written one by one.

use bytes::BytesMut;
use vstd::prelude::*;
use vstd::utf8::*;

use super::codec::{self, encode_string, encode_tag, Parsed, WireField, WireKind, WireValue};
use crate::digest;

verus! {

// ---------------------------------------------------------------------------
// The outside codec of values.
// ---------------------------------------------------------------------------
/// `buffa::types::encode_uint32` appends a number as its shortest varint.
#[verifier::external_body]
fn encode_uint32(value: u32, b: &mut BytesMut)
    ensures
        codec::buffer_bytes(*final(b)) == codec::buffer_bytes(*old(b)) + codec::varint_bytes(
            value as nat,
        ),
{
    buffa::types::encode_uint32(value, b)
}

/// `buffa::types::encode_uint64` appends a number as its shortest varint.
#[verifier::external_body]
fn encode_uint64(value: u64, b: &mut BytesMut)
    ensures
        codec::buffer_bytes(*final(b)) == codec::buffer_bytes(*old(b)) + codec::varint_bytes(
            value as nat,
        ),
{
    buffa::types::encode_uint64(value, b)
}

/// A signed number as one without a sign: two to the power of 64 is added to a
/// negative one.
pub open spec fn unsigned(v: int) -> u64 {
    if v >= 0 {
        v as u64
    } else {
        (v + 0x1_0000_0000_0000_0000) as u64
    }
}

/// `buffa::types::encode_int32` appends a number, extended to 64 bits, as its
/// shortest varint.
#[verifier::external_body]
fn encode_int32(value: i32, b: &mut BytesMut)
    ensures
        codec::buffer_bytes(*final(b)) == codec::buffer_bytes(*old(b)) + codec::varint_bytes(
            unsigned(value as int) as nat,
        ),
{
    buffa::types::encode_int32(value, b)
}

/// `buffa::types::encode_int64` appends a number as the shortest varint of its
/// 64 bits.
#[verifier::external_body]
fn encode_int64(value: i64, b: &mut BytesMut)
    ensures
        codec::buffer_bytes(*final(b)) == codec::buffer_bytes(*old(b)) + codec::varint_bytes(
            unsigned(value as int) as nat,
        ),
{
    buffa::types::encode_int64(value, b)
}

/// `buffa::types::encode_bool` appends one byte: one for true, zero for false.
#[verifier::external_body]
fn encode_bool(value: bool, b: &mut BytesMut)
    ensures
        codec::buffer_bytes(*final(b)) == codec::buffer_bytes(*old(b)).push(
            if value {
                1u8
            } else {
                0u8
            },
        ),
{
    buffa::types::encode_bool(value, b)
}

/// `buffa::types::encode_fixed32` appends the four bytes of a number, the
/// lowest first.
#[verifier::external_body]
fn encode_fixed32(value: u32, b: &mut BytesMut)
    ensures
        codec::buffer_bytes(*final(b)) == codec::buffer_bytes(*old(b)) + digest::number_bytes(
            value as nat,
            4,
        ),
{
    buffa::types::encode_fixed32(value, b)
}

/// `buffa::types::encode_fixed64` appends the eight bytes of a number, the
/// lowest first.
#[verifier::external_body]
fn encode_fixed64(value: u64, b: &mut BytesMut)
    ensures
        codec::buffer_bytes(*final(b)) == codec::buffer_bytes(*old(b)) + digest::number_bytes(
            value as nat,
            8,
        ),
{
    buffa::types::encode_fixed64(value, b)
}

/// `buffa::types::encode_bytes` appends the length as a varint, then the
/// bytes.
#[verifier::external_body]
fn encode_bytes(value: &[u8], b: &mut BytesMut)
    ensures
        codec::buffer_bytes(*final(b)) == codec::buffer_bytes(*old(b)) + codec::delimited(value@),
{
    buffa::types::encode_bytes(value, b)
}

// ---------------------------------------------------------------------------
// Fields.
// ---------------------------------------------------------------------------
/// The bytes of a field; one that has no value takes none.
pub open spec fn written(number: u32, value: Option<WireValue>) -> Seq<u8> {
    match value {
        Some(v) => (WireField { number, value: v }).bytes(),
        None => Seq::empty(),
    }
}

/// What can be the value of a field.
pub trait BuffaEncodeField {
    /// The value on the wire; none where it is the one that is left out.
    spec fn wire_value(&self) -> Option<WireValue>;

    /// Appends the field with this number, unless its value is left out.
    fn buffa_encode_field(&self, number: u32, buf: &mut BytesMut)
        requires
            self.wire_value() is Some ==> 1 <= number <= codec::MAX_FIELD_NUMBER,
        ensures
            codec::buffer_bytes(*final(buf)) == codec::buffer_bytes(*old(buf)) + written(
                number,
                self.wire_value(),
            ),
    ;
}

impl BuffaEncodeField for u32 {
    open spec fn wire_value(&self) -> Option<WireValue> {
        if *self == 0 {
            None
        } else {
            Some(WireValue::Varint(*self as u64))
        }
    }

    fn buffa_encode_field(&self, number: u32, buf: &mut BytesMut) {
        if *self != 0 {
            encode_tag(number, WireKind::Varint, buf);
            encode_uint32(*self, buf);
        }
    }
}

impl BuffaEncodeField for u64 {
    open spec fn wire_value(&self) -> Option<WireValue> {
        if *self == 0 {
            None
        } else {
            Some(WireValue::Varint(*self))
        }
    }

    fn buffa_encode_field(&self, number: u32, buf: &mut BytesMut) {
        if *self != 0 {
            encode_tag(number, WireKind::Varint, buf);
            encode_uint64(*self, buf);
        }
    }
}

impl BuffaEncodeField for i32 {
    open spec fn wire_value(&self) -> Option<WireValue> {
        if *self == 0 {
            None
        } else {
            Some(WireValue::Varint(unsigned(*self as int)))
        }
    }

    fn buffa_encode_field(&self, number: u32, buf: &mut BytesMut) {
        if *self != 0 {
            encode_tag(number, WireKind::Varint, buf);
            encode_int32(*self, buf);
        }
    }
}

impl BuffaEncodeField for i64 {
    open spec fn wire_value(&self) -> Option<WireValue> {
        if *self == 0 {
            None
        } else {
            Some(WireValue::Varint(unsigned(*self as int)))
        }
    }

    fn buffa_encode_field(&self, number: u32, buf: &mut BytesMut) {
        if *self != 0 {
            encode_tag(number, WireKind::Varint, buf);
            encode_int64(*self, buf);
        }
    }
}

impl BuffaEncodeField for bool {
    open spec fn wire_value(&self) -> Option<WireValue> {
        if *self {
            Some(WireValue::Varint(1))
        } else {
            None
        }
    }

    fn buffa_encode_field(&self, number: u32, buf: &mut BytesMut) {
        if *self {
            encode_tag(number, WireKind::Varint, buf);
            encode_bool(*self, buf);
        }
        proof {
            assert(codec::varint_bytes(1) =~= seq![1u8]);
        }
    }
}

/// A single-precision number, as its bits.
#[derive(Debug, Clone, Copy, PartialEq, Eq, Structural)]
pub struct SingleBits {
    pub bits: u32,
}

impl BuffaEncodeField for SingleBits {
    open spec fn wire_value(&self) -> Option<WireValue> {
        if self.bits == 0 || self.bits == 0x8000_0000 {
            None
        } else {
            Some(WireValue::Fixed32(digest::number_bytes(self.bits as nat, 4)))
        }
    }

    fn buffa_encode_field(&self, number: u32, buf: &mut BytesMut) {
        if self.bits != 0 && self.bits != 0x8000_0000 {
            encode_tag(number, WireKind::Fixed32, buf);
            encode_fixed32(self.bits, buf);
        }
    }
}

/// A double-precision number, as its bits.
#[derive(Debug, Clone, Copy, PartialEq, Eq, Structural)]
pub struct DoubleBits {
    pub bits: u64,
}

impl BuffaEncodeField for DoubleBits {
    open spec fn wire_value(&self) -> Option<WireValue> {
        if self.bits == 0 || self.bits == 0x8000_0000_0000_0000 {
            None
        } else {
            Some(WireValue::Fixed64(digest::number_bytes(self.bits as nat, 8)))
        }
    }

    fn buffa_encode_field(&self, number: u32, buf: &mut BytesMut) {
        if self.bits != 0 && self.bits != 0x8000_0000_0000_0000 {
            encode_tag(number, WireKind::Fixed64, buf);
            encode_fixed64(self.bits, buf);
        }
    }
}

/// A text on the wire, unless it is empty.
pub open spec fn text_value(s: Seq<char>) -> Option<WireValue> {
    if s.len() == 0 {
        None
    } else {
        Some(WireValue::Bytes(encode_utf8(s)))
    }
}

/// Bytes on the wire, unless there are none.
pub open spec fn bytes_value(b: Seq<u8>) -> Option<WireValue> {
    if b.len() == 0 {
        None
    } else {
        Some(WireValue::Bytes(b))
    }
}

/// Appends a text.
fn encode_text_field(value: &str, number: u32, buf: &mut BytesMut)
    requires
        value@.len() > 0 ==> 1 <= number <= codec::MAX_FIELD_NUMBER,
    ensures
        codec::buffer_bytes(*final(buf)) == codec::buffer_bytes(*old(buf)) + written(
            number,
            text_value(value@),
        ),
{
    if !value.is_empty() {
        encode_tag(number, WireKind::LengthDelimited, buf);
        encode_string(value, buf);
    }
}

/// Appends bytes.
fn encode_bytes_field(value: &[u8], number: u32, buf: &mut BytesMut)
    requires
        value@.len() > 0 ==> 1 <= number <= codec::MAX_FIELD_NUMBER,
    ensures
        codec::buffer_bytes(*final(buf)) == codec::buffer_bytes(*old(buf)) + written(
            number,
            bytes_value(value@),
        ),
{
    if value.len() > 0 {
        encode_tag(number, WireKind::LengthDelimited, buf);
        encode_bytes(value, buf);
    }
}

impl BuffaEncodeField for String {
    open spec fn wire_value(&self) -> Option<WireValue> {
        text_value(self@)
    }

    fn buffa_encode_field(&self, number: u32, buf: &mut BytesMut) {
        encode_text_field(self.as_str(), number, buf);
    }
}

impl BuffaEncodeField for &str {
    open spec fn wire_value(&self) -> Option<WireValue> {
        text_value(self@)
    }

    fn buffa_encode_field(&self, number: u32, buf: &mut BytesMut) {
        encode_text_field(self, number, buf);
    }
}

impl BuffaEncodeField for Vec<u8> {
    open spec fn wire_value(&self) -> Option<WireValue> {
        bytes_value(self@)
    }

    fn buffa_encode_field(&self, number: u32, buf: &mut BytesMut) {
        encode_bytes_field(self.as_slice(), number, buf);
    }
}

impl BuffaEncodeField for &[u8] {
    open spec fn wire_value(&self) -> Option<WireValue> {
        bytes_value(self@)
    }

    fn buffa_encode_field(&self, number: u32, buf: &mut BytesMut) {
        encode_bytes_field(self, number, buf);
    }
}

impl<T: BuffaEncodeField> BuffaEncodeField for Option<T> {
    open spec fn wire_value(&self) -> Option<WireValue> {
        match *self {
            Some(v) => v.wire_value(),
            None => None,
        }
    }

    fn buffa_encode_field(&self, number: u32, buf: &mut BytesMut) {
        if let Some(v) = self {
            v.buffa_encode_field(number, buf);
        }
        proof {
            assert(codec::buffer_bytes(*old(buf)) + Seq::<u8>::empty() =~= codec::buffer_bytes(
                *old(buf),
            ));
        }
    }
}

/// A field that was written is read back, with nothing beside it; one whose
/// value is left out leaves nothing behind.
pub proof fn law_written_field_is_read(number: u32, value: Option<WireValue>)
    requires
        value matches Some(v) ==> (WireField { number, value: v }).well_formed(),
    ensures
        codec::parse(written(number, value)) == (Parsed {
            fields: match value {
                Some(v) => seq![WireField { number, value: v }],
                None => Seq::empty(),
            },
            fault: None,
        }),
{
    if let Some(v) = value {
        let f = WireField { number, value: v };
        codec::law_fields_read_back(seq![f]);
        codec::lemma_fields_bytes_one(f);
    }
}

/// Zero, false and what is empty is left out, and so is what is not there. Any
/// other number is written as its 64 bits, a negative one with two to the power
/// of 64 added; texts and bytes are written as they are.
pub proof fn law_what_is_empty_is_left_out(
    a: u32,
    b: u64,
    c: i32,
    d: i64,
    s: Seq<char>,
    bytes: Seq<u8>,
)
    ensures
        a == 0 <==> a.wire_value() is None,
        a != 0 ==> a.wire_value() == Some(WireValue::Varint(a as u64)),
        b == 0 <==> b.wire_value() is None,
        b != 0 ==> b.wire_value() == Some(WireValue::Varint(b)),
        c == 0 <==> c.wire_value() is None,
        c > 0 ==> c.wire_value() == Some(WireValue::Varint(c as u64)),
        c < 0 ==> (c.wire_value() matches Some(WireValue::Varint(n)) && n == c
            + 0x1_0000_0000_0000_0000),
        d == 0 <==> d.wire_value() is None,
        d > 0 ==> d.wire_value() == Some(WireValue::Varint(d as u64)),
        d < 0 ==> (d.wire_value() matches Some(WireValue::Varint(n)) && n == d
            + 0x1_0000_0000_0000_0000),
        true.wire_value() == Some(WireValue::Varint(1)),
        false.wire_value() is None,
        None::<u64>.wire_value() is None,
        Some(b).wire_value() == b.wire_value(),
        s.len() == 0 <==> text_value(s) is None,
        s.len() > 0 ==> text_value(s) == Some(WireValue::Bytes(encode_utf8(s))),
        bytes.len() == 0 <==> bytes_value(bytes) is None,
        bytes.len() > 0 ==> bytes_value(bytes) == Some(WireValue::Bytes(bytes)),
{
}

/// A number with a fraction is left out where it is zero, with either sign, and
/// otherwise written as the bytes of its bits, the lowest first.
pub proof fn law_fractions_are_written_as_their_bits(a: SingleBits, b: DoubleBits)
    ensures
        a.wire_value() is None <==> a.bits == 0 || a.bits == 0x8000_0000,
        a.wire_value() matches Some(v) ==> v == WireValue::Fixed32(
            digest::number_bytes(a.bits as nat, 4),
        ) && v.well_formed(),
        b.wire_value() is None <==> b.bits == 0 || b.bits == 0x8000_0000_0000_0000,
        b.wire_value() matches Some(v) ==> v == WireValue::Fixed64(
            digest::number_bytes(b.bits as nat, 8),
        ) && v.well_formed(),
{
    digest::lemma_number_bytes_len(a.bits as nat, 4);
    digest::lemma_number_bytes_len(b.bits as nat, 8);
}

} // verus!
