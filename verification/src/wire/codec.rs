//! The tag, varint and length-delimited layer that payloads are written in.

use bytes::{BufMut, BytesMut};
use vstd::prelude::*;
use vstd::utf8::*;

verus! {

/// The largest field number that a tag can carry.
pub const MAX_FIELD_NUMBER: u32 = 536_870_911;

/// How the value behind a tag is laid out.
#[derive(Debug, Clone, Copy, PartialEq, Eq, Structural)]
pub enum WireKind {
    Varint,
    Fixed64,
    LengthDelimited,
    StartGroup,
    EndGroup,
    Fixed32,
}

impl WireKind {
    /// The three low bits that stand for this kind in a tag.
    pub open spec fn code(self) -> nat {
        match self {
            WireKind::Varint => 0,
            WireKind::Fixed64 => 1,
            WireKind::LengthDelimited => 2,
            WireKind::StartGroup => 3,
            WireKind::EndGroup => 4,
            WireKind::Fixed32 => 5,
        }
    }

    /// The kind that `code` stands for.
    pub open spec fn of_code(code: nat) -> WireKind {
        if code == 0 {
            WireKind::Varint
        } else if code == 1 {
            WireKind::Fixed64
        } else if code == 2 {
            WireKind::LengthDelimited
        } else if code == 3 {
            WireKind::StartGroup
        } else if code == 4 {
            WireKind::EndGroup
        } else {
            WireKind::Fixed32
        }
    }
}

/// The number that a run of varint bytes spells: seven bits a byte, the least
/// significant group first.
pub open spec fn groups_value(s: Seq<u8>) -> nat
    decreases s.len(),
{
    if s.len() == 0 {
        0
    } else {
        (s[0] as nat) % 128 + 128 * groups_value(s.skip(1))
    }
}

/// The width of the varint at the front of `s`, if it ends within `limit` bytes.
pub open spec fn varint_width(s: Seq<u8>, limit: nat) -> Option<nat>
    decreases limit,
{
    if limit == 0 || s.len() == 0 {
        None
    } else if s[0] < 128 {
        Some(1)
    } else {
        match varint_width(s.skip(1), (limit - 1) as nat) {
            Some(k) => Some(k + 1),
            None => None,
        }
    }
}

/// The varint at the front of `s`, reduced to 64 bits, and what follows it.
pub open spec fn varint_at(s: Seq<u8>) -> Option<(u64, Seq<u8>)> {
    match varint_width(s, 10) {
        Some(k) => Some(
            ((groups_value(s.take(k as int)) % 0x1_0000_0000_0000_0000) as u64, s.skip(k as int)),
        ),
        None => None,
    }
}

/// The shortest varint of `v`.
pub open spec fn varint_bytes(v: nat) -> Seq<u8>
    decreases v,
{
    if v < 128 {
        seq![v as u8]
    } else {
        seq![(v % 128 + 128) as u8] + varint_bytes(v / 128)
    }
}

/// The tag at the front of `s` and what follows it.
pub open spec fn tag_at(s: Seq<u8>) -> Option<(u32, WireKind, Seq<u8>)> {
    match varint_width(s, 10) {
        Some(k) => {
            let v = groups_value(s.take(k as int));
            if v <= 0xFFFF_FFFF && v % 8 <= 5 && v / 8 >= 1 {
                Some(((v / 8) as u32, WireKind::of_code(v % 8), s.skip(k as int)))
            } else {
                None
            }
        },
        None => None,
    }
}

/// The bytes of a tag.
pub open spec fn tag_bytes(number: u32, kind: WireKind) -> Seq<u8> {
    varint_bytes((number as nat) * 8 + kind.code())
}

/// A length-delimited value: its length, then its bytes.
pub open spec fn delimited(b: Seq<u8>) -> Seq<u8> {
    varint_bytes(b.len()) + b
}

/// A decoded value, before anything is known of its meaning. Fixed-width
/// values are kept as the bytes they came in.
pub enum WireValue {
    Varint(u64),
    Fixed64(Seq<u8>),
    Fixed32(Seq<u8>),
    Bytes(Seq<u8>),
}

impl WireValue {
    /// The kind of tag that such a value stands behind.
    pub open spec fn kind(self) -> WireKind {
        match self {
            WireValue::Varint(_) => WireKind::Varint,
            WireValue::Fixed64(_) => WireKind::Fixed64,
            WireValue::Fixed32(_) => WireKind::Fixed32,
            WireValue::Bytes(_) => WireKind::LengthDelimited,
        }
    }

    /// Whether the fixed-width forms have their width and a length fits in
    /// 64 bits.
    pub open spec fn well_formed(self) -> bool {
        match self {
            WireValue::Varint(_) => true,
            WireValue::Fixed64(b) => b.len() == 8,
            WireValue::Fixed32(b) => b.len() == 4,
            WireValue::Bytes(b) => b.len() <= u64::MAX,
        }
    }

    /// The bytes that the value is written as.
    pub open spec fn bytes(self) -> Seq<u8> {
        match self {
            WireValue::Varint(v) => varint_bytes(v as nat),
            WireValue::Fixed64(b) => b,
            WireValue::Fixed32(b) => b,
            WireValue::Bytes(b) => delimited(b),
        }
    }
}

/// One field: its number and its value.
pub struct WireField {
    pub number: u32,
    pub value: WireValue,
}

impl WireField {
    /// Whether the number fits a tag and the value its kind.
    pub open spec fn well_formed(self) -> bool {
        1 <= self.number <= MAX_FIELD_NUMBER && self.value.well_formed()
    }

    /// The bytes that the field is written as.
    pub open spec fn bytes(self) -> Seq<u8> {
        tag_bytes(self.number, self.value.kind()) + self.value.bytes()
    }
}

/// The bytes of a run of fields.
pub open spec fn fields_bytes(l: Seq<WireField>) -> Seq<u8>
    decreases l.len(),
{
    if l.len() == 0 {
        Seq::empty()
    } else {
        l[0].bytes() + fields_bytes(l.skip(1))
    }
}

/// Where a value behind a tag goes wrong.
#[derive(Debug, Clone, Copy, PartialEq, Eq, Structural)]
pub enum WireFault {
    /// The tag itself cannot be read.
    Tag,
    /// A varint is cut short or too long.
    Varint,
    /// Fewer than eight bytes are left.
    Fixed64,
    /// Fewer than four bytes are left.
    Fixed32,
    /// The length of a delimited value is cut short or too long.
    Length,
    /// A delimited value is shorter than its length says.
    Payload {
        /// The length that was declared.
        declared: u64,
    },
    /// A group, which no event uses.
    Group,
}

/// The value of the given kind at the front of `s`, and what follows it.
pub open spec fn value_at(s: Seq<u8>, kind: WireKind) -> Result<(WireValue, Seq<u8>), WireFault> {
    match kind {
        WireKind::Varint => match varint_at(s) {
            Some((v, rest)) => Ok((WireValue::Varint(v), rest)),
            None => Err(WireFault::Varint),
        },
        WireKind::Fixed64 => if s.len() < 8 {
            Err(WireFault::Fixed64)
        } else {
            Ok((WireValue::Fixed64(s.take(8)), s.skip(8)))
        },
        WireKind::Fixed32 => if s.len() < 4 {
            Err(WireFault::Fixed32)
        } else {
            Ok((WireValue::Fixed32(s.take(4)), s.skip(4)))
        },
        WireKind::LengthDelimited => match varint_at(s) {
            Some((n, rest)) => if rest.len() < n {
                Err(WireFault::Payload { declared: n })
            } else {
                Ok((WireValue::Bytes(rest.take(n as int)), rest.skip(n as int)))
            },
            None => Err(WireFault::Length),
        },
        WireKind::StartGroup => Err(WireFault::Group),
        WireKind::EndGroup => Err(WireFault::Group),
    }
}

// ---------------------------------------------------------------------------
// The outside buffer and tag codec.
// ---------------------------------------------------------------------------
/// The growable byte buffer of the `bytes` crate.
#[verifier::external_type_specification]
#[verifier::external_body]
pub struct ExBytesMut(bytes::BytesMut);

/// The bytes that a buffer holds.
pub uninterp spec fn buffer_bytes(b: BytesMut) -> Seq<u8>;

/// `BytesMut::clear` empties the buffer.
pub assume_specification[ BytesMut::clear ](b: &mut BytesMut)
    ensures
        buffer_bytes(*final(b)) == Seq::<u8>::empty(),
;

/// `BytesMut::new` makes an empty buffer.
pub assume_specification[ BytesMut::new ]() -> (b: BytesMut)
    ensures
        buffer_bytes(b) == Seq::<u8>::empty(),
;

/// `BufMut::put_slice` on a `BytesMut` appends the slice.
#[verifier::external_body]
pub(crate) fn put_slice(b: &mut BytesMut, src: &[u8])
    ensures
        buffer_bytes(*final(b)) == buffer_bytes(*old(b)) + src@,
{
    b.put_slice(src)
}

/// `BufMut::put_u8` on a `BytesMut` appends one byte.
#[verifier::external_body]
pub(crate) fn put_u8(b: &mut BytesMut, byte: u8)
    ensures
        buffer_bytes(*final(b)) == buffer_bytes(*old(b)).push(byte),
{
    b.put_u8(byte)
}

/// `BytesMut` dereferences to the bytes it holds.
#[verifier::external_body]
pub(crate) fn buffer_slice(b: &BytesMut) -> (r: &[u8])
    ensures
        r@ == buffer_bytes(*b),
{
    &b[..]
}

/// `buffa::encoding::Tag::decode` reads the varint at the front of a slice as
/// a tag. It refuses a varint that is cut short or longer than ten bytes, one
/// above 32 bits, a wire type above five and the field number zero; otherwise
/// it leaves the cursor behind the tag.
#[verifier::external_body]
pub(crate) fn decode_raw_tag(s: &[u8]) -> (r: Option<(u32, u8, &[u8])>)
    ensures
        match r {
            Some((number, code, rest)) => tag_at(s@) == Some(
                (number, WireKind::of_code(code as nat), rest@),
            ) && code <= 5,
            None => tag_at(s@) is None,
        },
{
    let mut cursor = s;
    match buffa::encoding::Tag::decode(&mut cursor) {
        Ok(tag) => Some((tag.field_number(), tag.wire_type() as u8, cursor)),
        Err(_) => None,
    }
}

/// `buffa::encoding::Tag::encode` appends the shortest varint of
/// `number * 8 + wire type`. `Tag::new` panics outside
/// `1..=MAX_FIELD_NUMBER`.
#[verifier::external_body]
pub(crate) fn encode_tag(number: u32, kind: WireKind, b: &mut BytesMut)
    requires
        1 <= number <= MAX_FIELD_NUMBER,
    ensures
        buffer_bytes(*final(b)) == buffer_bytes(*old(b)) + tag_bytes(number, kind),
{
    let wire = match kind {
        WireKind::Varint => buffa::encoding::WireType::Varint,
        WireKind::Fixed64 => buffa::encoding::WireType::Fixed64,
        WireKind::LengthDelimited => buffa::encoding::WireType::LengthDelimited,
        WireKind::StartGroup => buffa::encoding::WireType::StartGroup,
        WireKind::EndGroup => buffa::encoding::WireType::EndGroup,
        WireKind::Fixed32 => buffa::encoding::WireType::Fixed32,
    };
    buffa::encoding::Tag::new(number, wire).encode(b)
}

/// `buffa::types::encode_string` appends the length of the UTF-8 bytes as a
/// varint, then the bytes.
#[verifier::external_body]
pub(crate) fn encode_string(value: &str, b: &mut BytesMut)
    ensures
        buffer_bytes(*final(b)) == buffer_bytes(*old(b)) + delimited(encode_utf8(value@)),
{
    buffa::types::encode_string(value, b)
}

// ---------------------------------------------------------------------------
// Reading.
// ---------------------------------------------------------------------------
/// A payload taken apart: its fields up to the first fault, and the fault.
pub struct Parsed {
    pub fields: Seq<WireField>,
    pub fault: Option<WireFault>,
}

/// The fields that a payload holds.
pub open spec fn parse(s: Seq<u8>) -> Parsed
    decreases s.len(),
{
    if s.len() == 0 {
        Parsed { fields: Seq::empty(), fault: None }
    } else {
        match tag_at(s) {
            None => Parsed { fields: Seq::empty(), fault: Some(WireFault::Tag) },
            Some((number, kind, body)) => match value_at(body, kind) {
                Err(fault) => Parsed { fields: Seq::empty(), fault: Some(fault) },
                Ok((value, rest)) => if rest.len() < s.len() {
                    let tail = parse(rest);
                    Parsed {
                        fields: seq![WireField { number, value }] + tail.fields,
                        fault: tail.fault,
                    }
                } else {
                    arbitrary()
                },
            },
        }
    }
}

/// Reads the tag at the front of `s`.
pub fn decode_tag(s: &[u8]) -> (r: Option<(u32, WireKind, &[u8])>)
    ensures
        match r {
            Some((number, kind, rest)) => tag_at(s@) == Some((number, kind, rest@)),
            None => tag_at(s@) is None,
        },
{
    match decode_raw_tag(s) {
        Some((number, code, rest)) => {
            let kind = if code == 0 {
                WireKind::Varint
            } else if code == 1 {
                WireKind::Fixed64
            } else if code == 2 {
                WireKind::LengthDelimited
            } else if code == 3 {
                WireKind::StartGroup
            } else if code == 4 {
                WireKind::EndGroup
            } else {
                WireKind::Fixed32
            };
            Some((number, kind, rest))
        },
        None => None,
    }
}

/// Reads the varint at the front of `s`: at most ten bytes, of which the low
/// 64 bits count.
pub fn decode_varint(s: &[u8]) -> (r: Option<(u64, &[u8])>)
    ensures
        match r {
            Some((value, rest)) => varint_at(s@) == Some((value, rest@)),
            None => varint_at(s@) is None,
        },
{
    let mut value: u128 = 0;
    let mut scale: u128 = 1;
    let mut i: usize = 0;
    proof {
        assert(s@.skip(0) =~= s@);
        assert(s@.take(0).len() == 0);
    }
    while i < 10
        invariant
            i <= 10,
            i <= s@.len(),
            scale == pow128(i as nat),
            value == groups_value(s@.take(i as int)),
            value < scale,
            varint_width(s@, 10) == match varint_width(s@.skip(i as int), (10 - i) as nat) {
                Some(k) => Some(k + i as nat),
                None => None::<nat>,
            },
        decreases 10 - i,
    {
        if i >= s.len() {
            return None;
        }
        let byte: u8 = s[i];
        let low: u8 = byte % 128;
        proof {
            lemma_pow128(i as nat);
            lemma_groups_push(s@.take(i as int), byte);
            assert(s@.take(i as int).push(byte) =~= s@.take(i + 1));
            assert(s@.skip(i as int).skip(1) =~= s@.skip(i + 1));
            assert(low as nat * scale as nat <= 127 * scale as nat) by (nonlinear_arith)
                requires
                    low <= 127,
            ;
        }
        value = value + (low as u128) * scale;
        scale = scale * 128;
        i = i + 1;
        if byte < 128 {
            proof {
                assert(value as u64 == value % 0x1_0000_0000_0000_0000u128) by (bit_vector);
            }
            return Some((value as u64, vstd::slice::slice_subrange(s, i, s.len())));
        }
    }
    None
}

/// A value read off a payload; the bytes are those of the payload itself.
#[derive(Debug, Clone, Copy)]
pub enum FieldValue<'a> {
    Varint(u64),
    Fixed64(&'a [u8]),
    Fixed32(&'a [u8]),
    Bytes(&'a [u8]),
}

impl<'a> View for FieldValue<'a> {
    type V = WireValue;

    open spec fn view(&self) -> WireValue {
        match *self {
            FieldValue::Varint(v) => WireValue::Varint(v),
            FieldValue::Fixed64(b) => WireValue::Fixed64(b@),
            FieldValue::Fixed32(b) => WireValue::Fixed32(b@),
            FieldValue::Bytes(b) => WireValue::Bytes(b@),
        }
    }
}

/// Splits `s` before byte `n`.
pub(crate) fn split_bytes(s: &[u8], n: usize) -> (r: (&[u8], &[u8]))
    requires
        n <= s@.len(),
    ensures
        r.0@ == s@.take(n as int),
        r.1@ == s@.skip(n as int),
{
    (vstd::slice::slice_subrange(s, 0, n), vstd::slice::slice_subrange(s, n, s.len()))
}

/// Reads the value of the given kind at the front of `s`.
pub fn decode_value(s: &[u8], kind: WireKind) -> (r: Result<(FieldValue<'_>, &[u8]), WireFault>)
    ensures
        match r {
            Ok((value, rest)) => value_at(s@, kind) == Ok::<(WireValue, Seq<u8>), WireFault>(
                (value@, rest@),
            ),
            Err(fault) => value_at(s@, kind) == Err::<(WireValue, Seq<u8>), WireFault>(fault),
        },
{
    match kind {
        WireKind::Varint => match decode_varint(s) {
            Some((v, rest)) => Ok((FieldValue::Varint(v), rest)),
            None => Err(WireFault::Varint),
        },
        WireKind::Fixed64 => {
            if s.len() < 8 {
                return Err(WireFault::Fixed64);
            }
            let (bytes, rest) = split_bytes(s, 8);
            Ok((FieldValue::Fixed64(bytes), rest))
        },
        WireKind::Fixed32 => {
            if s.len() < 4 {
                return Err(WireFault::Fixed32);
            }
            let (bytes, rest) = split_bytes(s, 4);
            Ok((FieldValue::Fixed32(bytes), rest))
        },
        WireKind::LengthDelimited => match decode_varint(s) {
            Some((n, rest)) => {
                if (rest.len() as u64) < n {
                    return Err(WireFault::Payload { declared: n });
                }
                let (bytes, rest) = split_bytes(rest, n as usize);
                Ok((FieldValue::Bytes(bytes), rest))
            },
            None => Err(WireFault::Length),
        },
        WireKind::StartGroup => Err(WireFault::Group),
        WireKind::EndGroup => Err(WireFault::Group),
    }
}

// ---------------------------------------------------------------------------
// Writing.
// ---------------------------------------------------------------------------
/// Appends the shortest varint of `value`.
pub fn encode_raw_varint(value: u64, buf: &mut BytesMut)
    ensures
        buffer_bytes(*final(buf)) == buffer_bytes(*old(buf)) + varint_bytes(value as nat),
{
    let mut left: u64 = value;
    while left >= 0x80
        invariant
            buffer_bytes(*buf) + varint_bytes(left as nat) =~= buffer_bytes(*old(buf))
                + varint_bytes(value as nat),
        decreases left,
    {
        let low: u8 = (left % 128) as u8;
        put_u8(buf, low + 128);
        left = left / 128;
    }
    put_u8(buf, left as u8);
}

/// Appends a length-delimited value.
pub fn encode_delimited(bytes: &[u8], buf: &mut BytesMut)
    ensures
        buffer_bytes(*final(buf)) == buffer_bytes(*old(buf)) + delimited(bytes@),
{
    encode_raw_varint(bytes.len() as u64, buf);
    put_slice(buf, bytes);
}

/// The width of the shortest varint of `v`.
pub fn varint_len(v: u64) -> (n: usize)
    ensures
        n == varint_bytes(v as nat).len(),
        1 <= n <= 10,
{
    let mut left: u64 = v;
    let mut n: usize = 1;
    proof {
        reveal_with_fuel(pow128, 12);
        lemma_varint_bytes_len(v as nat, 10);
    }
    while left >= 0x80
        invariant
            1 <= n,
            n + varint_bytes(left as nat).len() == varint_bytes(v as nat).len() + 1,
            varint_bytes(v as nat).len() <= 10,
        decreases left,
    {
        left = left / 128;
        n = n + 1;
    }
    n
}

// ---------------------------------------------------------------------------
// What is written is read back.
// ---------------------------------------------------------------------------
/// A number below `128^n` takes at most `n` bytes.
proof fn lemma_varint_bytes_len(v: nat, n: nat)
    requires
        n >= 1,
        v < pow128(n),
    ensures
        1 <= varint_bytes(v).len() <= n,
    decreases n,
{
    if v >= 128 {
        reveal_with_fuel(pow128, 2);
        lemma_varint_bytes_len(v / 128, (n - 1) as nat);
    }
}

/// The width of a varint is that of its shortest form, whatever follows it,
/// and its bytes spell the number.
proof fn lemma_varint_round(v: nat, rest: Seq<u8>, limit: nat)
    requires
        v < pow128(limit),
        limit >= 1,
    ensures
        varint_width(varint_bytes(v) + rest, limit) == Some(varint_bytes(v).len()),
        groups_value(varint_bytes(v)) == v,
        (varint_bytes(v) + rest).take(varint_bytes(v).len() as int) == varint_bytes(v),
        (varint_bytes(v) + rest).skip(varint_bytes(v).len() as int) == rest,
    decreases limit,
{
    let b = varint_bytes(v);
    assert((b + rest).take(b.len() as int) =~= b);
    assert((b + rest).skip(b.len() as int) =~= rest);
    reveal_with_fuel(pow128, 2);
    if v < 128 {
        assert(b.skip(1) =~= Seq::<u8>::empty());
        reveal_with_fuel(groups_value, 2);
    } else {
        lemma_varint_round(v / 128, rest, (limit - 1) as nat);
        assert(b.skip(1) =~= varint_bytes(v / 128));
        assert((b + rest).skip(1) =~= varint_bytes(v / 128) + rest);
    }
}

/// A varint that was written is read back, and the rest is left.
pub proof fn lemma_varint_at(v: u64, rest: Seq<u8>)
    ensures
        varint_at(varint_bytes(v as nat) + rest) == Some((v, rest)),
{
    reveal_with_fuel(pow128, 12);
    lemma_varint_round(v as nat, rest, 10);
}

/// A tag that was written is read back, and the rest is left.
pub proof fn lemma_tag_at(number: u32, kind: WireKind, rest: Seq<u8>)
    requires
        1 <= number <= MAX_FIELD_NUMBER,
    ensures
        tag_at(tag_bytes(number, kind) + rest) == Some((number, kind, rest)),
{
    reveal_with_fuel(pow128, 12);
    lemma_varint_round((number as nat) * 8 + kind.code(), rest, 10);
}

/// A value that was written is read back, and the rest is left.
pub proof fn lemma_value_at(value: WireValue, rest: Seq<u8>)
    requires
        value.well_formed(),
    ensures
        value_at(value.bytes() + rest, value.kind()) == Ok::<(WireValue, Seq<u8>), WireFault>(
            (value, rest),
        ),
{
    match value {
        WireValue::Varint(v) => {
            lemma_varint_at(v, rest);
        },
        WireValue::Fixed64(b) => {
            assert((b + rest).take(8) =~= b);
            assert((b + rest).skip(8) =~= rest);
        },
        WireValue::Fixed32(b) => {
            assert((b + rest).take(4) =~= b);
            assert((b + rest).skip(4) =~= rest);
        },
        WireValue::Bytes(b) => {
            lemma_varint_at(b.len() as u64, b + rest);
            assert(delimited(b) + rest =~= varint_bytes(b.len()) + (b + rest));
            assert((b + rest).take(b.len() as int) =~= b);
            assert((b + rest).skip(b.len() as int) =~= rest);
        },
    }
}

/// A field that was written is read back, and the rest is left.
pub proof fn lemma_field_at(field: WireField, rest: Seq<u8>)
    requires
        field.well_formed(),
    ensures
        field.bytes().len() > 0,
        tag_at(field.bytes() + rest) == Some(
            (field.number, field.value.kind(), field.value.bytes() + rest),
        ),
        value_at(field.value.bytes() + rest, field.value.kind()) == Ok::<
            (WireValue, Seq<u8>),
            WireFault,
        >((field.value, rest)),
{
    lemma_tag_at(field.number, field.value.kind(), field.value.bytes() + rest);
    lemma_value_at(field.value, rest);
    assert(field.bytes() + rest =~= tag_bytes(field.number, field.value.kind()) + (
    field.value.bytes() + rest));
    lemma_tag_at_bounds(field.bytes() + rest);
}

/// The bytes of two runs of fields are those of the one run.
pub proof fn lemma_fields_bytes_add(a: Seq<WireField>, b: Seq<WireField>)
    ensures
        fields_bytes(a + b) == fields_bytes(a) + fields_bytes(b),
    decreases a.len(),
{
    if a.len() == 0 {
        assert(a + b =~= b);
        assert(fields_bytes(a) + fields_bytes(b) =~= fields_bytes(b));
    } else {
        assert((a + b).skip(1) =~= a.skip(1) + b);
        lemma_fields_bytes_add(a.skip(1), b);
        assert(fields_bytes(a + b) =~= fields_bytes(a) + fields_bytes(b));
    }
}

/// The bytes of one field.
pub proof fn lemma_fields_bytes_one(f: WireField)
    ensures
        fields_bytes(seq![f]) == f.bytes(),
{
    reveal_with_fuel(fields_bytes, 2);
    assert(fields_bytes(seq![f]) =~= f.bytes());
}

/// A run of fields that was written is read back.
pub proof fn law_fields_read_back(l: Seq<WireField>)
    requires
        forall|i: int| 0 <= i < l.len() ==> (#[trigger] l[i]).well_formed(),
    ensures
        parse(fields_bytes(l)) == (Parsed { fields: l, fault: None }),
    decreases l.len(),
{
    if l.len() > 0 {
        let tail = l.skip(1);
        assert forall|i: int| 0 <= i < tail.len() implies (#[trigger] tail[i]).well_formed() by {
            assert(tail[i] == l[i + 1]);
        }
        law_fields_read_back(tail);
        lemma_field_at(l[0], fields_bytes(tail));
        assert(seq![l[0]] + tail =~= l);
    } else {
        assert(l =~= Seq::<WireField>::empty());
    }
}

/// What is read off a payload can be written.
pub proof fn lemma_parse_well_formed(s: Seq<u8>)
    requires
        s.len() <= u64::MAX,
    ensures
        forall|i: int|
            0 <= i < parse(s).fields.len() ==> (#[trigger] parse(s).fields[i]).well_formed(),
    decreases s.len(),
{
    if s.len() > 0 {
        lemma_tag_at_bounds(s);
        if let Some((number, kind, body)) = tag_at(s) {
            lemma_value_at_bounds(body, kind);
            if let Ok((value, rest)) = value_at(body, kind) {
                lemma_parse_well_formed(rest);
                let tail = parse(rest);
                assert forall|i: int| 0 <= i < parse(s).fields.len() implies (
                #[trigger] parse(s).fields[i]).well_formed() by {
                    if i > 0 {
                        assert(parse(s).fields[i] == tail.fields[i - 1]);
                    }
                }
            }
        }
    }
}

/// A varint takes up at least as many bytes as its shortest form.
pub proof fn lemma_varint_at_width(s: Seq<u8>)
    ensures
        varint_at(s) matches Some((v, rest)) ==> {
            &&& rest.len() < s.len()
            &&& varint_bytes(v as nat).len() <= s.len() - rest.len()
        },
{
    if let Some(k) = varint_width(s, 10) {
        lemma_width_bounds(s, 10);
        lemma_groups_bound(s.take(k as int));
        let full = groups_value(s.take(k as int));
        let v = full % 0x1_0000_0000_0000_0000;
        assert(v <= full);
        lemma_varint_bytes_len(v, k);
    }
}

proof fn lemma_width_bounds(s: Seq<u8>, limit: nat)
    ensures
        varint_width(s, limit) matches Some(k) ==> 1 <= k <= s.len() && k <= limit,
    decreases limit,
{
    if limit > 0 && s.len() > 0 && s[0] >= 128 {
        lemma_width_bounds(s.skip(1), (limit - 1) as nat);
    }
}

proof fn lemma_groups_bound(s: Seq<u8>)
    ensures
        groups_value(s) < pow128(s.len()),
    decreases s.len(),
{
    if s.len() > 0 {
        lemma_groups_bound(s.skip(1));
        reveal_with_fuel(pow128, 2);
    }
}

/// A tag takes up at least one byte, and its number fits a tag.
pub proof fn lemma_tag_at_bounds(s: Seq<u8>)
    ensures
        tag_at(s) matches Some((number, kind, rest)) ==> {
            &&& 1 <= number <= MAX_FIELD_NUMBER
            &&& rest.len() < s.len()
        },
{
    lemma_width_bounds(s, 10);
}

/// A value leaves no more than there was.
pub proof fn lemma_value_at_bounds(s: Seq<u8>, kind: WireKind)
    ensures
        value_at(s, kind) matches Ok((value, rest)) ==> {
            &&& rest.len() <= s.len()
            &&& (s.len() <= u64::MAX ==> value.well_formed())
            &&& value.kind() == kind
        },
{
    lemma_varint_at_width(s);
}

/// 128 to the power `n`.
pub open spec fn pow128(n: nat) -> nat
    decreases n,
{
    if n == 0 {
        1
    } else {
        128 * pow128((n - 1) as nat)
    }
}

proof fn lemma_pow128(n: nat)
    requires
        n < 10,
    ensures
        pow128(n + 1) == 128 * pow128(n),
        pow128(n) <= 0x8000_0000_0000_0000,
{
    reveal_with_fuel(pow128, 12);
}

/// One more byte adds one more group.
proof fn lemma_groups_push(s: Seq<u8>, b: u8)
    ensures
        groups_value(s.push(b)) == groups_value(s) + ((b as nat) % 128) * pow128(s.len()),
    decreases s.len(),
{
    let low = (b as nat) % 128;
    if s.len() == 0 {
        assert(s.push(b).skip(1) =~= s);
        assert(pow128(0) == 1);
        assert(low * 1 == low);
    } else {
        let p = pow128((s.len() - 1) as nat);
        let g = groups_value(s.skip(1));
        lemma_groups_push(s.skip(1), b);
        assert(s.push(b).skip(1) =~= s.skip(1).push(b));
        assert(128 * (g + low * p) == 128 * g + low * (128 * p)) by (nonlinear_arith);
        assert(pow128(s.len()) == 128 * p);
    }
}

// ---------------------------------------------------------------------------
// What the bytes are.
// ---------------------------------------------------------------------------
/// A number is written in groups of seven bits, the lowest first. Every byte but
/// the last has its high bit set, and there is no byte too many.
pub proof fn law_numbers_are_written_in_groups(v: nat, i: int)
    ensures
        groups_value(varint_bytes(v)) == v,
        varint_bytes(v).len() > 0,
        0 <= i < varint_bytes(v).len() - 1 ==> varint_bytes(v)[i] >= 128,
        varint_bytes(v).last() < 128,
        varint_bytes(v).len() > 1 ==> varint_bytes(v).last() > 0,
        varint_bytes(v)[0] as nat % 128 == v % 128,
        groups_value(varint_bytes(v).skip(1)) == v / 128,
    decreases v,
{
    let b = varint_bytes(v);
    reveal_with_fuel(groups_value, 2);
    if v < 128 {
        assert(b.skip(1) =~= Seq::<u8>::empty());
    } else {
        let rest = varint_bytes(v / 128);
        law_numbers_are_written_in_groups(v / 128, i - 1);
        assert(b.skip(1) =~= rest);
        assert(b.last() == rest.last());
        if 0 < i < b.len() - 1 {
            assert(b[i] == rest[i - 1]);
        }
        if rest.len() == 1 {
            assert(rest.skip(1) =~= Seq::<u8>::empty());
            assert(groups_value(rest) == rest[0] as nat % 128);
        }
    }
}

/// A tag holds the number of its field above three bits, which tell how the
/// value is laid out.
pub proof fn law_a_tag_holds_number_and_kind(number: u32, kind: WireKind)
    ensures
        groups_value(tag_bytes(number, kind)) / 8 == number,
        WireKind::of_code(groups_value(tag_bytes(number, kind)) % 8) == kind,
        WireKind::Varint.code() == 0,
        WireKind::Fixed64.code() == 1,
        WireKind::LengthDelimited.code() == 2,
        WireKind::StartGroup.code() == 3,
        WireKind::EndGroup.code() == 4,
        WireKind::Fixed32.code() == 5,
{
    law_numbers_are_written_in_groups((number as nat) * 8 + kind.code(), 0);
}

/// A number and a length are written as varints, a length before its bytes;
/// values of a fixed width are written as they are.
pub proof fn law_values_are_laid_out_by_kind(v: u64, b: Seq<u8>)
    ensures
        WireValue::Varint(v).kind() == WireKind::Varint,
        WireValue::Varint(v).bytes() == varint_bytes(v as nat),
        WireValue::Fixed64(b).kind() == WireKind::Fixed64,
        WireValue::Fixed64(b).bytes() == b,
        WireValue::Fixed32(b).kind() == WireKind::Fixed32,
        WireValue::Fixed32(b).bytes() == b,
        WireValue::Bytes(b).kind() == WireKind::LengthDelimited,
        WireValue::Bytes(b).bytes().skip(varint_bytes(b.len()).len() as int) == b,
        WireValue::Bytes(b).bytes().take(varint_bytes(b.len()).len() as int) == varint_bytes(
            b.len(),
        ),
{
    let n = varint_bytes(b.len());
    assert((n + b).skip(n.len() as int) =~= b);
    assert((n + b).take(n.len() as int) =~= n);
}

/// Whether a varint at the front of `s` goes on beyond ten bytes or beyond the
/// end.
pub open spec fn goes_on(s: Seq<u8>) -> bool {
    forall|i: int| 0 <= i < s.len() && i < 10 ==> #[trigger] s[i] >= 128
}

proof fn lemma_goes_on(s: Seq<u8>, limit: nat)
    requires
        forall|i: int| 0 <= i < s.len() && i < limit ==> #[trigger] s[i] >= 128,
    ensures
        varint_width(s, limit) is None,
    decreases limit,
{
    if limit > 0 && s.len() > 0 {
        let tail = s.skip(1);
        assert(s[0] >= 128);
        assert forall|i: int| 0 <= i < tail.len() && i < limit - 1 implies #[trigger] tail[i]
            >= 128 by {
            assert(tail[i] == s[i + 1]);
        }
        lemma_goes_on(tail, (limit - 1) as nat);
    }
}

/// What cannot be read is told by what is missing: the end of a varint, the
/// bytes of a fixed width, the length, or as many bytes as the length says. A
/// group is never read.
pub proof fn law_what_is_missing_is_told(s: Seq<u8>, declared: u64)
    ensures
        goes_on(s) ==> value_at(s, WireKind::Varint) == Err::<(WireValue, Seq<u8>), WireFault>(
            WireFault::Varint,
        ),
        goes_on(s) ==> value_at(s, WireKind::LengthDelimited) == Err::<
            (WireValue, Seq<u8>),
            WireFault,
        >(WireFault::Length),
        goes_on(s) ==> tag_at(s) is None,
        s.len() < 8 ==> value_at(s, WireKind::Fixed64) == Err::<(WireValue, Seq<u8>), WireFault>(
            WireFault::Fixed64,
        ),
        s.len() >= 8 ==> value_at(s, WireKind::Fixed64) is Ok,
        s.len() < 4 ==> value_at(s, WireKind::Fixed32) == Err::<(WireValue, Seq<u8>), WireFault>(
            WireFault::Fixed32,
        ),
        s.len() >= 4 ==> value_at(s, WireKind::Fixed32) is Ok,
        s.len() < declared ==> value_at(
            varint_bytes(declared as nat) + s,
            WireKind::LengthDelimited,
        ) == Err::<(WireValue, Seq<u8>), WireFault>(WireFault::Payload { declared }),
        s.len() >= declared ==> value_at(
            varint_bytes(declared as nat) + s,
            WireKind::LengthDelimited,
        ) is Ok,
        value_at(s, WireKind::StartGroup) == Err::<(WireValue, Seq<u8>), WireFault>(
            WireFault::Group,
        ),
        value_at(s, WireKind::EndGroup) == Err::<(WireValue, Seq<u8>), WireFault>(WireFault::Group),
{
    if goes_on(s) {
        lemma_goes_on(s, 10);
    }
    lemma_varint_at(declared, s);
}

/// Fields that were written are read before whatever follows them, and what goes
/// wrong goes wrong behind them.
pub proof fn law_written_fields_come_first(l: Seq<WireField>, rest: Seq<u8>)
    requires
        forall|i: int| 0 <= i < l.len() ==> (#[trigger] l[i]).well_formed(),
    ensures
        parse(fields_bytes(l) + rest).fields == l + parse(rest).fields,
        parse(fields_bytes(l) + rest).fault == parse(rest).fault,
    decreases l.len(),
{
    if l.len() > 0 {
        let tail = l.skip(1);
        assert forall|i: int| 0 <= i < tail.len() implies (#[trigger] tail[i]).well_formed() by {
            assert(tail[i] == l[i + 1]);
        }
        law_written_fields_come_first(tail, rest);
        let left = fields_bytes(tail) + rest;
        lemma_field_at(l[0], left);
        assert(fields_bytes(l) + rest =~= l[0].bytes() + left);
        assert(seq![l[0]] + (tail + parse(rest).fields) =~= l + parse(rest).fields);
    } else {
        assert(fields_bytes(l) + rest =~= rest);
        assert(l + parse(rest).fields =~= parse(rest).fields);
    }
}

} // verus!
