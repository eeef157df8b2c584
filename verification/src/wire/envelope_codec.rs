//! Envelopes in a stream: the length of each in four bytes, the highest first,
//! then its encoded bytes.

use vstd::prelude::*;
use vstd::slice::slice_subrange;

use crate::text::{self, push_decimal};

verus! {

/// A length in four bytes, the highest first.
pub open spec fn be32(n: nat) -> Seq<u8> {
    seq![
        (n / 0x100_0000 % 256) as u8,
        (n / 0x1_0000 % 256) as u8,
        (n / 0x100 % 256) as u8,
        (n % 256) as u8,
    ]
}

/// The number that four bytes spell, the highest first.
pub open spec fn be32_value(b: Seq<u8>) -> nat {
    (b[0] * 0x100_0000 + b[1] * 0x1_0000 + b[2] * 0x100 + b[3]) as nat
}

/// An encoded envelope as it stands in a stream.
pub open spec fn frame(record: Seq<u8>) -> Seq<u8> {
    be32(record.len()) + record
}

/// A stream cannot be read.
#[derive(Debug, Clone, Copy, PartialEq, Eq, Structural)]
pub enum FrameError {
    /// A length is above the limit.
    TooLarge {
        len: u32,
        max_frame: usize,
    },
}

impl FrameError {
    /// The message for a person.
    pub fn message(self) -> (r: String)
        ensures
            r@ == (match self {
                FrameError::TooLarge { len, max_frame } => "obs envelope frame too large: "@
                    + text::decimal(len as nat) + " > "@ + text::decimal(max_frame as nat),
            }),
    {
        let mut out = String::new();
        match self {
            FrameError::TooLarge { len, max_frame } => {
                out.append("obs envelope frame too large: ");
                push_decimal(&mut out, len as u64);
                out.append(" > ");
                push_decimal(&mut out, max_frame as u64);
                assert(out@ =~= "obs envelope frame too large: "@ + text::decimal(len as nat)
                    + " > "@ + text::decimal(max_frame as nat));
            },
        }
        out
    }
}

/// Appends an encoded envelope to a stream.
pub fn encode_into(record: &[u8], out: &mut Vec<u8>)
    requires
        record@.len() <= u32::MAX,
    ensures
        final(out)@ == old(out)@ + frame(record@),
{
    let n: usize = record.len();
    let len: u32 = n as u32;
    out.push((len / 0x100_0000 % 256) as u8);
    out.push((len / 0x1_0000 % 256) as u8);
    out.push((len / 0x100 % 256) as u8);
    out.push((len % 256) as u8);
    out.extend_from_slice(record);
    proof {
        assert(out@ =~= old(out)@ + frame(record@));
    }
}

/// The encoded envelope at the front of a stream, and how many bytes it takes;
/// nothing where not all of it is there.
///
/// # Errors
///
/// A length above `max_frame` is reported.
pub fn decode_frame(buf: &[u8], max_frame: usize) -> (r: Result<
    Option<(&[u8], usize)>,
    FrameError,
>)
    ensures
        ({
            let len = be32_value(buf@);
            if buf@.len() < 4 {
                r matches Ok(got) && got is None
            } else if len > max_frame {
                r matches Err(FrameError::TooLarge { len: l, max_frame: m }) && l == len && m
                    == max_frame
            } else if buf@.len() < 4 + len {
                r matches Ok(got) && got is None
            } else {
                r matches Ok(Some((record, taken))) && record@ == buf@.subrange(4, 4 + len as int)
                    && taken == 4 + len
            }
        }),
{
    let size: usize = buf.len();
    if size < 4 {
        return Ok(None);
    }
    let len: u32 = buf[0] as u32 * 0x100_0000 + buf[1] as u32 * 0x1_0000 + buf[2] as u32 * 0x100
        + buf[3] as u32;
    if len as u64 > max_frame as u64 {
        return Err(FrameError::TooLarge { len, max_frame });
    }
    if ((size - 4) as u64) < len as u64 {
        return Ok(None);
    }
    let end: usize = 4 + len as usize;
    Ok(Some((slice_subrange(buf, 4, end), end)))
}

/// What was appended to a stream is read off its front, whatever follows it;
/// a front of it is not mistaken for the whole.
pub proof fn law_frame_is_read_back(record: Seq<u8>, rest: Seq<u8>, kept: int)
    requires
        record.len() <= u32::MAX,
        0 <= kept < frame(record).len(),
    ensures
        ({
            let stream = frame(record) + rest;
            let len = be32_value(stream);
            &&& len == record.len()
            &&& stream.len() >= 4 + len
            &&& stream.subrange(4, 4 + len as int) == record
            &&& stream.skip(4 + len as int) == rest
        }),
        ({
            let cut = frame(record).take(kept);
            cut.len() < 4 || cut.len() < 4 + be32_value(cut)
        }),
{
    let stream = frame(record) + rest;
    assert(stream.subrange(4, 4 + record.len() as int) =~= record);
    assert(stream.skip(4 + record.len() as int) =~= rest);
}

/// An envelope in a stream follows its length, of which the highest byte comes
/// first.
pub proof fn law_a_length_begins_with_its_highest_byte(record: Seq<u8>)
    requires
        record.len() <= u32::MAX,
    ensures
        frame(record).len() == 4 + record.len(),
        frame(record).skip(4) == record,
        frame(record)[0] as nat * 16_777_216 + frame(record)[1] as nat * 65_536 + frame(
            record,
        )[2] as nat * 256 + frame(record)[3] as nat == record.len(),
{
    assert(frame(record).skip(4) =~= record);
}

/// A stream that was written is read envelope by envelope. One that ends before
/// the envelope does asks for more, and a length above the limit is refused
/// before anything else is waited for.
pub proof fn law_frames_are_read_one_by_one(
    record: Seq<u8>,
    rest: Seq<u8>,
    buf: &[u8],
    max_frame: usize,
    r: Result<Option<(&[u8], usize)>, FrameError>,
)
    requires
        record.len() <= u32::MAX,
        call_ensures(decode_frame, (buf, max_frame), r),
    ensures
        buf@ == frame(record) + rest && record.len() <= max_frame ==> (r matches Ok(
            Some((got, taken)),
        ) && got@ == record && taken == frame(record).len()),
        buf@.len() < 4 ==> (r matches Ok(got) && got is None),
        buf@ == frame(record) + rest && record.len() > max_frame ==> r is Err,
        buf@.len() >= 4 && buf@.len() < frame(record).len() && record.len() <= max_frame && buf@
            == frame(record).take(buf@.len() as int) ==> (r matches Ok(got) && got is None),
{
    law_frame_is_read_back(record, rest, 0);
    if 4 <= buf@.len() < frame(record).len() && buf@ == frame(record).take(buf@.len() as int) {
        assert(be32_value(buf@) == be32_value(frame(record)));
        law_frame_is_read_back(record, Seq::empty(), 0);
        assert(frame(record) + Seq::<u8>::empty() =~= frame(record));
    }
}

} // verus!
