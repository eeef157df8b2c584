//! Text from outside, cut to size.

use vstd::prelude::*;

use crate::text::{self, chars_of, push_decimal, take_within, text_of};

verus! {

/// A text from outside that was cut.
#[derive(Debug, Clone, Copy)]
pub struct Oversized {
    /// The field that the text was for.
    pub field: &'static str,
    /// How many bytes it had.
    pub original_size: u64,
    /// How many are left.
    pub capped_size: u64,
}

/// A text that was cut, and how long it was.
pub open spec fn capped(raw: Seq<char>, max: nat) -> Seq<char> {
    text::prefix_within(raw, max) + "…<truncated:"@ + text::decimal(text::byte_len(raw)) + ">"@
}

/// Cuts a text from outside to `max_bytes` bytes, at the end of a character,
/// and notes how long it was. A text that fits is left as it is.
#[must_use]
pub fn cap_external_string(field: &'static str, raw: String, max_bytes: u16) -> (r: (
    String,
    Option<Oversized>,
))
    ensures
        text::byte_len(raw@) <= max_bytes ==> r.0@ == raw@ && r.1 is None,
        text::byte_len(raw@) > max_bytes ==> {
            &&& r.0@ == capped(raw@, max_bytes as nat)
            &&& r.1 matches Some(o)
            &&& o.field == field
            &&& o.original_size == text::byte_len(raw@)
            &&& o.capped_size == text::byte_len(r.0@)
        },
{
    let max: usize = max_bytes as usize;
    let size: usize = raw.as_str().as_bytes().len();
    if size <= max {
        return (raw, None);
    }
    let chars = chars_of(raw.as_str());
    let mut out = text_of(take_within(chars.as_slice(), max));
    out.append("…<truncated:");
    push_decimal(&mut out, size as u64);
    out.append(">");
    let capped_size: u64 = out.as_str().as_bytes().len() as u64;
    let oversized = Oversized { field, original_size: size as u64, capped_size };
    (out, Some(oversized))
}

/// A text that was cut begins as it did, keeps no more bytes of its own than it
/// may, and then says how many it had.
pub proof fn law_a_cut_text_says_how_long_it_was(raw: Seq<char>, max: nat)
    ensures
        ({
            let note = "…<truncated:"@ + text::decimal(text::byte_len(raw)) + ">"@;
            let kept = (capped(raw, max).len() - note.len()) as int;
            &&& 0 <= kept <= raw.len()
            &&& capped(raw, max) == raw.take(kept) + note
            &&& text::byte_len(raw.take(kept)) <= max
            &&& forall|k: int|
                kept < k <= raw.len() ==> text::byte_len(#[trigger] raw.take(k)) > max
        }),
{
    let note = "…<truncated:"@ + text::decimal(text::byte_len(raw)) + ">"@;
    let front = text::prefix_within(raw, max);
    text::law_cut_text_is_a_front_that_fits(raw, max);
    assert(capped(raw, max) =~= front + note);
    assert(front =~= raw.take(front.len() as int));
    assert forall|k: int| front.len() < k <= raw.len() implies text::byte_len(
        #[trigger] raw.take(k),
    ) > max by {
        text::law_cut_text_is_the_longest_front(raw, max, k);
    }
}

/// A text that fits comes back as it is and nothing is told. One that does not is
/// told with the field, the bytes that it had and those that are left.
pub proof fn law_only_a_long_text_is_told(
    field: &'static str,
    raw: String,
    max_bytes: u16,
    r: (String, Option<Oversized>),
)
    requires
        call_ensures(cap_external_string, (field, raw, max_bytes), r),
    ensures
        r.1 is None <==> text::byte_len(raw@) <= max_bytes,
        r.1 is None ==> r.0@ == raw@,
        r.1 matches Some(o) ==> {
            &&& o.field@ == field@
            &&& o.original_size == text::byte_len(raw@)
            &&& o.original_size > max_bytes
            &&& o.capped_size == text::byte_len(r.0@)
        },
{
}

} // verus!
