//! The hash that identifiers are made of.

use vstd::prelude::*;

verus! {

/// The BLAKE3 hash of some bytes.
pub uninterp spec fn blake3_digest(bytes: Seq<u8>) -> Seq<u8>;

/// `blake3::hash`: the 32 bytes of the default BLAKE3 hash of `bytes`, which
/// depend on nothing else. What they are is left to the function.
#[verifier::external_body]
pub(crate) fn digest(bytes: &[u8]) -> (r: [u8; 32])
    ensures
        r@ == blake3_digest(bytes@),
{
    *blake3::hash(bytes).as_bytes()
}

/// The number whose bytes are the first eight, the lowest first.
pub open spec fn low_number(bytes: Seq<u8>) -> u64
    recommends
        bytes.len() >= 8,
{
    (bytes[0] + bytes[1] * 0x100 + bytes[2] * 0x1_0000 + bytes[3] * 0x100_0000 + bytes[4]
        * 0x1_0000_0000 + bytes[5] * 0x100_0000_0000 + bytes[6] * 0x1_0000_0000_0000 + bytes[7]
        * 0x100_0000_0000_0000) as u64
}

/// The number whose bytes are the first eight, the lowest first.
pub fn first_number(bytes: &[u8]) -> (r: u64)
    requires
        bytes@.len() >= 8,
    ensures
        r == low_number(bytes@),
{
    bytes[0] as u64 + bytes[1] as u64 * 0x100 + bytes[2] as u64 * 0x1_0000 + bytes[3] as u64
        * 0x100_0000 + bytes[4] as u64 * 0x1_0000_0000 + bytes[5] as u64 * 0x100_0000_0000
        + bytes[6] as u64 * 0x1_0000_0000_0000 + bytes[7] as u64 * 0x100_0000_0000_0000
}

/// The last `width` bytes of a number, the lowest first.
pub open spec fn number_bytes(n: nat, width: nat) -> Seq<u8>
    decreases width,
{
    if width == 0 {
        Seq::empty()
    } else {
        seq![(n % 256) as u8] + number_bytes(n / 256, (width - 1) as nat)
    }
}

/// A number has as many bytes as are asked for.
pub(crate) proof fn lemma_number_bytes_len(n: nat, width: nat)
    ensures
        number_bytes(n, width).len() == width,
    decreases width,
{
    if width > 0 {
        lemma_number_bytes_len(n / 256, (width - 1) as nat);
    }
}

/// A number is read back from its eight bytes.
pub proof fn law_eight_bytes_give_the_number(n: u64)
    ensures
        low_number(number_bytes(n as nat, 8)) == n,
{
    reveal_with_fuel(number_bytes, 9);
}

/// Appends the last `width` bytes of a number, the lowest first.
pub fn push_number(out: &mut Vec<u8>, n: u64, width: usize)
    ensures
        final(out)@ == old(out)@ + number_bytes(n as nat, width as nat),
    decreases width,
{
    if width > 0 {
        out.push((n % 256) as u8);
        push_number(out, n / 256, width - 1);
    }
    assert(out@ =~= old(out)@ + number_bytes(n as nat, width as nat));
}

/// The bytes of a number are its remainders by 256, the lowest first.
pub proof fn law_bytes_are_remainders(n: nat, width: nat)
    requires
        width > 0,
    ensures
        number_bytes(n, width).len() == width,
        number_bytes(n, width)[0] as nat == n % 256,
        number_bytes(n, width).skip(1) == number_bytes(n / 256, (width - 1) as nat),
{
    lemma_number_bytes_len(n, width);
    assert(number_bytes(n, width).skip(1) =~= number_bytes(n / 256, (width - 1) as nat));
}

/// Numbers of 32 bits differ where their four bytes do not agree.
pub proof fn law_four_bytes_tell_numbers_apart(a: u32, b: u32)
    requires
        number_bytes(a as nat, 4) == number_bytes(b as nat, 4),
    ensures
        a == b,
{
    reveal_with_fuel(number_bytes, 5);
    let x = number_bytes(a as nat, 4);
    let y = number_bytes(b as nat, 4);
    assert(x[0] == y[0] && x[1] == y[1] && x[2] == y[2] && x[3] == y[3]);
    assert(x[0] as nat == a as nat % 256);
    assert(x[1] as nat == a as nat / 256 % 256);
    assert(x[2] as nat == a as nat / 256 / 256 % 256);
    assert(x[3] as nat == a as nat / 256 / 256 / 256 % 256);
    assert(y[1] as nat == b as nat / 256 % 256);
    assert(y[2] as nat == b as nat / 256 / 256 % 256);
    assert(y[3] as nat == b as nat / 256 / 256 / 256 % 256);
}

} // verus!
