//! Bytes as text: base64 with the standard alphabet and padding.

use vstd::prelude::*;

verus! {

/// The character that stands for six bits.
pub open spec fn sextet(n: nat) -> char {
    if n < 26 {
        ('A' as nat + n) as char
    } else if n < 52 {
        ('a' as nat + (n - 26) as nat) as char
    } else if n < 62 {
        ('0' as nat + (n - 52) as nat) as char
    } else if n == 62 {
        '+'
    } else {
        '/'
    }
}

/// The four characters of three bytes.
pub open spec fn group(a: nat, b: nat, c: nat) -> Seq<char> {
    seq![
        sextet(a / 4),
        sextet(a % 4 * 16 + b / 16),
        sextet(b % 16 * 4 + c / 64),
        sextet(c % 64),
    ]
}

/// The base64 text of `s`: four characters for each three bytes. Where one or
/// two bytes are left over, the rest counts as zero and `=` fills the last
/// group up.
pub open spec fn base64(s: Seq<u8>) -> Seq<char>
    decreases s.len(),
{
    if s.len() == 0 {
        Seq::empty()
    } else if s.len() == 1 {
        group(s[0] as nat, 0, 0).take(2) + seq!['=', '=']
    } else if s.len() == 2 {
        group(s[0] as nat, s[1] as nat, 0).take(3) + seq!['=']
    } else {
        group(s[0] as nat, s[1] as nat, s[2] as nat) + base64(s.skip(3))
    }
}

fn sextet_char(n: u8) -> (c: char)
    requires
        n < 64,
    ensures
        c == sextet(n as nat),
{
    if n < 26 {
        (65u8 + n) as char
    } else if n < 52 {
        (97u8 + (n - 26)) as char
    } else if n < 62 {
        (48u8 + (n - 52)) as char
    } else if n == 62 {
        '+'
    } else {
        '/'
    }
}

/// Bytes as base64 text.
pub fn base64_text(bytes: &[u8]) -> (r: String)
    ensures
        r@ == base64(bytes@),
{
    let mut out = String::new();
    let mut i: usize = 0;
    proof {
        assert(bytes@.skip(0) =~= bytes@);
    }
    while bytes.len() - i >= 3
        invariant
            i <= bytes@.len(),
            out@ + base64(bytes@.skip(i as int)) == base64(bytes@),
        decreases bytes@.len() - i,
    {
        let a = bytes[i];
        let b = bytes[i + 1];
        let c = bytes[i + 2];
        let ghost was = out@;
        let ghost rest = bytes@.skip(i as int);
        out.push(sextet_char(a / 4));
        out.push(sextet_char(a % 4 * 16 + b / 16));
        out.push(sextet_char(b % 16 * 4 + c / 64));
        out.push(sextet_char(c % 64));
        proof {
            assert(rest.skip(3) =~= bytes@.skip(i + 3));
            assert(out@ =~= was + group(a as nat, b as nat, c as nat));
            assert(out@ + base64(rest.skip(3)) =~= was + base64(rest));
        }
        i = i + 3;
    }
    let ghost was = out@;
    let ghost rest = bytes@.skip(i as int);
    if bytes.len() - i == 1 {
        let a = bytes[i];
        out.push(sextet_char(a / 4));
        out.push(sextet_char(a % 4 * 16));
        out.push('=');
        out.push('=');
    } else if bytes.len() - i == 2 {
        let a = bytes[i];
        let b = bytes[i + 1];
        out.push(sextet_char(a / 4));
        out.push(sextet_char(a % 4 * 16 + b / 16));
        out.push(sextet_char(b % 16 * 4));
        out.push('=');
    }
    proof {
        assert(out@ =~= was + base64(rest));
    }
    out
}

proof fn lemma_sextets_differ(m: nat, n: nat)
    requires
        m < 64,
        n < 64,
        sextet(m) == sextet(n),
    ensures
        m == n,
        sextet(m) != '=',
{
}

proof fn lemma_group_read_back(a: nat, b: nat, c: nat, x: nat, y: nat, z: nat)
    requires
        a < 256,
        b < 256,
        c < 256,
        x < 256,
        y < 256,
        z < 256,
    ensures
        group(a, b, c).take(2) == group(x, y, z).take(2) && b / 16 == y / 16 ==> a == x,
        group(a, b, c).take(3) == group(x, y, z).take(3) && c / 64 == z / 64 ==> a == x && b == y,
        group(a, b, c) == group(x, y, z) ==> a == x && b == y && c == z,
        group(a, b, c)[2] != '=',
        group(a, b, c)[3] != '=',
{
    let g = group(a, b, c);
    let h = group(x, y, z);
    if g.take(2) == h.take(2) {
        assert(g.take(2)[0] == h.take(2)[0] && g.take(2)[1] == h.take(2)[1]);
        lemma_sextets_differ(a / 4, x / 4);
        lemma_sextets_differ(a % 4 * 16 + b / 16, x % 4 * 16 + y / 16);
    }
    if g.take(3) == h.take(3) {
        assert(g.take(3).take(2) =~= g.take(2));
        assert(h.take(3).take(2) =~= h.take(2));
        assert(g.take(3)[2] == h.take(3)[2]);
        lemma_sextets_differ(b % 16 * 4 + c / 64, y % 16 * 4 + z / 64);
        lemma_sextets_differ(a / 4, x / 4);
        lemma_sextets_differ(a % 4 * 16 + b / 16, x % 4 * 16 + y / 16);
    }
    if g == h {
        lemma_sextets_differ(c % 64, z % 64);
        lemma_sextets_differ(b % 16 * 4 + c / 64, y % 16 * 4 + z / 64);
        lemma_sextets_differ(a / 4, x / 4);
        lemma_sextets_differ(a % 4 * 16 + b / 16, x % 4 * 16 + y / 16);
    }
    lemma_sextets_differ(b % 16 * 4 + c / 64, b % 16 * 4 + c / 64);
    lemma_sextets_differ(c % 64, c % 64);
}

/// Nothing is lost: bytes that have the same text are the same.
pub proof fn law_nothing_is_lost(a: Seq<u8>, b: Seq<u8>)
    requires
        base64(a) == base64(b),
    ensures
        a == b,
    decreases a.len(),
{
    let at = |s: Seq<u8>, i: int| -> nat {
        if i < s.len() {
            s[i] as nat
        } else {
            0
        }
    };
    let ga = group(at(a, 0), at(a, 1), at(a, 2));
    let gb = group(at(b, 0), at(b, 1), at(b, 2));
    let s = base64(a);
    if a.len() > 0 && b.len() > 0 {
        lemma_group_read_back(at(a, 0), at(a, 1), at(a, 2), at(b, 0), at(b, 1), at(b, 2));
        lemma_group_read_back(at(b, 0), at(b, 1), at(b, 2), at(a, 0), at(a, 1), at(a, 2));
        assert(s[2] == (if a.len() == 1 { '=' } else { ga[2] }));
        assert(s[3] == (if a.len() <= 2 { '=' } else { ga[3] }));
        assert(s[2] == (if b.len() == 1 { '=' } else { gb[2] }));
        assert(s[3] == (if b.len() <= 2 { '=' } else { gb[3] }));
        if a.len() >= 3 {
            assert(s.take(4) =~= ga);
            assert(s.take(4) =~= gb);
            assert(base64(a.skip(3)) =~= s.skip(4));
            assert(base64(b.skip(3)) =~= s.skip(4));
            law_nothing_is_lost(a.skip(3), b.skip(3));
            assert(a =~= seq![a[0], a[1], a[2]] + a.skip(3));
            assert(b =~= seq![b[0], b[1], b[2]] + b.skip(3));
        } else if a.len() == 2 {
            assert(s.take(3) =~= ga.take(3));
            assert(s.take(3) =~= gb.take(3));
            assert(a =~= b);
        } else {
            assert(s.take(2) =~= ga.take(2));
            assert(s.take(2) =~= gb.take(2));
            assert(a =~= b);
        }
    } else if a.len() > 0 {
        assert(base64(a).len() > 0);
    } else if b.len() > 0 {
        assert(base64(b).len() > 0);
    } else {
        assert(a =~= b);
    }
}

/// The sixty-four characters stand for their numbers: the capitals first, then
/// the small letters, then the digits.
pub proof fn law_characters_have_their_places(n: nat)
    requires
        n < 64,
    ensures
        n < 26 ==> sextet(n) as nat == 65 + n,
        26 <= n < 52 ==> sextet(n) as nat == 97 + (n - 26),
        52 <= n < 62 ==> sextet(n) as nat == 48 + (n - 52),
        sextet(62) == '+',
        sextet(63) == '/',
        sextet(n) != '=',
{
}

/// Three bytes and their four characters spell the same number of 24 bits.
pub proof fn law_three_bytes_are_four_characters(
    a: nat,
    b: nat,
    c: nat,
    w: nat,
    x: nat,
    y: nat,
    z: nat,
)
    requires
        a < 256,
        b < 256,
        c < 256,
        w < 64,
        x < 64,
        y < 64,
        z < 64,
        a * 65_536 + b * 256 + c == w * 262_144 + x * 4_096 + y * 64 + z,
    ensures
        group(a, b, c) == seq![sextet(w), sextet(x), sextet(y), sextet(z)],
{
    assert(w == a / 4);
    assert(x == a % 4 * 16 + b / 16);
    assert(y == b % 16 * 4 + c / 64);
    assert(z == c % 64);
    assert(group(a, b, c) =~= seq![sextet(w), sextet(x), sextet(y), sextet(z)]);
}

/// Whole groups of three bytes are told by themselves, and what follows them by
/// itself. One byte that is left over is told by two characters and two fillers,
/// and two bytes by three and one.
pub proof fn law_groups_are_told_one_by_one(s: Seq<u8>, rest: Seq<u8>)
    requires
        s.len() % 3 == 0,
    ensures
        base64(s + rest) == base64(s) + base64(rest),
        base64(s).len() == s.len() / 3 * 4,
        rest.len() == 1 ==> base64(rest) == group(rest[0] as nat, 0, 0).take(2) + seq!['=', '='],
        rest.len() == 2 ==> base64(rest) == group(rest[0] as nat, rest[1] as nat, 0).take(3)
            + seq!['='],
        rest.len() == 3 ==> base64(rest) == group(rest[0] as nat, rest[1] as nat, rest[2] as nat),
    decreases s.len(),
{
    if rest.len() == 3 {
        assert(base64(rest.skip(3)) =~= Seq::<char>::empty());
        assert(base64(rest) =~= group(rest[0] as nat, rest[1] as nat, rest[2] as nat));
    }
    if s.len() == 0 {
        assert(s + rest =~= rest);
        assert(base64(s) + base64(rest) =~= base64(rest));
    } else {
        law_groups_are_told_one_by_one(s.skip(3), rest);
        assert((s + rest).skip(3) =~= s.skip(3) + rest);
        assert(base64(s + rest) =~= base64(s) + base64(rest));
    }
}

} // verus!
