//! Text built and taken apart character by character.

use vstd::prelude::*;
use vstd::slice::slice_subrange;
use vstd::utf8::*;

verus! {

/// `String::push` appends one character.
pub assume_specification[ std::string::String::push ](s: &mut std::string::String, c: char)
    ensures
        final(s)@ == old(s)@.push(c),
;

/// `String::from_utf8` takes bytes that are UTF-8, and no others.
#[verifier::external_body]
pub(crate) fn utf8_text(bytes: Vec<u8>) -> (r: Option<String>)
    ensures
        match r {
            Some(s) => valid_utf8(bytes@) && s@ == decode_utf8(bytes@),
            None => !valid_utf8(bytes@),
        },
{
    match String::from_utf8(bytes) {
        Ok(s) => Some(s),
        Err(_) => None,
    }
}

/// Texts, by their characters.
pub open spec fn texts(list: Seq<String>) -> Seq<Seq<char>> {
    list.map_values(|s: String| s@)
}

/// A text that may be missing.
pub open spec fn opt_text(s: Option<String>) -> Option<Seq<char>> {
    match s {
        Some(t) => Some(t@),
        None => None,
    }
}

/// A copy of a text that may be missing.
pub(crate) fn copy_opt(s: &Option<String>) -> (r: Option<String>)
    ensures
        r == *s,
{
    match s {
        Some(t) => Some(t.clone()),
        None => None,
    }
}

/// A copy of pairs of texts.
pub(crate) fn copy_pairs(list: &Vec<(String, String)>) -> (r: Vec<(String, String)>)
    ensures
        r@ == list@,
{
    let mut out: Vec<(String, String)> = Vec::new();
    let mut i: usize = 0;
    while i < list.len()
        invariant
            i <= list@.len(),
            out@ =~= list@.take(i as int),
        decreases list@.len() - i,
    {
        let pair = &list[i];
        out.push((pair.0.clone(), pair.1.clone()));
        i = i + 1;
    }
    assert(out@ =~= list@);
    out
}

/// The characters of `s`.
pub fn chars_of(s: &str) -> (r: Vec<char>)
    ensures
        r@ == s@,
{
    let mut out: Vec<char> = Vec::new();
    for c in it: s.chars()
        invariant
            out@ == it.seq().take(it.index() as int),
            it.seq() == s@,
    {
        out.push(c);
        assert(it.seq().take(it.index() + 1) =~= it.seq().take(it.index() as int).push(c));
    }
    assert(s@.take(s@.len() as int) =~= s@);
    out
}

/// The text that `chars` spell.
pub fn text_of(chars: &[char]) -> (r: String)
    ensures
        r@ == chars@,
{
    let mut out = String::new();
    push_chars(&mut out, chars);
    out
}

/// Appends `chars`.
pub fn push_chars(out: &mut String, chars: &[char])
    ensures
        final(out)@ == old(out)@ + chars@,
{
    let mut i: usize = 0;
    while i < chars.len()
        invariant
            i <= chars@.len(),
            out@ == old(out)@ + chars@.take(i as int),
        decreases chars@.len() - i,
    {
        out.push(chars[i]);
        i = i + 1;
        assert(chars@.take(i as int) =~= chars@.take(i - 1).push(chars@[i - 1]));
    }
    assert(chars@.take(i as int) =~= chars@);
}

/// Whether two runs of characters are the same.
pub fn chars_eq(a: &[char], b: &[char]) -> (r: bool)
    ensures
        r == (a@ == b@),
{
    if a.len() != b.len() {
        return false;
    }
    let mut i: usize = 0;
    while i < a.len()
        invariant
            i <= a@.len(),
            a@.len() == b@.len(),
            forall|k: int| 0 <= k < i ==> a@[k] == b@[k],
        decreases a@.len() - i,
    {
        if a[i] != b[i] {
            return false;
        }
        i = i + 1;
    }
    assert(a@ =~= b@);
    true
}

/// Whether two texts are the same.
pub fn text_eq(a: &str, b: &str) -> (r: bool)
    ensures
        r == (a@ == b@),
{
    let a = chars_of(a);
    let b = chars_of(b);
    chars_eq(a.as_slice(), b.as_slice())
}

/// Whether `s` begins with `front`.
pub fn has_prefix(s: &[char], front: &[char]) -> (r: bool)
    ensures
        r == front@.is_prefix_of(s@),
{
    if front.len() > s.len() {
        return false;
    }
    let head = slice_subrange(s, 0, front.len());
    chars_eq(front, head)
}

/// Whether `name` begins with `prefix`.
#[must_use]
pub fn starts_with_obs(name: &str, prefix: &str) -> (r: bool)
    ensures
        r == prefix@.is_prefix_of(name@),
{
    let s = chars_of(name);
    let front = chars_of(prefix);
    has_prefix(s.as_slice(), front.as_slice())
}

/// Whether `s` ends with `end`.
pub fn has_suffix(s: &[char], end: &[char]) -> (r: bool)
    ensures
        r == end@.is_suffix_of(s@),
{
    if end.len() > s.len() {
        return false;
    }
    let size: usize = s.len();
    let tail = slice_subrange(s, size - end.len(), size);
    chars_eq(end, tail)
}

// ---------------------------------------------------------------------------
// Bytes.
// ---------------------------------------------------------------------------
/// How many bytes the UTF-8 of `s` takes.
pub open spec fn byte_len(s: Seq<char>) -> nat {
    encode_utf8(s).len()
}

/// How many bytes the UTF-8 of `c` takes.
pub fn char_width(c: char) -> (n: usize)
    ensures
        n == byte_len(seq![c]),
        1 <= n <= 4,
{
    proof {
        reveal_with_fuel(encode_utf8, 2);
        assert(seq![c].drop_first() =~= Seq::<char>::empty());
        char_is_scalar(c);
    }
    let n: u32 = c as u32;
    if n <= 0x7F {
        1
    } else if n <= 0x7FF {
        2
    } else if n <= 0xFFFF {
        3
    } else {
        4
    }
}

/// One more character takes as many bytes more as it has.
pub proof fn lemma_byte_len_push(s: Seq<char>, c: char)
    ensures
        encode_utf8(s.push(c)) == encode_utf8(s) + encode_utf8(seq![c]),
        byte_len(s.push(c)) == byte_len(s) + byte_len(seq![c]),
    decreases s.len(),
{
    if s.len() == 0 {
        assert(s.push(c) =~= seq![c]);
        assert(encode_utf8(s) + encode_utf8(seq![c]) =~= encode_utf8(seq![c]));
    } else {
        lemma_byte_len_push(s.drop_first(), c);
        assert(s.push(c).drop_first() =~= s.drop_first().push(c));
        assert(encode_utf8(s.push(c)) =~= encode_utf8(s) + encode_utf8(seq![c]));
    }
}

/// The longest run of characters at the front of `s` that takes at most `max`
/// bytes.
pub open spec fn prefix_within(s: Seq<char>, max: nat) -> Seq<char>
    decreases s.len(),
{
    if s.len() == 0 || byte_len(seq![s[0]]) > max {
        Seq::empty()
    } else {
        seq![s[0]] + prefix_within(s.skip(1), (max - byte_len(seq![s[0]])) as nat)
    }
}

/// The longest run of characters at the front of `s` that takes at most `max`
/// bytes.
pub fn take_within(s: &[char], max: usize) -> (r: &[char])
    ensures
        r@ == prefix_within(s@, max as nat),
{
    let mut i: usize = 0;
    let mut left: usize = max;
    proof {
        assert(s@.skip(0) =~= s@);
        assert(s@.take(0) + prefix_within(s@, max as nat) =~= prefix_within(s@, max as nat));
    }
    while i < s.len() && char_width(s[i]) <= left
        invariant
            i <= s@.len(),
            prefix_within(s@, max as nat) == s@.take(i as int) + prefix_within(
                s@.skip(i as int),
                left as nat,
            ),
        decreases s@.len() - i,
    {
        let n: usize = char_width(s[i]);
        proof {
            let tail = prefix_within(s@.skip(i + 1), (left - n) as nat);
            assert(s@.skip(i as int).skip(1) =~= s@.skip(i + 1));
            assert(s@.skip(i as int)[0] == s@[i as int]);
            assert(s@.take(i as int) + (seq![s@[i as int]] + tail) =~= s@.take(i + 1) + tail);
        }
        left = left - n;
        i = i + 1;
    }
    proof {
        assert(s@.take(i as int) + Seq::<char>::empty() =~= s@.take(i as int));
        assert(s@.subrange(0, i as int) =~= s@.take(i as int));
    }
    slice_subrange(s, 0, i)
}

/// What is left of a text that was cut is its front, and fits.
pub proof fn law_cut_text_is_a_front_that_fits(s: Seq<char>, max: nat)
    ensures
        prefix_within(s, max).is_prefix_of(s),
        byte_len(prefix_within(s, max)) <= max,
        byte_len(s) <= max ==> prefix_within(s, max) == s,
    decreases s.len(),
{
    if s.len() > 0 {
        let w = byte_len(seq![s[0]]);
        reveal_with_fuel(encode_utf8, 2);
        assert(seq![s[0]].drop_first() =~= Seq::<char>::empty());
        assert(s.drop_first() =~= s.skip(1));
        if w <= max {
            let tail = prefix_within(s.skip(1), (max - w) as nat);
            law_cut_text_is_a_front_that_fits(s.skip(1), (max - w) as nat);
            let cut = seq![s[0]] + tail;
            assert(cut.drop_first() =~= tail);
            assert(byte_len(cut) == w + byte_len(tail));
            assert(cut =~= s.take(cut.len() as int)) by {
                assert(tail =~= s.skip(1).take(tail.len() as int));
            }
            if byte_len(s) <= max {
                assert(cut =~= s);
            }
        }
    } else {
        assert(prefix_within(s, max) =~= s);
    }
}

// ---------------------------------------------------------------------------
// Numbers.
// ---------------------------------------------------------------------------
/// The digit of `d`, up to fifteen, in lower-case hexadecimal.
pub open spec fn digit(d: nat) -> char {
    if d < 10 {
        ('0' as nat + d) as char
    } else {
        ('a' as nat + (d - 10) as nat) as char
    }
}

/// `n` in decimal.
pub open spec fn decimal(n: nat) -> Seq<char>
    decreases n,
{
    if n < 10 {
        seq![digit(n)]
    } else {
        decimal(n / 10).push(digit(n % 10))
    }
}

/// The last `width` hexadecimal digits of `n`.
pub open spec fn hex_digits(n: nat, width: nat) -> Seq<char>
    decreases width,
{
    if width == 0 {
        Seq::empty()
    } else {
        hex_digits(n / 16, (width - 1) as nat).push(digit(n % 16))
    }
}

/// The last `width` decimal digits of `n`.
pub open spec fn decimal_digits(n: nat, width: nat) -> Seq<char>
    decreases width,
{
    if width == 0 {
        Seq::empty()
    } else {
        decimal_digits(n / 10, (width - 1) as nat).push(digit(n % 10))
    }
}

/// `n` in decimal, filled up to `width` with zeros.
pub open spec fn zero_padded(n: nat, width: nat) -> Seq<char> {
    pad_left(decimal(n), width, '0')
}

/// `s` filled up on the left.
pub open spec fn pad_left(s: Seq<char>, width: nat, fill: char) -> Seq<char> {
    if s.len() >= width {
        s
    } else {
        Seq::new((width - s.len()) as nat, |i: int| fill) + s
    }
}

/// `s` filled up on the right.
pub open spec fn pad_right(s: Seq<char>, width: nat, fill: char) -> Seq<char> {
    if s.len() >= width {
        s
    } else {
        s + Seq::new((width - s.len()) as nat, |i: int| fill)
    }
}

/// The digit of `d`.
pub fn digit_char(d: u8) -> (c: char)
    requires
        d < 16,
    ensures
        c == digit(d as nat),
{
    if d < 10 {
        (48u8 + d) as char
    } else {
        (87u8 + d) as char
    }
}

/// Appends `n` in decimal.
pub fn push_decimal(out: &mut String, n: u64)
    ensures
        final(out)@ == old(out)@ + decimal(n as nat),
    decreases n,
{
    if n >= 10 {
        push_decimal(out, n / 10);
    }
    out.push(digit_char((n % 10) as u8));
    assert(out@ =~= old(out)@ + decimal(n as nat));
}

/// Appends `n` in decimal, filled up on the left to `width`.
pub fn push_decimal_padded(out: &mut String, n: u64, width: usize, fill: char)
    ensures
        final(out)@ == old(out)@ + pad_left(decimal(n as nat), width as nat, fill),
{
    let mut digits = String::new();
    push_decimal(&mut digits, n);
    push_padded_left(out, digits.as_str(), width, fill);
    assert(Seq::<char>::empty() + decimal(n as nat) =~= decimal(n as nat));
}

/// Appends `fill` `n` times.
pub fn push_fill(out: &mut String, fill: char, n: usize)
    ensures
        final(out)@ == old(out)@ + Seq::new(n as nat, |i: int| fill),
{
    let mut k: usize = 0;
    while k < n
        invariant
            k <= n,
            out@ =~= old(out)@ + Seq::new(k as nat, |i: int| fill),
        decreases n - k,
    {
        out.push(fill);
        k = k + 1;
    }
}

/// Appends `s`, filled up on the left.
pub fn push_padded_left(out: &mut String, s: &str, width: usize, fill: char)
    ensures
        final(out)@ == old(out)@ + pad_left(s@, width as nat, fill),
{
    let n: usize = s.unicode_len();
    if n < width {
        push_fill(out, fill, width - n);
    }
    out.append(s);
    assert(out@ =~= old(out)@ + pad_left(s@, width as nat, fill));
}

/// Appends `s`, filled up on the right.
pub fn push_padded_right(out: &mut String, s: &str, width: usize, fill: char)
    ensures
        final(out)@ == old(out)@ + pad_right(s@, width as nat, fill),
{
    let n: usize = s.unicode_len();
    out.append(s);
    if n < width {
        push_fill(out, fill, width - n);
    }
    assert(out@ =~= old(out)@ + pad_right(s@, width as nat, fill));
}

/// Appends the last `width` hexadecimal digits of `n`.
pub fn push_hex(out: &mut String, n: u64, width: usize)
    ensures
        final(out)@ == old(out)@ + hex_digits(n as nat, width as nat),
    decreases width,
{
    if width > 0 {
        push_hex(out, n / 16, width - 1);
        out.push(digit_char((n % 16) as u8));
    }
    assert(out@ =~= old(out)@ + hex_digits(n as nat, width as nat));
}

// ---------------------------------------------------------------------------
// Letters.
// ---------------------------------------------------------------------------
/// `c`, an ASCII capital turned into its small letter.
pub open spec fn lower(c: char) -> char {
    if 'A' <= c <= 'Z' {
        (c as nat + 32) as char
    } else {
        c
    }
}

/// `s` with ASCII capitals turned into small letters.
pub open spec fn lowered(s: Seq<char>) -> Seq<char> {
    Seq::new(s.len(), |i: int| lower(s[i]))
}

/// `c`, an ASCII capital turned into its small letter.
pub fn ascii_lower(c: char) -> (r: char)
    ensures
        r == lower(c),
{
    if 'A' <= c && c <= 'Z' {
        (c as u8 + 32) as char
    } else {
        c
    }
}

/// Whether two texts are the same but for the case of ASCII letters.
pub fn eq_ignore_case(a: &[char], b: &str) -> (r: bool)
    ensures
        r == (lowered(a@) == lowered(b@)),
{
    let other = chars_of(b);
    if a.len() != other.len() {
        proof {
            assert(lowered(a@).len() == a@.len());
            assert(lowered(b@).len() == b@.len());
        }
        return false;
    }
    let mut i: usize = 0;
    while i < a.len()
        invariant
            i <= a@.len(),
            a@.len() == other@.len(),
            other@ == b@,
            forall|k: int| 0 <= k < i ==> lower(#[trigger] a@[k]) == lower(b@[k]),
        decreases a@.len() - i,
    {
        if ascii_lower(a[i]) != ascii_lower(other[i]) {
            proof {
                assert(lowered(a@)[i as int] != lowered(b@)[i as int]);
            }
            return false;
        }
        i = i + 1;
    }
    assert(lowered(a@) =~= lowered(b@));
    true
}

/// The characters with the Unicode property `White_Space`.
pub open spec fn is_space(c: char) -> bool {
    let n = c as nat;
    ||| 0x9 <= n <= 0xD
    ||| n == 0x20
    ||| n == 0x85
    ||| n == 0xA0
    ||| n == 0x1680
    ||| 0x2000 <= n <= 0x200A
    ||| n == 0x2028
    ||| n == 0x2029
    ||| n == 0x202F
    ||| n == 0x205F
    ||| n == 0x3000
}

/// Whether `c` has the Unicode property `White_Space`.
pub fn is_whitespace(c: char) -> (r: bool)
    ensures
        r == is_space(c),
{
    let n: u32 = c as u32;
    (0x9 <= n && n <= 0xD) || n == 0x20 || n == 0x85 || n == 0xA0 || n == 0x1680 || (0x2000 <= n
        && n <= 0x200A) || n == 0x2028 || n == 0x2029 || n == 0x202F || n == 0x205F || n == 0x3000
}

/// `s` without the white space at its front.
pub open spec fn trim_start(s: Seq<char>) -> Seq<char>
    decreases s.len(),
{
    if s.len() > 0 && is_space(s[0]) {
        trim_start(s.skip(1))
    } else {
        s
    }
}

/// `s` without the white space at its back.
pub open spec fn trim_end(s: Seq<char>) -> Seq<char>
    decreases s.len(),
{
    if s.len() > 0 && is_space(s.last()) {
        trim_end(s.drop_last())
    } else {
        s
    }
}

/// `s` without the white space at its ends.
pub open spec fn trimmed(s: Seq<char>) -> Seq<char> {
    trim_end(trim_start(s))
}

/// `s` without the white space at its ends.
pub fn trim(s: &[char]) -> (r: &[char])
    ensures
        r@ == trimmed(s@),
{
    let mut from: usize = 0;
    proof {
        assert(s@.skip(0) =~= s@);
    }
    while from < s.len() && is_whitespace(s[from])
        invariant
            from <= s@.len(),
            trim_start(s@) == trim_start(s@.skip(from as int)),
        decreases s@.len() - from,
    {
        proof {
            assert(s@.skip(from as int).skip(1) =~= s@.skip(from + 1));
        }
        from = from + 1;
    }
    let mut to: usize = s.len();
    let ghost front = trim_start(s@);
    proof {
        assert(front == s@.skip(from as int));
        assert(s@.subrange(from as int, to as int) =~= front);
    }
    while from < to && is_whitespace(s[to - 1])
        invariant
            from <= to <= s@.len(),
            trim_end(front) == trim_end(s@.subrange(from as int, to as int)),
        decreases to - from,
    {
        proof {
            assert(s@.subrange(from as int, to as int).drop_last() =~= s@.subrange(
                from as int,
                to - 1,
            ));
        }
        to = to - 1;
    }
    slice_subrange(s, from, to)
}

// ---------------------------------------------------------------------------
// Laws.
// ---------------------------------------------------------------------------
/// The number that digits of a base spell, the highest first.
pub open spec fn digits_value(s: Seq<char>, base: nat) -> nat
    decreases s.len(),
{
    if s.len() == 0 {
        0
    } else {
        let c = s.last();
        let d = if '0' <= c <= '9' {
            c as nat - '0' as nat
        } else {
            c as nat - 'a' as nat + 10
        };
        digits_value(s.drop_last(), base) * base + d as nat
    }
}

/// A number in decimal is made of the digits from 0 to 9, spells the number, and
/// has no zero in front unless it is one digit.
pub proof fn law_decimal_spells_the_number(n: nat)
    ensures
        digits_value(decimal(n), 10) == n,
        forall|i: int| 0 <= i < decimal(n).len() ==> '0' <= #[trigger] decimal(n)[i] <= '9',
        decimal(n).len() >= 1,
        decimal(n).len() > 1 ==> decimal(n)[0] != '0',
        n > 0 ==> decimal(n)[0] != '0',
    decreases n,
{
    if n < 10 {
        reveal_with_fuel(digits_value, 2);
        assert(decimal(n).drop_last() =~= Seq::<char>::empty());
    } else {
        law_decimal_spells_the_number(n / 10);
        assert(decimal(n).drop_last() =~= decimal(n / 10));
    }
}

/// The last hexadecimal digits of a number are as many as asked for, in small
/// letters, and spell the number where it has no more.
pub proof fn law_hex_spells_the_number(n: nat, width: nat)
    ensures
        hex_digits(n, width).len() == width,
        n < vstd::arithmetic::power::pow(16, width) ==> digits_value(hex_digits(n, width), 16) == n,
        forall|i: int|
            0 <= i < width ==> '0' <= #[trigger] hex_digits(n, width)[i] <= '9' || 'a'
                <= hex_digits(n, width)[i] <= 'f',
    decreases width,
{
    if width > 0 {
        reveal_with_fuel(vstd::arithmetic::power::pow, 2);
        let w = (width - 1) as nat;
        let p = vstd::arithmetic::power::pow(16, w);
        law_hex_spells_the_number(n / 16, w);
        assert(hex_digits(n, width).drop_last() =~= hex_digits(n / 16, w));
        assert(n < 16 * p ==> n / 16 < p) by (nonlinear_arith);
    } else {
        reveal_with_fuel(vstd::arithmetic::power::pow, 1);
    }
}

/// The last decimal digits of a number are as many as asked for, and spell the
/// number where it has no more.
pub proof fn law_last_digits_spell_the_number(n: nat, width: nat)
    ensures
        decimal_digits(n, width).len() == width,
        n < vstd::arithmetic::power::pow(10, width) ==> digits_value(decimal_digits(n, width), 10)
            == n,
        forall|i: int| 0 <= i < width ==> '0' <= #[trigger] decimal_digits(n, width)[i] <= '9',
    decreases width,
{
    if width > 0 {
        reveal_with_fuel(vstd::arithmetic::power::pow, 2);
        let w = (width - 1) as nat;
        let p = vstd::arithmetic::power::pow(10, w);
        law_last_digits_spell_the_number(n / 10, w);
        assert(decimal_digits(n, width).drop_last() =~= decimal_digits(n / 10, w));
        assert(n < 10 * p ==> n / 10 < p) by (nonlinear_arith);
    } else {
        reveal_with_fuel(vstd::arithmetic::power::pow, 1);
    }
}

/// Filling a text up makes it as long as asked for, adds nothing but the filling
/// on the one side, and leaves a text alone that is long enough.
pub proof fn law_filling_adds_on_one_side(s: Seq<char>, width: nat, fill: char)
    ensures
        pad_left(s, width, fill).len() == (if s.len() > width {
            s.len()
        } else {
            width
        }),
        pad_right(s, width, fill).len() == pad_left(s, width, fill).len(),
        s.is_suffix_of(pad_left(s, width, fill)),
        s.is_prefix_of(pad_right(s, width, fill)),
        forall|i: int|
            0 <= i < width - s.len() ==> #[trigger] pad_left(s, width, fill)[i] == fill,
        forall|i: int|
            s.len() <= i < width ==> #[trigger] pad_right(s, width, fill)[i] == fill,
{
    let l = pad_left(s, width, fill);
    let r = pad_right(s, width, fill);
    assert(l.subrange(l.len() - s.len(), l.len() as int) =~= s);
    assert(r.subrange(0, s.len() as int) =~= s);
}

/// Turning capitals into small letters changes nothing else: the 26 capitals
/// become the small letters in the same places of the alphabet.
pub proof fn law_lowering_touches_capitals_only(s: Seq<char>, i: int)
    requires
        0 <= i < s.len(),
    ensures
        lowered(s).len() == s.len(),
        'A' <= s[i] <= 'Z' ==> 'a' <= lowered(s)[i] <= 'z' && lowered(s)[i] as int - 'a' as int
            == s[i] as int - 'A' as int,
        !('A' <= s[i] <= 'Z') ==> lowered(s)[i] == s[i],
        lowered(lowered(s)) == lowered(s),
{
    assert(lowered(lowered(s)) =~= lowered(s));
}

/// Trimming takes white space from both ends and nothing else: what is left
/// neither begins nor ends with white space, and what was taken is white space.
pub proof fn law_trimming_takes_white_space_from_the_ends(s: Seq<char>) -> (r: (
    Seq<char>,
    Seq<char>,
))
    ensures
        s == r.0 + trimmed(s) + r.1,
        forall|i: int| 0 <= i < r.0.len() ==> is_space(#[trigger] r.0[i]),
        forall|i: int| 0 <= i < r.1.len() ==> is_space(#[trigger] r.1[i]),
        trimmed(s).len() > 0 ==> !is_space(trimmed(s)[0]) && !is_space(trimmed(s).last()),
{
    let mid = trim_start(s);
    let front = lemma_trim_start(s);
    let back = lemma_trim_end(mid);
    assert(s =~= front + trimmed(s) + back);
    if trimmed(s).len() > 0 {
        assert(trimmed(s)[0] == mid[0]);
    }
    (front, back)
}

proof fn lemma_trim_start(s: Seq<char>) -> (front: Seq<char>)
    ensures
        s == front + trim_start(s),
        forall|i: int| 0 <= i < front.len() ==> is_space(#[trigger] front[i]),
        trim_start(s).len() > 0 ==> !is_space(trim_start(s)[0]),
    decreases s.len(),
{
    if s.len() > 0 && is_space(s[0]) {
        let rest = lemma_trim_start(s.skip(1));
        let front = seq![s[0]] + rest;
        assert(s =~= seq![s[0]] + s.skip(1));
        assert(seq![s[0]] + (rest + trim_start(s)) =~= front + trim_start(s));
        front
    } else {
        assert(s =~= Seq::<char>::empty() + s);
        Seq::empty()
    }
}

proof fn lemma_trim_end(s: Seq<char>) -> (back: Seq<char>)
    ensures
        s == trim_end(s) + back,
        forall|i: int| 0 <= i < back.len() ==> is_space(#[trigger] back[i]),
        trim_end(s).len() > 0 ==> !is_space(trim_end(s).last()),
    decreases s.len(),
{
    if s.len() > 0 && is_space(s.last()) {
        let rest = lemma_trim_end(s.drop_last());
        let back = rest.push(s.last());
        assert(s =~= s.drop_last().push(s.last()));
        assert((trim_end(s) + rest).push(s.last()) =~= trim_end(s) + back);
        back
    } else {
        assert(s =~= s + Seq::<char>::empty());
        Seq::empty()
    }
}

/// A text without white space at its ends stays as it is.
pub proof fn law_trimmed_stays(s: Seq<char>)
    requires
        s.len() > 0 ==> !is_space(s[0]) && !is_space(s.last()),
    ensures
        trimmed(s) == s,
{
}

/// The space, the tab and the ends of a line are white space; what is written in
/// ASCII letters, digits and signs is not.
pub proof fn law_what_is_white_space(c: char)
    ensures
        is_space(' '),
        is_space('\t'),
        is_space('\n'),
        is_space('\r'),
        '!' <= c <= '~' ==> !is_space(c),
{
}

/// What is left of a text that was cut is the longest front that fits: with
/// one more character it would not.
pub proof fn law_cut_text_is_the_longest_front(s: Seq<char>, max: nat, k: int)
    requires
        prefix_within(s, max).len() < k <= s.len(),
    ensures
        byte_len(s.take(k)) > max,
    decreases s.len(),
{
    reveal_with_fuel(encode_utf8, 2);
    let front = s.take(k);
    let w = byte_len(seq![s[0]]);
    assert(seq![s[0]].drop_first() =~= Seq::<char>::empty());
    assert(front.drop_first() =~= s.skip(1).take(k - 1));
    assert(byte_len(front) == w + byte_len(s.skip(1).take(k - 1)));
    if w <= max {
        law_cut_text_is_the_longest_front(s.skip(1), (max - w) as nat, k - 1);
    }
}

/// White space around a text is taken away, and nothing else.
pub proof fn law_white_space_around_is_taken(front: Seq<char>, core: Seq<char>, back: Seq<char>)
    requires
        forall|i: int| 0 <= i < front.len() ==> is_space(#[trigger] front[i]),
        forall|i: int| 0 <= i < back.len() ==> is_space(#[trigger] back[i]),
        core.len() > 0,
        !is_space(core[0]),
        !is_space(core.last()),
    ensures
        trimmed(front + core + back) == core,
    decreases front.len(), back.len(),
{
    let all = front + core + back;
    if front.len() > 0 {
        assert(all[0] == front[0]);
        assert(all.skip(1) =~= front.skip(1) + core + back);
        law_white_space_around_is_taken(front.skip(1), core, back);
    } else {
        assert(all =~= core + back);
        assert(all[0] == core[0]);
        if back.len() > 0 {
            assert(all.last() == back.last());
            assert(all.drop_last() =~= front + core + back.drop_last());
            law_white_space_around_is_taken(front, core, back.drop_last());
            assert((front + core + back.drop_last())[0] == core[0]);
        } else {
            assert(all =~= core);
        }
    }
}

/// Zeros before a number do not change it.
pub proof fn law_leading_zeros_do_not_count(k: nat, s: Seq<char>, base: nat)
    requires
        base == 10 || base == 16,
    ensures
        digits_value(Seq::new(k, |i: int| '0') + s, base) == digits_value(s, base),
    decreases s.len(), k,
{
    let zeros = Seq::new(k, |i: int| '0');
    let all = zeros + s;
    if s.len() > 0 {
        assert(all.drop_last() =~= zeros + s.drop_last());
        assert(all.last() == s.last());
        law_leading_zeros_do_not_count(k, s.drop_last(), base);
    } else if k > 0 {
        let fewer = Seq::new((k - 1) as nat, |i: int| '0');
        assert(all.drop_last() =~= fewer + s);
        assert(all.last() == '0');
        law_leading_zeros_do_not_count((k - 1) as nat, s, base);
    } else {
        assert(all =~= s);
    }
}

/// A number that zeros fill up to a width is at least that wide, and still spells
/// the number.
pub proof fn law_filled_up_with_zeros_it_stays_the_number(n: nat, width: nat)
    ensures
        zero_padded(n, width).len() >= width,
        digits_value(zero_padded(n, width), 10) == n,
{
    let own = decimal(n);
    law_decimal_spells_the_number(n);
    if own.len() < width {
        let k = (width - own.len()) as nat;
        law_leading_zeros_do_not_count(k, own, 10);
        assert(zero_padded(n, width) =~= Seq::new(k, |i: int| '0') + own);
    }
}

} // verus!
