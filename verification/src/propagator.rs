//! The trace context of W3C: the `traceparent` and `tracestate` headers.

use http::{HeaderMap, HeaderValue};
use vstd::prelude::*;
use vstd::slice::slice_subrange;
use vstd::utf8::*;

use crate::digest::{self, digest, push_number};
use crate::self_event::{self, wall_ns};
use crate::text::{self, ascii_lower, chars_of, push_hex};

verus! {

// ---------------------------------------------------------------------------
// Headers.
// ---------------------------------------------------------------------------
/// `http::HeaderMap`, the headers of a message.
#[verifier::external_type_specification]
#[verifier::external_body]
#[verifier::reject_recursive_types(T)]
pub struct ExHeaderMap<T>(http::HeaderMap<T>);

/// `http::HeaderValue`, the value of a header.
#[verifier::external_type_specification]
#[verifier::external_body]
pub struct ExHeaderValue(http::HeaderValue);

/// The first value of each header, by the name of the header.
pub uninterp spec fn header_values(headers: HeaderMap<HeaderValue>) -> Map<Seq<char>, Seq<u8>>;

/// How many headers there are, each name counted once.
pub uninterp spec fn header_count(headers: HeaderMap<HeaderValue>) -> nat;

/// How many headers there can be before a table may refuse another.
pub const HEADER_ROOM: usize = 6553;

/// Whether a text can be the name of a header as this module writes it.
pub open spec fn is_header_name(name: Seq<char>) -> bool {
    0 < name.len() <= 65_535 && forall|i: int|
        0 <= i < name.len() ==> 'a' <= #[trigger] name[i] <= 'z'
}

/// Whether a byte can be read back as text.
pub open spec fn is_visible(b: u8) -> bool {
    32 <= b < 127 || b == 9
}

/// Whether bytes can be the value of a header.
pub open spec fn is_header_value(bytes: Seq<u8>) -> bool {
    forall|i: int|
        0 <= i < bytes.len() ==> (#[trigger] bytes[i] >= 32 && bytes[i] != 127) || bytes[i] == 9
}

/// A value as text, where it can be read as such.
pub open spec fn visible_text(bytes: Seq<u8>) -> Option<Seq<char>> {
    if forall|i: int| 0 <= i < bytes.len() ==> is_visible(#[trigger] bytes[i]) {
        Some(bytes.map_values(|b: u8| b as char))
    } else {
        None
    }
}

/// The text of a header, where there is one that can be read as such.
pub open spec fn header_text(values: Map<Seq<char>, Seq<u8>>, name: Seq<char>) -> Option<Seq<char>> {
    if values.contains_key(name) {
        visible_text(values[name])
    } else {
        None
    }
}

/// `http::HeaderMap::get` gives the first value of a header, and
/// `http::HeaderValue::to_str` reads it as text where it holds nothing but
/// tabs and visible ASCII characters.
#[verifier::external_body]
fn get_text(headers: &HeaderMap<HeaderValue>, name: &'static str) -> (r: Option<String>)
    requires
        is_header_name(name@),
    ensures
        match header_text(header_values(*headers), name@) {
            Some(t) => r matches Some(s) && s@ == t,
            None => r is None,
        },
{
    match headers.get(name) {
        Some(value) => value.to_str().ok().map(str::to_string),
        None => None,
    }
}

/// `http::HeaderMap::try_insert` gives a header one value in place of those it
/// had, unless the table is full: then it stays as it is. A table with fewer
/// headers than `HEADER_ROOM` never is. `http::HeaderValue::from_str` makes the
/// value from a text that holds no control characters but tabs, and refuses any
/// other. Says whether the header has the value now.
#[verifier::external_body]
fn put_text(headers: &mut HeaderMap<HeaderValue>, name: &'static str, value: &str) -> (taken: bool)
    requires
        is_header_name(name@),
    ensures
        header_values(*final(headers)) == (if taken {
            header_values(*old(headers)).insert(name@, encode_utf8(value@))
        } else {
            header_values(*old(headers))
        }),
        taken ==> is_header_value(encode_utf8(value@)),
        is_header_value(encode_utf8(value@)) && header_count(*old(headers)) < HEADER_ROOM ==> taken,
        header_count(*final(headers)) <= header_count(*old(headers)) + 1,
{
    match HeaderValue::from_str(value) {
        Ok(value) => headers.try_insert(name, value).is_ok(),
        Err(_) => false,
    }
}

/// `http::HeaderMap::keys_len` counts the headers, each name once.
#[verifier::external_body]
fn count_headers(headers: &HeaderMap<HeaderValue>) -> (n: usize)
    ensures
        n == header_count(*headers),
{
    headers.keys_len()
}

/// Whether there certainly is room for the headers of a trace context.
pub open spec fn roomy(headers: HeaderMap<HeaderValue>) -> bool {
    header_count(headers) + 1 < HEADER_ROOM
}

/// Whether there certainly is room for the headers of a trace context.
pub fn has_room(headers: &HeaderMap<HeaderValue>) -> (r: bool)
    ensures
        r == roomy(*headers),
{
    count_headers(headers) < HEADER_ROOM - 1
}

// ---------------------------------------------------------------------------
// The context.
// ---------------------------------------------------------------------------
/// A trace context.
#[derive(Debug, Default, PartialEq, Eq)]
pub struct ObsTraceCtx {
    /// The trace, in 32 hexadecimal digits.
    pub trace_id: String,
    /// The span, in 16 hexadecimal digits.
    pub span_id: String,
    /// The flags, in two hexadecimal digits; the lowest bit says whether the
    /// trace is sampled.
    pub flags: String,
    /// What vendors add.
    pub tracestate: String,
}

/// A trace context.
pub struct TraceCtxView {
    pub trace_id: Seq<char>,
    pub span_id: Seq<char>,
    pub flags: Seq<char>,
    pub tracestate: Seq<char>,
}

impl View for ObsTraceCtx {
    type V = TraceCtxView;

    open spec fn view(&self) -> TraceCtxView {
        TraceCtxView {
            trace_id: self.trace_id@,
            span_id: self.span_id@,
            flags: self.flags@,
            tracestate: self.tracestate@,
        }
    }
}

impl Clone for ObsTraceCtx {
    fn clone(&self) -> (r: Self)
        ensures
            r@ == self@,
    {
        ObsTraceCtx {
            trace_id: self.trace_id.clone(),
            span_id: self.span_id.clone(),
            flags: self.flags.clone(),
            tracestate: self.tracestate.clone(),
        }
    }
}

/// The number that a hexadecimal digit stands for.
pub open spec fn digit_value(c: char) -> Option<nat> {
    if '0' <= c <= '9' {
        Some((c as nat - '0' as nat) as nat)
    } else if 'a' <= c <= 'f' {
        Some((c as nat - 'a' as nat + 10) as nat)
    } else if 'A' <= c <= 'F' {
        Some((c as nat - 'A' as nat + 10) as nat)
    } else {
        None
    }
}

/// Whether a text is made of hexadecimal digits.
pub open spec fn all_hex(s: Seq<char>) -> bool {
    forall|i: int| 0 <= i < s.len() ==> digit_value(#[trigger] s[i]) is Some
}

/// Whether the lowest bit of the flags is set: the last digit is odd.
pub open spec fn sampled_flag(flags: Seq<char>) -> bool {
    flags.len() > 0 && (digit_value(flags.last()) matches Some(d) && d % 2 == 1)
}

/// The number that a hexadecimal digit stands for.
fn hex_value(c: char) -> (r: Option<u8>)
    ensures
        match digit_value(c) {
            Some(d) => r matches Some(n) && n == d && n < 16,
            None => r is None,
        },
{
    if '0' <= c && c <= '9' {
        Some(c as u8 - 48)
    } else if 'a' <= c && c <= 'f' {
        Some(c as u8 - 87)
    } else if 'A' <= c && c <= 'F' {
        Some(c as u8 - 55)
    } else {
        None
    }
}

/// Whether a text is made of hexadecimal digits.
fn is_all_hex(s: &[char]) -> (r: bool)
    ensures
        r == all_hex(s@),
{
    let mut i: usize = 0;
    while i < s.len()
        invariant
            i <= s@.len(),
            forall|k: int| 0 <= k < i ==> digit_value(#[trigger] s@[k]) is Some,
        decreases s@.len() - i,
    {
        if hex_value(s[i]).is_none() {
            assert(digit_value(s@[i as int]) is None);
            return false;
        }
        i = i + 1;
    }
    true
}

/// A text with small letters in place of ASCII capitals.
fn lower_text(s: &[char]) -> (r: String)
    ensures
        r@ == text::lowered(s@),
{
    let mut out = String::new();
    let mut i: usize = 0;
    while i < s.len()
        invariant
            i <= s@.len(),
            out@ =~= text::lowered(s@).take(i as int),
        decreases s@.len() - i,
    {
        out.push(ascii_lower(s[i]));
        i = i + 1;
    }
    assert(text::lowered(s@).take(i as int) =~= text::lowered(s@));
    out
}

/// Whether a text is a `traceparent`: version `00`, a trace, a span and flags.
pub open spec fn is_traceparent(t: Seq<char>) -> bool {
    &&& t.len() == 55
    &&& t[0] == '0'
    &&& t[1] == '0'
    &&& t[2] == '-'
    &&& all_hex(t.subrange(3, 35))
    &&& t[35] == '-'
    &&& all_hex(t.subrange(36, 52))
    &&& t[52] == '-'
    &&& all_hex(t.subrange(53, 55))
}

/// The context that headers give.
pub open spec fn extracted(values: Map<Seq<char>, Seq<u8>>) -> Option<TraceCtxView> {
    match header_text(values, "traceparent"@) {
        Some(t) => if is_traceparent(t) {
            Some(
                TraceCtxView {
                    trace_id: text::lowered(t.subrange(3, 35)),
                    span_id: text::lowered(t.subrange(36, 52)),
                    flags: text::lowered(t.subrange(53, 55)),
                    tracestate: match header_text(values, "tracestate"@) {
                        Some(s) => s,
                        None => Seq::empty(),
                    },
                },
            )
        } else {
            None
        },
        None => None,
    }
}

/// The `traceparent` of a context.
pub open spec fn traceparent_text(ctx: TraceCtxView) -> Seq<char> {
    "00-"@ + ctx.trace_id.push('-') + ctx.span_id.push('-') + ctx.flags
}

/// Headers with one more, unless its value is none that a header can have.
pub open spec fn with_header(
    values: Map<Seq<char>, Seq<u8>>,
    name: Seq<char>,
    value: Seq<char>,
) -> Map<Seq<char>, Seq<u8>> {
    if is_header_value(encode_utf8(value)) {
        values.insert(name, encode_utf8(value))
    } else {
        values
    }
}

/// The headers with those of a context.
pub open spec fn injected(
    values: Map<Seq<char>, Seq<u8>>,
    ctx: TraceCtxView,
) -> Map<Seq<char>, Seq<u8>> {
    let parent = with_header(values, "traceparent"@, traceparent_text(ctx));
    if ctx.tracestate.len() > 0 {
        with_header(parent, "tracestate"@, ctx.tracestate)
    } else {
        parent
    }
}

proof fn lemma_names()
    ensures
        is_header_name("traceparent"@),
        is_header_name("tracestate"@),
        "traceparent"@ != "tracestate"@,
{
    reveal_strlit("traceparent");
    reveal_strlit("tracestate");
    assert("traceparent"@.len() != "tracestate"@.len());
}

/// The context that headers give, unless there is no `traceparent` or it
/// cannot be read. Hexadecimal digits are handed on in small letters.
#[must_use]
pub fn extract_w3c(headers: &HeaderMap<HeaderValue>) -> (r: Option<ObsTraceCtx>)
    ensures
        match extracted(header_values(*headers)) {
            Some(c) => r matches Some(ctx) && ctx@ == c,
            None => r is None,
        },
{
    proof {
        lemma_names();
    }
    let raw = match get_text(headers, "traceparent") {
        Some(s) => s,
        None => return None,
    };
    let chars = chars_of(raw.as_str());
    let t = chars.as_slice();
    if t.len() != 55 {
        return None;
    }
    if t[0] != '0' || t[1] != '0' || t[2] != '-' || t[35] != '-' || t[52] != '-' {
        return None;
    }
    let trace = slice_subrange(t, 3, 35);
    let span = slice_subrange(t, 36, 52);
    let flags = slice_subrange(t, 53, 55);
    if !is_all_hex(trace) || !is_all_hex(span) || !is_all_hex(flags) {
        return None;
    }
    let tracestate = match get_text(headers, "tracestate") {
        Some(s) => s,
        None => String::new(),
    };
    Some(
        ObsTraceCtx {
            trace_id: lower_text(trace),
            span_id: lower_text(span),
            flags: lower_text(flags),
            tracestate,
        },
    )
}

/// The headers with those of a context for which the table has room.
pub open spec fn injected_in_part(
    values: Map<Seq<char>, Seq<u8>>,
    ctx: TraceCtxView,
    parent: bool,
    state: bool,
) -> Map<Seq<char>, Seq<u8>> {
    let first = if parent {
        with_header(values, "traceparent"@, traceparent_text(ctx))
    } else {
        values
    };
    if state && ctx.tracestate.len() > 0 {
        with_header(first, "tracestate"@, ctx.tracestate)
    } else {
        first
    }
}

/// Adds the headers of a context. What no header can hold is left out, and so
/// is what a full table refuses.
pub fn inject_w3c(headers: &mut HeaderMap<HeaderValue>, ctx: &ObsTraceCtx)
    ensures
        roomy(*old(headers)) ==> header_values(*final(headers)) == injected(
            header_values(*old(headers)),
            ctx@,
        ),
        exists|parent: bool, state: bool|
            header_values(*final(headers)) == #[trigger] injected_in_part(
                header_values(*old(headers)),
                ctx@,
                parent,
                state,
            ),
{
    proof {
        lemma_names();
    }
    let ghost values = header_values(*headers);
    let mut value = String::new();
    value.append("00-");
    value.append(ctx.trace_id.as_str());
    value.push('-');
    value.append(ctx.span_id.as_str());
    value.push('-');
    value.append(ctx.flags.as_str());
    assert(value@ =~= traceparent_text(ctx@));
    let parent = put_text(headers, "traceparent", value.as_str());
    let mut state = false;
    if !ctx.tracestate.as_str().is_empty() {
        state = put_text(headers, "tracestate", ctx.tracestate.as_str());
    }
    assert(header_values(*headers) == injected_in_part(values, ctx@, parent, state));
}

/// Whether a text holds nothing but tabs and visible ASCII characters.
pub open spec fn is_plain(s: Seq<char>) -> bool {
    forall|i: int| 0 <= i < s.len() ==> #[trigger] s[i] == '\t' || ' ' <= s[i] <= '~'
}

/// A plain text is a header's value, and is read back as it was.
proof fn lemma_plain(s: Seq<char>)
    requires
        is_plain(s),
    ensures
        is_header_value(encode_utf8(s)),
        visible_text(encode_utf8(s)) == Some(s),
{
    let bytes = encode_utf8(s);
    assert forall|i: int| 0 <= i < s.len() implies '\0' <= #[trigger] s[i] <= '\u{7f}' by {
        assert(s[i] == '\t' || ' ' <= s[i] <= '~');
    }
    is_ascii_chars_encode_utf8(s);
    assert forall|i: int| 0 <= i < bytes.len() implies is_visible(#[trigger] bytes[i]) by {
        assert(s[i] == '\t' || ' ' <= s[i] <= '~');
    }
    assert(bytes.map_values(|b: u8| b as char) =~= s);
}

/// What was injected is extracted again: the trace, the span and the flags,
/// in small letters, and what vendors added. Where vendors added nothing,
/// what stood there before is still there.
pub proof fn law_injected_is_extracted(values: Map<Seq<char>, Seq<u8>>, ctx: TraceCtxView)
    requires
        ctx.trace_id.len() == 32,
        all_hex(ctx.trace_id),
        ctx.span_id.len() == 16,
        all_hex(ctx.span_id),
        ctx.flags.len() == 2,
        all_hex(ctx.flags),
        is_plain(ctx.tracestate),
    ensures
        extracted(injected(values, ctx)) == Some(
            TraceCtxView {
                trace_id: text::lowered(ctx.trace_id),
                span_id: text::lowered(ctx.span_id),
                flags: text::lowered(ctx.flags),
                tracestate: if ctx.tracestate.len() > 0 {
                    ctx.tracestate
                } else {
                    match header_text(values, "tracestate"@) {
                        Some(s) => s,
                        None => Seq::empty(),
                    }
                },
            },
        ),
{
    lemma_names();
    reveal_strlit("00-");
    let t = traceparent_text(ctx);
    assert(t.subrange(3, 35) =~= ctx.trace_id);
    assert(t.subrange(36, 52) =~= ctx.span_id);
    assert(t.subrange(53, 55) =~= ctx.flags);
    assert forall|i: int| 0 <= i < t.len() implies #[trigger] t[i] == '\t' || ' ' <= t[i] <= '~' by {
        if 3 <= i < 35 {
            assert(digit_value(ctx.trace_id[i - 3]) is Some);
            assert(t[i] == ctx.trace_id[i - 3]);
        } else if 36 <= i < 52 {
            assert(digit_value(ctx.span_id[i - 36]) is Some);
            assert(t[i] == ctx.span_id[i - 36]);
        } else if 53 <= i < 55 {
            assert(digit_value(ctx.flags[i - 53]) is Some);
            assert(t[i] == ctx.flags[i - 53]);
        }
    }
    lemma_plain(t);
    lemma_plain(ctx.tracestate);
}

/// A context in small letters is extracted as it was injected, unless
/// something of vendors stood in the headers before.
pub proof fn law_small_letters_come_back(values: Map<Seq<char>, Seq<u8>>, ctx: TraceCtxView)
    requires
        ctx.trace_id.len() == 32,
        all_hex(ctx.trace_id),
        text::lowered(ctx.trace_id) == ctx.trace_id,
        ctx.span_id.len() == 16,
        all_hex(ctx.span_id),
        text::lowered(ctx.span_id) == ctx.span_id,
        ctx.flags.len() == 2,
        all_hex(ctx.flags),
        text::lowered(ctx.flags) == ctx.flags,
        is_plain(ctx.tracestate),
        ctx.tracestate.len() > 0 || !values.contains_key("tracestate"@),
    ensures
        extracted(injected(values, ctx)) == Some(ctx),
{
    law_injected_is_extracted(values, ctx);
    if ctx.tracestate.len() == 0 {
        assert(ctx.tracestate =~= Seq::empty());
    }
}

// ---------------------------------------------------------------------------
// Fresh identifiers.
// ---------------------------------------------------------------------------
/// Bytes in lower-case hexadecimal.
pub open spec fn hex_text(bytes: Seq<u8>) -> Seq<char>
    decreases bytes.len(),
{
    if bytes.len() == 0 {
        Seq::empty()
    } else {
        hex_text(bytes.drop_last()) + text::hex_digits(bytes.last() as nat, 2)
    }
}

/// Whether a text is made of lower-case hexadecimal digits.
pub open spec fn is_lower_hex(s: Seq<char>) -> bool {
    all_hex(s) && text::lowered(s) == s
}

/// Hexadecimal text has two digits for each byte.
proof fn lemma_hex_text(bytes: Seq<u8>)
    ensures
        hex_text(bytes).len() == 2 * bytes.len(),
        is_lower_hex(hex_text(bytes)),
    decreases bytes.len(),
{
    if bytes.len() > 0 {
        lemma_hex_text(bytes.drop_last());
        let front = hex_text(bytes.drop_last());
        let n = bytes.last() as nat;
        let tail = text::hex_digits(n, 2);
        reveal_with_fuel(text::hex_digits, 3);
        let a = text::digit(n / 16 % 16);
        let b = text::digit(n % 16);
        assert(tail =~= seq![a, b]);
        assert(digit_value(a) is Some && text::lower(a) == a);
        assert(digit_value(b) is Some && text::lower(b) == b);
        let s = front + tail;
        assert forall|i: int| 0 <= i < s.len() implies digit_value(#[trigger] s[i]) is Some
            && text::lower(s[i]) == s[i] by {
            if i < front.len() {
                assert(s[i] == front[i]);
                assert(text::lowered(front)[i] == front[i]);
            } else {
                assert(s[i] == tail[i - front.len()]);
            }
        }
        assert(text::lowered(s) =~= s);
    } else {
        assert(text::lowered(hex_text(bytes)) =~= hex_text(bytes));
    }
}

/// The identifier that a seed gives: the first `n` bytes of its hash.
pub open spec fn id_text(seed: Seq<u8>, n: int) -> Seq<char> {
    hex_text(digest::blake3_digest(seed).take(n))
}

/// The identifier that a seed gives: the first `n` bytes of its hash, in
/// lower-case hexadecimal.
pub fn id_from_seed(seed: &[u8], n: usize) -> (r: String)
    requires
        n <= 32,
    ensures
        r@ == id_text(seed@, n as int),
        r@.len() == 2 * n,
        is_lower_hex(r@),
{
    let hash = digest(seed);
    let mut out = String::new();
    let mut i: usize = 0;
    proof {
        assert(hash@.take(0) =~= Seq::<u8>::empty());
    }
    while i < n
        invariant
            i <= n <= 32,
            out@ == hex_text(hash@.take(i as int)),
        decreases n - i,
    {
        push_hex(&mut out, hash[i] as u64, 2);
        proof {
            assert(hash@.take(i + 1).drop_last() =~= hash@.take(i as int));
        }
        i = i + 1;
    }
    proof {
        lemma_hex_text(hash@.take(n as int));
    }
    out
}

/// The bytes that stand in for random numbers: a counter and the time.
pub open spec fn fallback_bytes(counter: u64, now: u64) -> Seq<u8> {
    digest::number_bytes(counter as nat, 8) + digest::number_bytes(now as nat, 8)
}

/// The seed where the system has no random numbers: the hash of a counter and
/// the time, over and over.
pub open spec fn fallback_seed(counter: u64, now: u64, n: nat) -> Seq<u8> {
    let hash = digest::blake3_digest(fallback_bytes(counter, now));
    Seq::new(n, |i: int| hash[i % 32])
}

/// Seeds without random numbers are made from different bytes where they
/// differ in the counter, though the clock reads the same, and where they
/// differ in the time.
pub proof fn law_counter_tells_seeds_apart(counter: u64, now: u64, other: u64, later: u64)
    requires
        counter != other || now != later,
    ensures
        fallback_bytes(counter, now) != fallback_bytes(other, later),
{
    let a = fallback_bytes(counter, now);
    let b = fallback_bytes(other, later);
    digest::lemma_number_bytes_len(counter as nat, 8);
    digest::lemma_number_bytes_len(other as nat, 8);
    if a == b {
        assert(digest::number_bytes(counter as nat, 8) =~= a.take(8));
        assert(digest::number_bytes(now as nat, 8) =~= a.skip(8));
        assert(digest::number_bytes(other as nat, 8) =~= b.take(8));
        assert(digest::number_bytes(later as nat, 8) =~= b.skip(8));
        digest::law_eight_bytes_give_the_number(counter);
        digest::law_eight_bytes_give_the_number(other);
        digest::law_eight_bytes_give_the_number(now);
        digest::law_eight_bytes_give_the_number(later);
    }
}

/// A seed of `n` bytes: random ones, or where there are none those that a
/// counter and the time give.
pub open spec fn seed_of(random: Option<Vec<u8>>, counter: u64, now: u64, n: nat) -> Seq<u8> {
    match random {
        Some(b) => b@,
        None => fallback_seed(counter, now, n),
    }
}

/// A seed of `n` bytes: random ones, or where there are none those that a
/// counter and the time give.
pub fn fill_random(random: Option<Vec<u8>>, counter: u64, now: u64, n: usize) -> (r: Vec<u8>)
    requires
        random matches Some(b) ==> b@.len() == n,
    ensures
        r@ == seed_of(random, counter, now, n as nat),
        r@.len() == n,
{
    if let Some(bytes) = random {
        return bytes;
    }
    let mut input: Vec<u8> = Vec::new();
    push_number(&mut input, counter, 8);
    push_number(&mut input, now, 8);
    proof {
        assert(input@ =~= fallback_bytes(counter, now));
    }
    let hash = digest(input.as_slice());
    let mut out: Vec<u8> = Vec::new();
    let mut i: usize = 0;
    while i < n
        invariant
            i <= n,
            hash@ == digest::blake3_digest(fallback_bytes(counter, now)),
            out@ =~= fallback_seed(counter, now, n as nat).take(i as int),
        decreases n - i,
    {
        out.push(hash[i % 32]);
        i = i + 1;
    }
    assert(out@ =~= fallback_seed(counter, now, n as nat));
    out
}

/// `getrandom::fill` gives random bytes from the system, or fails. Which bytes
/// is left to chance.
#[verifier::external_body]
fn os_random(n: usize) -> (r: Option<Vec<u8>>)
    ensures
        r matches Some(b) ==> b@.len() == n,
{
    let mut buf = vec![0u8; n];
    match getrandom::fill(&mut buf) {
        Ok(()) => Some(buf),
        Err(_) => None,
    }
}

/// Counts the seeds that were made without random numbers, so that two of them
/// differ though the clock reads the same. A process has one.
#[derive(Debug)]
pub struct IdCounter {
    next: u64,
}

impl View for IdCounter {
    type V = u64;

    closed spec fn view(&self) -> u64 {
        self.next
    }
}

/// What follows a number of the counter, which begins again after the last.
pub open spec fn counted_on(n: u64) -> u64 {
    if n == u64::MAX {
        0
    } else {
        (n + 1) as u64
    }
}

impl IdCounter {
    /// A counter that has counted nothing.
    pub fn new() -> (r: Self)
        ensures
            r@ == 0,
    {
        IdCounter { next: 0 }
    }

    /// The next number.
    fn next_counter(&mut self) -> (n: u64)
        ensures
            n == old(self)@,
            final(self)@ == counted_on(old(self)@),
    {
        let n: u64 = self.next;
        self.next = n.wrapping_add(1);
        n
    }
}

/// Whether a seed of `n` bytes is what the system gave by chance, or where it
/// gave nothing what a counter and a look at the clock give. The counter goes
/// from `before` to `after`: it moves on only where it is used.
pub closed spec fn is_fresh_seed(seed: Seq<u8>, n: usize, before: u64, after: u64) -> bool {
    ||| exists|bytes: Vec<u8>|
        {
            &&& #[trigger] call_ensures(os_random, (n,), Some(bytes))
            &&& seed == bytes@
            &&& after == before
        }
    ||| exists|now: u64|
        {
            &&& call_ensures(os_random, (n,), None)
            &&& self_event::is_wall_time(now)
            &&& seed == #[trigger] fallback_seed(before, now, n as nat)
            &&& after == counted_on(before)
        }
}

/// Whether a text is a trace from a fresh seed, for which the counter goes from
/// `before` to `after`.
pub open spec fn is_fresh_trace(s: Seq<char>, before: u64, after: u64) -> bool {
    exists|seed: Seq<u8>|
        {
            &&& seed.len() == 32
            &&& is_fresh_seed(seed, 32, before, after)
            &&& s == #[trigger] id_text(seed, 16)
        }
}

/// Whether a text is a span from a fresh seed, for which the counter goes from
/// `before` to `after`.
pub open spec fn is_fresh_span(s: Seq<char>, before: u64, after: u64) -> bool {
    exists|seed: Seq<u8>|
        {
            &&& seed.len() == 16
            &&& is_fresh_seed(seed, 16, before, after)
            &&& s == #[trigger] id_text(seed, 8)
        }
}

/// A fresh seed of `n` bytes.
fn fresh_seed(counter: &mut IdCounter, n: usize) -> (r: Vec<u8>)
    ensures
        r@.len() == n,
        is_fresh_seed(r@, n, old(counter)@, final(counter)@),
{
    match os_random(n) {
        Some(bytes) => bytes,
        None => {
            let count: u64 = counter.next_counter();
            let now: u64 = wall_ns();
            let r = fill_random(None, count, now, n);
            assert(r@ == fallback_seed(count, now, n as nat));
            r
        },
    }
}

/// A fresh trace: 32 lower-case hexadecimal digits. Where the system has no
/// random numbers the counter and the time stand in for them.
#[must_use]
pub fn fresh_trace_id(counter: &mut IdCounter) -> (r: String)
    ensures
        is_fresh_trace(r@, old(counter)@, final(counter)@),
        r@.len() == 32,
        is_lower_hex(r@),
{
    let seed = fresh_seed(counter, 32);
    id_from_seed(seed.as_slice(), 16)
}

/// A fresh span: 16 lower-case hexadecimal digits. Where the system has no
/// random numbers the counter and the time stand in for them.
#[must_use]
pub fn fresh_span_id(counter: &mut IdCounter) -> (r: String)
    ensures
        is_fresh_span(r@, old(counter)@, final(counter)@),
        r@.len() == 16,
        is_lower_hex(r@),
{
    let seed = fresh_seed(counter, 16);
    id_from_seed(seed.as_slice(), 8)
}

impl ObsTraceCtx {
    /// Whether the trace is sampled.
    #[must_use]
    pub fn sampled(&self) -> (r: bool)
        ensures
            r == sampled_flag(self@.flags),
    {
        let flags = chars_of(self.flags.as_str());
        let n: usize = flags.len();
        if n == 0 {
            return false;
        }
        match hex_value(flags[n - 1]) {
            Some(d) => d % 2 == 1,
            None => false,
        }
    }

    /// The context of a new trace.
    #[must_use]
    pub fn fresh(counter: &mut IdCounter, sampled: bool) -> (r: Self)
        ensures
            exists|between: u64|
                {
                    &&& #[trigger] is_fresh_trace(r@.trace_id, old(counter)@, between)
                    &&& is_fresh_span(r@.span_id, between, final(counter)@)
                },
            r@.trace_id.len() == 32,
            is_lower_hex(r@.trace_id),
            r@.span_id.len() == 16,
            is_lower_hex(r@.span_id),
            r@.flags == (if sampled {
                "01"@
            } else {
                "00"@
            }),
            r@.tracestate == Seq::<char>::empty(),
    {
        let trace_id = fresh_trace_id(counter);
        let ghost between = counter@;
        let span_id = fresh_span_id(counter);
        let r = ObsTraceCtx {
            trace_id,
            span_id,
            flags: if sampled {
                "01".to_string()
            } else {
                "00".to_string()
            },
            tracestate: String::new(),
        };
        assert(is_fresh_trace(r@.trace_id, old(counter)@, between));
        r
    }

    /// The context of a child: the same trace with a new span.
    #[must_use]
    pub fn child_of(&self, counter: &mut IdCounter) -> (r: Self)
        ensures
            r@ == (TraceCtxView { span_id: r@.span_id, ..self@ }),
            is_fresh_span(r@.span_id, old(counter)@, final(counter)@),
            r@.span_id.len() == 16,
            is_lower_hex(r@.span_id),
    {
        ObsTraceCtx {
            trace_id: self.trace_id.clone(),
            span_id: fresh_span_id(counter),
            flags: self.flags.clone(),
            tracestate: self.tracestate.clone(),
        }
    }
}

/// Reads and writes the headers of W3C.
#[derive(Debug, Clone, Copy, PartialEq, Eq, Structural, Default)]
pub struct W3cPropagator;

impl W3cPropagator {
    /// A propagator.
    #[must_use]
    pub fn new() -> (r: Self)
        ensures
            r == W3cPropagator,
    {
        W3cPropagator
    }

    /// The context that headers give.
    #[must_use]
    pub fn extract(&self, headers: &HeaderMap<HeaderValue>) -> (r: Option<ObsTraceCtx>)
        ensures
            match extracted(header_values(*headers)) {
                Some(c) => r matches Some(ctx) && ctx@ == c,
                None => r is None,
            },
    {
        extract_w3c(headers)
    }

    /// Adds the headers of a context.
    pub fn inject(&self, headers: &mut HeaderMap<HeaderValue>, ctx: &ObsTraceCtx)
        ensures
            roomy(*old(headers)) ==> header_values(*final(headers)) == injected(
                header_values(*old(headers)),
                ctx@,
            ),
            exists|parent: bool, state: bool|
                header_values(*final(headers)) == #[trigger] injected_in_part(
                    header_values(*old(headers)),
                    ctx@,
                    parent,
                    state,
                ),
    {
        inject_w3c(headers, ctx);
    }
}

/// The class of an HTTP status: `1xx` to `5xx`, or `err`.
pub open spec fn class_of(status: u16) -> Seq<char> {
    if 100 <= status < 200 {
        "1xx"@
    } else if 200 <= status < 300 {
        "2xx"@
    } else if 300 <= status < 400 {
        "3xx"@
    } else if 400 <= status < 500 {
        "4xx"@
    } else if 500 <= status < 600 {
        "5xx"@
    } else {
        "err"@
    }
}

/// The class of an HTTP status.
#[must_use]
pub fn status_class(status: u16) -> (r: &'static str)
    ensures
        r@ == class_of(status),
{
    match status {
        100..=199 => "1xx",
        200..=299 => "2xx",
        300..=399 => "3xx",
        400..=499 => "4xx",
        500..=599 => "5xx",
        _ => "err",
    }
}

// ---------------------------------------------------------------------------
// What headers and identifiers say.
// ---------------------------------------------------------------------------
/// The sixteen digits have their values, in small letters and in capitals; no
/// other character has one.
pub proof fn law_digits_have_their_values(d: nat, c: char)
    ensures
        d < 16 ==> digit_value(text::digit(d)) == Some(d),
        10 <= d < 16 ==> digit_value((text::digit(d) as nat - 32) as char) == Some(d),
        digit_value(c) is Some ==> '0' <= c <= '9' || 'a' <= c <= 'f' || 'A' <= c <= 'F',
{
}

/// A trace is sampled where the last digit of its flags is odd, whatever the
/// others are.
pub proof fn law_an_odd_flag_is_sampled(front: Seq<char>, d: nat)
    requires
        d < 16,
    ensures
        sampled_flag(front.push(text::digit(d))) <==> d % 2 == 1,
        !sampled_flag(Seq::empty()),
{
    law_digits_have_their_values(d, '0');
    assert(front.push(text::digit(d)).last() == text::digit(d));
}

/// A `traceparent` is read by its parts: two digits of version, 32 of the
/// trace, 16 of the span and two of flags, with a hyphen between them. No other
/// version and no other length is.
pub proof fn law_a_traceparent_has_four_parts(
    version: Seq<char>,
    trace: Seq<char>,
    span: Seq<char>,
    flags: Seq<char>,
)
    requires
        version.len() == 2,
        trace.len() == 32,
        span.len() == 16,
        flags.len() == 2,
    ensures
        is_traceparent(version + "-"@ + trace + "-"@ + span + "-"@ + flags) <==> version == "00"@
            && all_hex(trace) && all_hex(span) && all_hex(flags),
{
    reveal_strlit("-");
    reveal_strlit("00");
    let t = version + "-"@ + trace + "-"@ + span + "-"@ + flags;
    assert(t.subrange(3, 35) =~= trace);
    assert(t.subrange(36, 52) =~= span);
    assert(t.subrange(53, 55) =~= flags);
    assert(t[0] == version[0] && t[1] == version[1]);
    if t[0] == '0' && t[1] == '0' {
        assert(version =~= "00"@);
    }
}

/// Without a `traceparent` that can be read there is no context, whatever else
/// the headers say. A context has no state where none is said.
pub proof fn law_no_context_without_a_traceparent(values: Map<Seq<char>, Seq<u8>>)
    ensures
        !values.contains_key("traceparent"@) ==> extracted(values) is None,
        header_text(values, "traceparent"@) matches Some(t) ==> (extracted(values) is Some
            <==> is_traceparent(t)),
        header_text(values, "traceparent"@) is None ==> extracted(values) is None,
        extracted(values) matches Some(c) ==> (header_text(values, "tracestate"@) matches Some(s)
            ==> c.tracestate == s),
        extracted(values) matches Some(c) ==> (header_text(values, "tracestate"@) is None
            ==> c.tracestate.len() == 0),
{
}

/// What a context adds to headers are its own two; every other one stays, and
/// so does a `tracestate` where the context has none.
pub proof fn law_other_headers_stay(
    values: Map<Seq<char>, Seq<u8>>,
    ctx: TraceCtxView,
    name: Seq<char>,
)
    requires
        name != "traceparent"@,
        name != "tracestate"@ || ctx.tracestate.len() == 0,
    ensures
        injected(values, ctx).contains_key(name) == values.contains_key(name),
        injected(values, ctx)[name] == values[name],
{
}

/// A header can be read as text exactly where each byte is visible, a space or
/// a tab, and then it reads byte for byte.
pub proof fn law_visible_bytes_are_read(bytes: Seq<u8>, i: int)
    requires
        0 <= i < bytes.len(),
    ensures
        bytes[i] == 127 || bytes[i] >= 128 || (bytes[i] < 32 && bytes[i] != 9) ==> visible_text(
            bytes,
        ) is None,
        visible_text(bytes) matches Some(t) ==> t.len() == bytes.len() && t[i] as nat
            == bytes[i] as nat,
        (forall|j: int|
            0 <= j < bytes.len() ==> 32 <= #[trigger] bytes[j] < 127 || bytes[j] == 9)
            ==> visible_text(bytes) is Some,
{
    if forall|j: int| 0 <= j < bytes.len() ==> 32 <= #[trigger] bytes[j] < 127 || bytes[j] == 9 {
        assert forall|j: int| 0 <= j < bytes.len() implies is_visible(#[trigger] bytes[j]) by {}
    }
}

/// Each byte is spelled by two digits at its place.
pub proof fn law_bytes_are_spelled_in_order(bytes: Seq<u8>, i: int)
    requires
        0 <= i < bytes.len(),
    ensures
        hex_text(bytes).len() == 2 * bytes.len(),
        hex_text(bytes)[2 * i] == text::digit((bytes[i] / 16) as nat),
        hex_text(bytes)[2 * i + 1] == text::digit((bytes[i] % 16) as nat),
    decreases bytes.len(),
{
    let rest = bytes.drop_last();
    lemma_hex_text(bytes);
    lemma_hex_text(rest);
    let last = text::hex_digits(bytes.last() as nat, 2);
    reveal_with_fuel(text::hex_digits, 3);
    assert(last =~= seq![
        text::digit((bytes.last() / 16) as nat),
        text::digit((bytes.last() % 16) as nat),
    ]);
    if i < bytes.len() - 1 {
        law_bytes_are_spelled_in_order(rest, i);
        assert(rest[i] == bytes[i]);
    }
}

/// Random bytes are the seed where there are some. Without any it has as many
/// bytes as are asked for, which come again after 32.
pub proof fn law_random_bytes_go_first(
    random: Vec<u8>,
    counter: u64,
    now: u64,
    n: nat,
    i: int,
)
    requires
        0 <= i < n,
    ensures
        seed_of(Some(random), counter, now, n) == random@,
        seed_of(None, counter, now, n).len() == n,
        i < 32 ==> seed_of(None, counter, now, n)[i] == digest::blake3_digest(
            fallback_bytes(counter, now),
        )[i],
        i + 32 < n ==> seed_of(None, counter, now, n)[i + 32] == seed_of(None, counter, now, n)[i],
{
    if i + 32 < n {
        assert((i + 32) % 32 == i % 32);
    }
}

/// The counter goes up by one and begins again after its last number.
pub proof fn law_the_counter_goes_up(n: u64)
    ensures
        n < u64::MAX ==> counted_on(n) == n + 1,
        counted_on(u64::MAX) == 0,
{
}

/// A status from 100 to 599 is of the class of its hundreds; any other is of
/// none.
pub proof fn law_the_hundreds_give_the_class(hundreds: nat, rest: nat, status: u16)
    requires
        rest < 100,
        status == hundreds * 100 + rest,
    ensures
        1 <= hundreds <= 5 ==> class_of(status) == seq![text::digit(hundreds)] + "xx"@,
        !(1 <= hundreds <= 5) ==> class_of(status) == "err"@,
{
    reveal_strlit("1xx");
    reveal_strlit("2xx");
    reveal_strlit("3xx");
    reveal_strlit("4xx");
    reveal_strlit("5xx");
    reveal_strlit("xx");
    if 1 <= hundreds <= 5 {
        assert(class_of(status) =~= seq![text::digit(hundreds)] + "xx"@);
    }
}

/// An identifier is the front of the hash of its seed, two small hexadecimal
/// digits for each byte.
pub proof fn law_identifiers_spell_the_front_of_a_hash(seed: Seq<u8>, n: int, i: int)
    requires
        0 <= i < n <= digest::blake3_digest(seed).len(),
    ensures
        id_text(seed, n).len() == 2 * n,
        is_lower_hex(id_text(seed, n)),
        id_text(seed, n)[2 * i] == text::digit((digest::blake3_digest(seed)[i] / 16) as nat),
        id_text(seed, n)[2 * i + 1] == text::digit((digest::blake3_digest(seed)[i] % 16) as nat),
{
    let front = digest::blake3_digest(seed).take(n);
    lemma_hex_text(front);
    law_bytes_are_spelled_in_order(front, i);
}

/// A fresh trace is named by 16 bytes of the hash of 32 fresh ones, and a fresh
/// span by 8 of 16.
pub proof fn law_fresh_identifiers_have_their_lengths(
    trace: Seq<char>,
    span: Seq<char>,
    before: u64,
    after: u64,
)
    requires
        is_fresh_trace(trace, before, after),
        is_fresh_span(span, before, after),
    ensures
        exists|seed: Seq<u8>| seed.len() == 32 && trace == #[trigger] id_text(seed, 16),
        exists|seed: Seq<u8>| seed.len() == 16 && span == #[trigger] id_text(seed, 8),
        after == before || after == counted_on(before),
{
}

/// Headers for which there is room are set, and the others stay as they were.
pub proof fn law_headers_are_set_where_there_is_room(
    values: Map<Seq<char>, Seq<u8>>,
    ctx: TraceCtxView,
)
    ensures
        injected_in_part(values, ctx, true, true) == injected(values, ctx),
        injected_in_part(values, ctx, false, false) == values,
        injected_in_part(values, ctx, false, true).dom().contains("traceparent"@)
            == values.contains_key("traceparent"@),
        ctx.tracestate.len() == 0 ==> injected_in_part(values, ctx, false, true) == values,
{
    lemma_names();
}

/// A value is set as a header exactly where each of its bytes may stand in one:
/// none below the space but the tab, and not the delete character.
pub proof fn law_only_proper_values_become_headers(
    values: Map<Seq<char>, Seq<u8>>,
    name: Seq<char>,
    value: Seq<char>,
    i: int,
)
    requires
        0 <= i < encode_utf8(value).len(),
    ensures
        encode_utf8(value)[i] == 127 || (encode_utf8(value)[i] < 32 && encode_utf8(value)[i] != 9)
            ==> with_header(values, name, value) == values,
        (forall|j: int|
            0 <= j < encode_utf8(value).len() ==> #[trigger] encode_utf8(value)[j] >= 32
                && encode_utf8(value)[j] != 127) ==> with_header(values, name, value)
            == values.insert(name, encode_utf8(value)),
{
}

} // verus!
