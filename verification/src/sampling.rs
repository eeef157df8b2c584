//! The head sampler: which events are kept.
//!
//! What an upstream caller decided goes first, then the severity floor, then
//! the rate of the event or the general one.

use vstd::arithmetic::power2::*;
use vstd::prelude::*;

use crate::config::SamplingConfig;
use crate::self_event::{self, look_at_clock, truncated_ns};
use crate::types::Severity;

verus! {

/// A rate, held as the bits of an IEEE 754 double, with the number as it is
/// shown to a person.
#[derive(Debug)]
pub struct Rate {
    /// The bits of the double.
    pub bits: u64,
    /// The double as it is written out.
    pub text: String,
}

impl Clone for Rate {
    fn clone(&self) -> (r: Self)
        ensures
            r == *self,
    {
        Rate { bits: self.bits, text: self.text.clone() }
    }
}

/// What stands between two neighbouring values of the exponent.
pub const EXPONENT_UNIT: u64 = 0x10_0000_0000_0000;

/// The bit of the sign.
pub const SIGN: u64 = 0x8000_0000_0000_0000;

/// The bits of one.
pub const ONE_BITS: u64 = 0x3FF0_0000_0000_0000;

impl Rate {
    /// The rate whose double has these bits and is written out as `text`.
    pub fn new(bits: u64, text: String) -> (r: Self)
        ensures
            r.bits == bits,
            r.text@ == text@,
    {
        Rate { bits, text }
    }

    /// The rate one.
    pub fn one() -> (r: Self)
        ensures
            r.bits == ONE_BITS,
            r.text@ == "1"@,
    {
        Rate { bits: ONE_BITS, text: "1".to_string() }
    }

    /// Whether the sign is negative.
    pub open spec fn negative(self) -> bool {
        self.bits >= SIGN
    }

    /// The biased exponent.
    pub open spec fn exponent(self) -> nat {
        (self.bits as nat) / (EXPONENT_UNIT as nat) % 2048
    }

    /// The fraction.
    pub open spec fn fraction(self) -> nat {
        (self.bits as nat) % (EXPONENT_UNIT as nat)
    }

    /// Whether this is no number.
    pub open spec fn is_nan(self) -> bool {
        self.exponent() == 2047 && self.fraction() != 0
    }

    /// Whether this is zero, of either sign.
    pub open spec fn is_zero(self) -> bool {
        self.exponent() == 0 && self.fraction() == 0
    }

    /// Whether the rate is one or more.
    pub open spec fn at_least_one(self) -> bool {
        !self.negative() && !self.is_nan() && self.exponent() >= 1023
    }

    /// Whether the rate is zero or less.
    pub open spec fn at_most_zero(self) -> bool {
        self.is_zero() || (self.negative() && !self.is_nan())
    }

    /// Whether the rate lies between zero and one.
    pub open spec fn in_unit_range(self) -> bool {
        self.is_zero() || (!self.negative() && (self.exponent() < 1023 || self.bits == ONE_BITS))
    }

    /// The significand of a finite rate: the rate is this times two to the
    /// power `scale() - 1075`.
    pub open spec fn significand(self) -> nat {
        if self.exponent() == 0 {
            self.fraction()
        } else {
            self.fraction() + EXPONENT_UNIT as nat
        }
    }

    /// The exponent that belongs to the significand.
    pub open spec fn scale(self) -> nat {
        if self.exponent() == 0 {
            1
        } else {
            self.exponent()
        }
    }

    /// Whether `top / 2^53` is below a rate strictly between zero and one.
    pub open spec fn exceeds(self, top: nat) -> bool {
        top * pow2((1022 - self.scale()) as nat) < self.significand()
    }

    fn raw_exponent(&self) -> (r: u64)
        ensures
            r == self.exponent(),
    {
        self.bits / EXPONENT_UNIT % 2048
    }

    fn raw_fraction(&self) -> (r: u64)
        ensures
            r == self.fraction(),
    {
        self.bits % EXPONENT_UNIT
    }

    /// Whether the rate is one or more.
    pub fn is_at_least_one(&self) -> (r: bool)
        ensures
            r == self.at_least_one(),
    {
        let e: u64 = self.raw_exponent();
        self.bits < SIGN && e >= 1023 && !(e == 2047 && self.raw_fraction() != 0)
    }

    /// Whether the rate is zero or less.
    pub fn is_at_most_zero(&self) -> (r: bool)
        ensures
            r == self.at_most_zero(),
    {
        let e: u64 = self.raw_exponent();
        let f: u64 = self.raw_fraction();
        (e == 0 && f == 0) || (self.bits >= SIGN && !(e == 2047 && f != 0))
    }

    /// Whether the rate lies between zero and one.
    pub fn is_in_unit_range(&self) -> (r: bool)
        ensures
            r == self.in_unit_range(),
    {
        let e: u64 = self.raw_exponent();
        (e == 0 && self.raw_fraction() == 0) || (self.bits < SIGN && (e < 1023 || self.bits
            == ONE_BITS))
    }

    /// Whether `top / 2^53` is below the rate.
    fn is_above(&self, top: u64) -> (r: bool)
        requires
            self.exponent() < 1023,
            !self.is_zero(),
            top < 0x20_0000_0000_0000,
        ensures
            r == self.exceeds(top as nat),
    {
        let e: u64 = self.raw_exponent();
        let (significand, scale) = if e == 0 {
            (self.raw_fraction(), 1u64)
        } else {
            (self.raw_fraction() + EXPONENT_UNIT, e)
        };
        let shift: u64 = 1022 - scale;
        let mut power: u128 = 1;
        let mut i: u64 = 0;
        proof {
            lemma2_to64();
            lemma2_to64_rest();
        }
        if top == 0 {
            proof {
                assert(0 * pow2(shift as nat) == 0);
            }
            return significand > 0;
        }
        if shift > 53 {
            proof {
                lemma_pow2_strictly_increases(53, shift as nat);
                assert(top as nat * pow2(shift as nat) >= pow2(shift as nat)) by (nonlinear_arith)
                    requires
                        top >= 1,
                        pow2(shift as nat) > 0,
                ;
            }
            return false;
        }
        while i < shift
            invariant
                i <= shift <= 53,
                power == pow2(i as nat),
                power <= 0x20_0000_0000_0000,
            decreases shift - i,
        {
            proof {
                lemma_pow2_unfold((i + 1) as nat);
                lemma2_to64_rest();
                if i + 1 < 53 {
                    lemma_pow2_strictly_increases((i + 1) as nat, 53);
                }
            }
            power = power * 2;
            i = i + 1;
        }
        proof {
            assert(top as nat * power as nat <= 0x20_0000_0000_0000 * 0x20_0000_0000_0000)
                by (nonlinear_arith)
                requires
                    top <= 0x20_0000_0000_0000,
                    power <= 0x20_0000_0000_0000,
            ;
        }
        (top as u128) * power < significand as u128
    }
}

/// What became of an event at the sampler.
#[derive(Debug, Clone, Copy, PartialEq, Eq, Structural)]
pub enum SamplingDecision {
    /// It is dropped.
    Drop,
    /// It is kept.
    Keep,
    /// An upstream caller decided.
    ParentSet {
        /// Whether that caller keeps it.
        sampled: bool,
    },
}

/// One step of the 64-bit xorshift generator.
pub open spec fn xorshift(x: u64) -> u64 {
    let a = x ^ (x << 13u64);
    let b = a ^ (a >> 7u64);
    b ^ (b << 17u64)
}

/// The generator never falls to zero, where it would stay.
pub proof fn law_generator_stays_alive(x: u64)
    requires
        x != 0,
    ensures
        xorshift(x) != 0,
{
    let a = x ^ (x << 13u64);
    let b = a ^ (a >> 7u64);
    let c = b ^ (b << 17u64);
    assert(a == 0 ==> x == 0) by (bit_vector)
        requires
            a == x ^ (x << 13u64),
    ;
    assert(b == 0 ==> a == 0) by (bit_vector)
        requires
            b == a ^ (a >> 7u64),
    ;
    assert(c == 0 ==> b == 0) by (bit_vector)
        requires
            c == b ^ (b << 17u64),
    ;
}

/// The seed where the clock stands before 1970.
pub const DEFAULT_SEED: u64 = 0x9E37_79B9_7F4A_7C15;

/// The seed from the nanoseconds since 1970: the lowest 64 bits of them.
pub open spec fn clock_seed(nanos: Option<u128>) -> u64 {
    match nanos {
        Some(_) => self_event::truncated(nanos),
        None => DEFAULT_SEED,
    }
}

/// The seed from the nanoseconds since 1970: the lowest 64 bits of them.
pub fn seed_from(nanos: Option<u128>) -> (r: u64)
    ensures
        r == clock_seed(nanos),
{
    match nanos {
        Some(_) => truncated_ns(nanos),
        None => DEFAULT_SEED,
    }
}

/// The generator that the sampler draws from.
#[derive(Debug)]
pub struct Draws {
    state: u64,
}

impl View for Draws {
    type V = u64;

    closed spec fn view(&self) -> u64 {
        self.state
    }
}

impl Draws {
    #[verifier::type_invariant]
    spec fn alive(self) -> bool {
        self.state != 0
    }

    /// A generator from a seed, whose lowest bit is set.
    pub fn new(seed: u64) -> (r: Self)
        ensures
            r@ == seed | 1,
    {
        proof {
            assert(seed | 1 != 0) by (bit_vector);
        }
        Draws { state: seed | 1 }
    }

    /// A generator from what the clock says.
    pub fn seeded() -> (r: Self)
        ensures
            exists|n: Option<u128>| #[trigger] self_event::clock_reads(n) && r@ == clock_seed(n) | 1,
    {
        Draws::new(seed_from(look_at_clock()))
    }

    /// The top 53 bits of the next state.
    fn draw(&mut self) -> (top: u64)
        ensures
            final(self)@ == xorshift(old(self)@),
            top == xorshift(old(self)@) >> 11u64,
            top < 0x20_0000_0000_0000,
    {
        proof {
            use_type_invariant(&*self);
            law_generator_stays_alive(self.state);
        }
        let x: u64 = self.state;
        let a: u64 = x ^ (x << 13u64);
        let b: u64 = a ^ (a >> 7u64);
        let c: u64 = b ^ (b << 17u64);
        self.state = c;
        assert(c >> 11u64 < 0x20_0000_0000_0000) by (bit_vector);
        c >> 11u64
    }
}

/// The rate of an event.
pub open spec fn rate_of(cfg: SamplingConfig, full_name: Seq<char>) -> Rate {
    if cfg.per_event@.contains_key(full_name) {
        cfg.per_event@[full_name]
    } else {
        cfg.default_rate
    }
}

/// What is decided without a draw, if anything.
pub open spec fn decided(
    cfg: SamplingConfig,
    full_name: Seq<char>,
    severity: Severity,
    inbound: Option<bool>,
) -> Option<SamplingDecision> {
    if cfg.honour_traceparent_sampled && inbound is Some {
        Some(SamplingDecision::ParentSet { sampled: inbound->Some_0 })
    } else if severity.rank() >= cfg.always_log_at_or_above.rank() {
        Some(SamplingDecision::Keep)
    } else if rate_of(cfg, full_name).at_least_one() {
        Some(SamplingDecision::Keep)
    } else if rate_of(cfg, full_name).at_most_zero() {
        Some(SamplingDecision::Drop)
    } else {
        None
    }
}

/// What a draw decides: an event is kept where `top / 2^53` is below its rate.
/// Nothing is below a rate that is no number.
pub open spec fn drawn(rate: Rate, top: nat) -> SamplingDecision {
    if !rate.is_nan() && rate.exceeds(top) {
        SamplingDecision::Keep
    } else {
        SamplingDecision::Drop
    }
}

/// What the sampler decides on an event, and the state of the generator after
/// that.
pub open spec fn decision(
    cfg: SamplingConfig,
    full_name: Seq<char>,
    severity: Severity,
    inbound: Option<bool>,
    draws: u64,
) -> (SamplingDecision, u64) {
    match decided(cfg, full_name, severity, inbound) {
        Some(d) => (d, draws),
        None => (drawn(rate_of(cfg, full_name), (xorshift(draws) >> 11u64) as nat), xorshift(draws)),
    }
}

/// Decides on an event. The generator moves on only where the rate leaves the
/// decision to a draw.
#[must_use]
pub fn decide(
    cfg: &SamplingConfig,
    full_name: &str,
    severity: Severity,
    inbound_sampled: Option<bool>,
    draws: &mut Draws,
) -> (r: SamplingDecision)
    ensures
        match decided(*cfg, full_name@, severity, inbound_sampled) {
            Some(d) => r == d && final(draws)@ == old(draws)@,
            None => {
                &&& r == drawn(rate_of(*cfg, full_name@), (xorshift(old(draws)@) >> 11u64) as nat)
                &&& final(draws)@ == xorshift(old(draws)@)
            },
        },
        (r, final(draws)@) == decision(
            *cfg,
            full_name@,
            severity,
            inbound_sampled,
            old(draws)@,
        ),
{
    if cfg.honour_traceparent_sampled {
        if let Some(sampled) = inbound_sampled {
            return SamplingDecision::ParentSet { sampled };
        }
    }
    if severity.at_least(cfg.always_log_at_or_above) {
        return SamplingDecision::Keep;
    }
    let rate = match cfg.per_event.get(full_name) {
        Some(rate) => rate,
        None => &cfg.default_rate,
    };
    if rate.is_at_least_one() {
        return SamplingDecision::Keep;
    }
    if rate.is_at_most_zero() {
        return SamplingDecision::Drop;
    }
    let top: u64 = draws.draw();
    if rate.raw_exponent() >= 1023 {
        return SamplingDecision::Drop;
    }
    if rate.is_above(top) {
        SamplingDecision::Keep
    } else {
        SamplingDecision::Drop
    }
}

// ---------------------------------------------------------------------------
// Laws.
// ---------------------------------------------------------------------------
/// A double between zero and one, by its bits alone: the eleven bits of the
/// exponent and the 52 of the fraction.
pub open spec fn is_between_zero_and_one(bits: u64) -> bool {
    0 < bits < 0x3FF0_0000_0000_0000
}

/// The value of a double between zero and one, in units of two to the power
/// -1074: the fraction, with the leading bit where there is an exponent,
/// moved up by the exponent.
pub open spec fn value_of_bits(bits: u64) -> nat {
    let exponent = bits as nat / 0x10_0000_0000_0000;
    let fraction = bits as nat % 0x10_0000_0000_0000;
    if exponent == 0 {
        fraction
    } else {
        (fraction + 0x10_0000_0000_0000) * pow2((exponent - 1) as nat)
    }
}

/// With nothing decided before the draw, an event is kept if and only if the
/// draw is below its rate: `top / 2^53 < rate`, whatever the exponent of the
/// rate is. Otherwise it is dropped.
pub proof fn law_kept_where_the_draw_is_below_the_rate(rate: Rate, top: nat)
    requires
        is_between_zero_and_one(rate.bits),
        top < 0x20_0000_0000_0000,
    ensures
        drawn(rate, top) == (if top * pow2(1021) < value_of_bits(rate.bits) {
            SamplingDecision::Keep
        } else {
            SamplingDecision::Drop
        }),
{
    let e = rate.bits as nat / 0x10_0000_0000_0000;
    assert(e <= 1022);
    assert(e % 2048 == e);
    assert(rate.exponent() == e);
    let s = rate.scale();
    let m = rate.significand();
    let low = pow2((1022 - s) as nat);
    let high = pow2((s - 1) as nat);
    lemma_pow2_adds((1022 - s) as nat, (s - 1) as nat);
    lemma_pow2_pos((s - 1) as nat);
    lemma2_to64();
    assert(value_of_bits(rate.bits) == m * high) by {
        if e == 0 {
            assert(high == 1);
            assert(m * high == m) by (nonlinear_arith)
                requires
                    high == 1,
            ;
        }
    }
    assert(top * (low * high) < m * high <==> top * low < m) by (nonlinear_arith)
        requires
            high > 0,
    ;
}

/// The value of a double between zero and one grows with its bits.
proof fn lemma_value_grows(a: u64, b: u64)
    requires
        a <= b < 0x3FF0_0000_0000_0000,
    ensures
        value_of_bits(a) <= value_of_bits(b),
{
    let unit: nat = 0x10_0000_0000_0000;
    let ea = a as nat / unit;
    let fa = a as nat % unit;
    let eb = b as nat / unit;
    let fb = b as nat % unit;
    assert(ea <= eb && (ea == eb ==> fa <= fb)) by (nonlinear_arith)
        requires
            a as nat == ea * unit + fa,
            b as nat == eb * unit + fb,
            fa < unit,
            fb < unit,
            a <= b,
            unit > 0,
    ;
    lemma2_to64();
    if ea == eb {
        if ea > 0 {
            let p = pow2((ea - 1) as nat);
            assert((fa + unit) * p <= (fb + unit) * p) by (nonlinear_arith)
                requires
                    fa <= fb,
            ;
        }
    } else if ea == 0 {
        let p = pow2((eb - 1) as nat);
        lemma_pow2_pos((eb - 1) as nat);
        assert(fa <= (fb + unit) * p) by (nonlinear_arith)
            requires
                fa < unit,
                p >= 1,
        ;
    } else {
        let p = pow2((ea - 1) as nat);
        let q = pow2((eb - 1) as nat);
        lemma_pow2_unfold(ea);
        if eb > ea + 1 {
            lemma_pow2_strictly_increases(ea, (eb - 1) as nat);
        }
        lemma_pow2_pos((ea - 1) as nat);
        assert(2 * p <= q);
        assert((fa + unit) * p <= (fb + unit) * q) by (nonlinear_arith)
            requires
                fa < unit,
                2 * p <= q,
                p >= 0,
        ;
    }
}

/// The lowest draw is kept under every rate above zero, and what is kept under
/// a rate is kept under every higher one for the same draw.
pub proof fn law_higher_rates_keep_more(rate: Rate, higher: Rate, top: nat)
    requires
        is_between_zero_and_one(rate.bits),
        is_between_zero_and_one(higher.bits),
        rate.bits <= higher.bits,
        top < 0x20_0000_0000_0000,
    ensures
        drawn(rate, 0) == SamplingDecision::Keep,
        drawn(rate, top) == SamplingDecision::Keep ==> drawn(higher, top) == SamplingDecision::Keep,
        drawn(higher, top) == SamplingDecision::Drop ==> drawn(rate, top) == SamplingDecision::Drop,
{
    law_kept_where_the_draw_is_below_the_rate(rate, 0);
    law_kept_where_the_draw_is_below_the_rate(rate, top);
    law_kept_where_the_draw_is_below_the_rate(higher, top);
    lemma_value_grows(rate.bits, higher.bits);
    lemma_value_grows(1, rate.bits);
    assert(value_of_bits(1) == 1);
}

/// Of the two to the power 53 draws, a rate of one over two to the power `k`
/// keeps exactly the lowest two to the power `53 - k`: the share that the rate
/// names.
pub proof fn law_a_rate_is_the_share_that_is_kept(rate: Rate, k: nat, top: nat)
    requires
        1 <= k <= 53,
        rate.bits as nat == (1023 - k) * 0x10_0000_0000_0000,
        top < 0x20_0000_0000_0000,
    ensures
        drawn(rate, top) == SamplingDecision::Keep <==> top < pow2((53 - k) as nat),
{
    law_kept_where_the_draw_is_below_the_rate(rate, top);
    let e = (1023 - k) as nat;
    assert(rate.bits as nat / 0x10_0000_0000_0000 == e && rate.bits as nat % 0x10_0000_0000_0000
        == 0);
    lemma2_to64_rest();
    lemma_pow2_adds(52, (e - 1) as nat);
    assert(0x10_0000_0000_0000 * pow2((e - 1) as nat) == pow2((1074 - k) as nat));
    lemma_pow2_adds((53 - k) as nat, 1021);
    lemma_pow2_pos(1021);
    let share = pow2((53 - k) as nat);
    let p = pow2(1021);
    assert(top * p < share * p <==> top < share) by (nonlinear_arith)
        requires
            p > 0,
    ;
}

/// What an upstream caller decided goes before everything else where it
/// counts; then the severity keeps what is severe enough, whatever the rate;
/// neither moves the generator.
pub proof fn law_upstream_and_severity_go_before_the_rate(
    cfg: SamplingConfig,
    full_name: Seq<char>,
    severity: Severity,
    inbound: Option<bool>,
    draws: u64,
)
    ensures
        ({
            let (d, next) = decision(cfg, full_name, severity, inbound, draws);
            let heard = cfg.honour_traceparent_sampled && inbound is Some;
            &&& cfg.honour_traceparent_sampled && inbound == Some(true) ==> d
                == (SamplingDecision::ParentSet { sampled: true }) && next == draws
            &&& cfg.honour_traceparent_sampled && inbound == Some(false) ==> d
                == (SamplingDecision::ParentSet { sampled: false }) && next == draws
            &&& !heard ==> !(d is ParentSet)
            &&& !heard && (severity == cfg.always_log_at_or_above || severity == Severity::Fatal
                || (severity == Severity::Error && cfg.always_log_at_or_above != Severity::Fatal))
                ==> d == SamplingDecision::Keep && next == draws
        }),
{
}

/// Where neither an upstream caller nor the severity decides, the rate of the
/// event does, and the general rate where it has none of its own: one or more
/// keeps it, zero or less drops it, and anything between leaves it to the next
/// draw.
pub proof fn law_the_rate_decides_the_rest(
    cfg: SamplingConfig,
    full_name: Seq<char>,
    severity: Severity,
    inbound: Option<bool>,
    draws: u64,
    rate: Rate,
)
    requires
        !cfg.honour_traceparent_sampled || inbound is None,
        severity.rank() < cfg.always_log_at_or_above.rank(),
        cfg.per_event@.contains_key(full_name) ==> rate == cfg.per_event@[full_name],
        !cfg.per_event@.contains_key(full_name) ==> rate == cfg.default_rate,
    ensures
        ({
            let (d, next) = decision(cfg, full_name, severity, inbound, draws);
            let top = (xorshift(draws) >> 11u64) as nat;
            // From one to infinity.
            &&& 0x3FF0_0000_0000_0000 <= rate.bits <= 0x7FF0_0000_0000_0000 ==> d
                == SamplingDecision::Keep && next == draws
            // Zero, and from minus zero to minus infinity.
            &&& rate.bits == 0 || 0x8000_0000_0000_0000 <= rate.bits <= 0xFFF0_0000_0000_0000 ==> d
                == SamplingDecision::Drop && next == draws
            &&& is_between_zero_and_one(rate.bits) ==> next == xorshift(draws) && d == (if top
                * pow2(1021) < value_of_bits(rate.bits) {
                SamplingDecision::Keep
            } else {
                SamplingDecision::Drop
            })
            // What is no number keeps nothing.
            &&& 0x7FF0_0000_0000_0000 < rate.bits < 0x8000_0000_0000_0000 || rate.bits
                > 0xFFF0_0000_0000_0000 ==> d == SamplingDecision::Drop
        }),
{
    let x = xorshift(draws);
    assert(x >> 11u64 < 0x20_0000_0000_0000) by (bit_vector);
    if is_between_zero_and_one(rate.bits) {
        law_kept_where_the_draw_is_below_the_rate(rate, (x >> 11u64) as nat);
        assert(rate.exponent() < 1023);
    }
}

/// Each draw takes the generator one step of xorshift with the shifts 13, 7
/// and 17: no two states are taken to the same one, so that none of the states
/// other than zero is lost.
pub proof fn law_generator_loses_no_state(x: u64, y: u64)
    requires
        xorshift(x) == xorshift(y),
    ensures
        x == y,
{
    let a = x ^ (x << 13u64);
    let b = a ^ (a >> 7u64);
    let c = y ^ (y << 13u64);
    let d = b ^ (b << 17u64);
    let e = c ^ (c >> 7u64);
    let f = e ^ (e << 17u64);
    assert(d == f ==> b == e) by (bit_vector)
        requires
            d == b ^ (b << 17u64),
            f == e ^ (e << 17u64),
    ;
    assert(b == e ==> a == c) by (bit_vector)
        requires
            b == a ^ (a >> 7u64),
            e == c ^ (c >> 7u64),
    ;
    assert(a == c ==> x == y) by (bit_vector)
        requires
            a == x ^ (x << 13u64),
            c == y ^ (y << 13u64),
    ;
}

/// A rate is in range if and only if it is a number from zero to one.
pub proof fn law_range_is_from_zero_to_one(rate: Rate)
    ensures
        rate.in_unit_range() <==> rate.bits <= 0x3FF0_0000_0000_0000 || rate.bits
            == 0x8000_0000_0000_0000,
{
}

/// The generator moves on by multiplying by two to the power of 13, dividing by
/// two to the power of 7 and multiplying by two to the power of 17, within 64
/// bits, and flips bits with each.
pub proof fn law_the_generator_flips_bits_three_times(x: u64, a: u64, b: u64, p: u64, q: u64)
    requires
        p == (x * 8_192) % 0x1_0000_0000_0000_0000,
        a == x ^ p,
        b == a ^ (a / 128),
        q == (b * 131_072) % 0x1_0000_0000_0000_0000,
    ensures
        xorshift(x) == b ^ q,
{
    assert(p == x << 13u64) by (bit_vector)
        requires
            p == (x * 8_192) % 0x1_0000_0000_0000_0000,
    ;
    assert(a / 128 == a >> 7u64) by (bit_vector);
    assert(q == b << 17u64) by (bit_vector)
        requires
            q == (b * 131_072) % 0x1_0000_0000_0000_0000,
    ;
}

/// A generator begins with what the clock says, and with a number of its own
/// where it says nothing.
pub proof fn law_the_clock_seeds_the_generator(n: u64)
    ensures
        clock_seed(Some(n as u128)) == n,
        clock_seed(None) == 0x9E37_79B9_7F4A_7C15,
{
}

} // verus!
