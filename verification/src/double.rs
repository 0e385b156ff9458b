//! Double-precision numbers, held by their bit patterns.
//!
//! The library stores, compares and converts such numbers but does no arithmetic on them. Whoever
//! computes with them converts at the border, bit for bit.
use vstd::arithmetic::div_mod::{
    lemma_div_denominator, lemma_div_multiples_vanish, lemma_fundamental_div_mod,
    lemma_fundamental_div_mod_converse,
};
use vstd::arithmetic::power2::{
    lemma2_to64, lemma2_to64_rest, lemma_pow2_adds, lemma_pow2_pos, lemma_pow2_strictly_increases,
    lemma_pow2_unfold, pow2,
};
use vstd::prelude::*;

verus! {

/// The weight of one step of the exponent field: the fraction field has fifty-two bits.
pub const EXPONENT_STEP: u64 = 0x10_0000_0000_0000;

/// The sign bit.
pub const SIGN_BIT: u64 = 0x8000_0000_0000_0000;

/// The pattern of positive infinity. Larger patterns without a sign are not numbers.
pub const INFINITY_BITS: u64 = 0x7ff0_0000_0000_0000;

/// The smallest integer from which on not every integer is a double.
pub const EXACT_LIMIT: u64 = 0x20_0000_0000_0000;

/// A double-precision number, held by its IEEE 754 bit pattern.
///
/// The derived `==` compares patterns; [`Double::equals`] compares numbers.
#[derive(Clone, Copy, Debug, PartialEq, Eq, Structural)]
pub struct Double {
    pub bits: u64,
}

/// The magnitude that a pattern without its sign bit stands for, in units of `2^-1074`, the
/// smallest positive double. Infinity counts as the power of two after the largest finite double.
pub open spec fn magnitude(pattern: nat) -> nat {
    let exponent = pattern / (EXPONENT_STEP as nat);
    let fraction = pattern % (EXPONENT_STEP as nat);
    if exponent == 0 {
        fraction
    } else {
        (fraction + EXPONENT_STEP as nat) * pow2((exponent - 1) as nat)
    }
}

/// How many low bits of `n` do not fit into a double's significand.
pub open spec fn excess_bits(n: nat) -> nat
    decreases n,
{
    if n < EXACT_LIMIT {
        0
    } else {
        1 + excess_bits(n / 2)
    }
}

/// The integer that the double nearest to `n` stands for; of two equally near ones, the one whose
/// significand is even.
pub open spec fn nearest_double(n: nat) -> nat {
    let unit = pow2(excess_bits(n));
    let below = n / unit;
    let rest = n % unit;
    if 2 * rest > unit || (2 * rest == unit && below % 2 == 1) {
        (below + 1) * unit
    } else {
        below * unit
    }
}

impl Double {
    /// The pattern without its sign bit.
    pub open spec fn pattern(self) -> nat {
        self.bits as nat % (SIGN_BIT as nat)
    }

    pub open spec fn is_negative(self) -> bool {
        self.bits >= SIGN_BIT
    }

    /// Whether this is not a number.
    pub open spec fn nan(self) -> bool {
        self.pattern() > INFINITY_BITS
    }

    /// The number in units of `2^-1074`. Both zeros are `0`.
    pub open spec fn value(self) -> int {
        if self.is_negative() {
            -(magnitude(self.pattern()) as int)
        } else {
            magnitude(self.pattern()) as int
        }
    }

    /// `self < other` as numbers; false where either is not a number.
    pub open spec fn lt(self, other: Double) -> bool {
        !self.nan() && !other.nan() && self.value() < other.value()
    }

    /// `self <= other` as numbers; false where either is not a number.
    pub open spec fn le(self, other: Double) -> bool {
        !self.nan() && !other.nan() && self.value() <= other.value()
    }

    /// `self == other` as numbers; false where either is not a number.
    pub open spec fn eqv(self, other: Double) -> bool {
        !self.nan() && !other.nan() && self.value() == other.value()
    }

    /// Whether this double is exactly the integer `n`.
    pub open spec fn is_integer(self, n: int) -> bool {
        !self.nan() && self.value() == n * pow2(1074)
    }

    /// What a saturating truncation to an unsigned 64-bit integer gives.
    pub open spec fn truncated(self) -> int {
        if self.nan() || self.value() < 0 {
            0
        } else {
            let whole = self.value() / (pow2(1074) as int);
            if whole > u64::MAX {
                u64::MAX as int
            } else {
                whole
            }
        }
    }

    /// The double with this bit pattern.
    pub fn from_bits(bits: u64) -> (res: Double)
        ensures
            res.bits == bits,
    {
        Double { bits }
    }

    /// The bit pattern of this double.
    pub fn to_bits(self) -> (bits: u64)
        ensures
            bits == self.bits,
    {
        self.bits
    }

    fn split(self) -> (res: (bool, u64))
        ensures
            res.0 == self.is_negative(),
            res.1 == self.pattern(),
    {
        if self.bits >= SIGN_BIT {
            (true, self.bits - SIGN_BIT)
        } else {
            (false, self.bits)
        }
    }

    /// `self < other` as numbers.
    pub fn less_than(self, other: Double) -> (res: bool)
        ensures
            res == self.lt(other),
    {
        let (self_negative, self_pattern) = self.split();
        let (other_negative, other_pattern) = other.split();
        proof {
            lemma_magnitude_order(self_pattern as nat, other_pattern as nat);
            lemma_magnitude_zero(self_pattern as nat);
            lemma_magnitude_zero(other_pattern as nat);
        }
        if self_pattern > INFINITY_BITS || other_pattern > INFINITY_BITS {
            false
        } else if self_negative {
            if other_negative {
                other_pattern < self_pattern
            } else {
                self_pattern != 0 || other_pattern != 0
            }
        } else {
            !other_negative && self_pattern < other_pattern
        }
    }

    /// `self <= other` as numbers.
    pub fn at_most(self, other: Double) -> (res: bool)
        ensures
            res == self.le(other),
    {
        self.less_than(other) || self.equals(other)
    }

    /// `self == other` as numbers.
    pub fn equals(self, other: Double) -> (res: bool)
        ensures
            res == self.eqv(other),
    {
        let (self_negative, self_pattern) = self.split();
        let (other_negative, other_pattern) = other.split();
        proof {
            lemma_magnitude_order(self_pattern as nat, other_pattern as nat);
            lemma_magnitude_zero(self_pattern as nat);
            lemma_magnitude_zero(other_pattern as nat);
        }
        if self_pattern > INFINITY_BITS || other_pattern > INFINITY_BITS {
            false
        } else {
            self_pattern == other_pattern && (self_negative == other_negative || self_pattern == 0)
        }
    }

    /// The double nearest to `n`, as the conversion of an unsigned integer gives it.
    pub fn from_u64(n: u64) -> (res: Double)
        ensures
            res.is_integer(nearest_double(n as nat) as int),
            !res.is_negative(),
            !res.nan(),
            res.value() == nearest_double(n as nat) * pow2(1074),
    {
        if n < EXACT_LIMIT {
            Self::from_small(n)
        } else {
            Self::from_large(n)
        }
    }

    /// The double that is exactly `x`.
    pub fn from_i32(x: i32) -> (res: Double)
        ensures
            res.is_integer(x as int),
            res.is_negative() <==> x < 0,
            !res.nan(),
            res.value() == x * pow2(1074),
    {
        if x < 0 {
            let size: u64 = (-(x as i64)) as u64;
            let positive = Self::from_small(size);
            proof {
                lemma_exact(size as nat);
                assert(-(size * pow2(1074)) == x * pow2(1074)) by (nonlinear_arith)
                    requires
                        size == -x,
                ;
            }
            Double { bits: positive.bits + SIGN_BIT }
        } else {
            proof {
                lemma_exact(x as nat);
            }
            Self::from_small(x as u64)
        }
    }

    /// An integer small enough for the significand: scale it up until the leading bit is in
    /// place.
    fn from_small(n: u64) -> (res: Double)
        requires
            n < EXACT_LIMIT,
        ensures
            res.is_integer(nearest_double(n as nat) as int),
            !res.is_negative(),
    {
        proof {
            lemma_exact(n as nat);
        }
        if n == 0 {
            return Double { bits: 0 };
        }
        let mut significand: u64 = n;
        let mut shift: u64 = 0;
        proof {
            lemma2_to64();
        }
        while significand < EXPONENT_STEP
            invariant
                0 < n <= significand < EXACT_LIMIT,
                significand == n * pow2(shift as nat),
                shift <= 52,
            decreases EXACT_LIMIT - significand,
        {
            proof {
                lemma_pow2_unfold((shift + 1) as nat);
                assert(significand * 2 == n * (2 * pow2(shift as nat))) by (nonlinear_arith)
                    requires
                        significand == n * pow2(shift as nat),
                ;
                assert(pow2(shift as nat) <= significand) by (nonlinear_arith)
                    requires
                        significand == n * pow2(shift as nat),
                        n > 0,
                ;
                if shift >= 52 {
                    lemma2_to64_rest();
                    assert(pow2(52) == 0x10_0000_0000_0000);
                }
            }
            significand = significand * 2;
            shift = shift + 1;
        }
        proof {
            let low = (1074 - shift) as nat;
            lemma_magnitude_of(low, significand as nat);
            lemma_pow2_adds(shift as nat, low);
            assert(significand * pow2(low) == n * pow2(1074)) by (nonlinear_arith)
                requires
                    significand == n * pow2(shift as nat),
                    pow2(1074) == pow2(shift as nat) * pow2(low),
            ;
        }
        Double { bits: (1074 - shift) * EXPONENT_STEP + significand }
    }

    /// An integer with more bits than the significand has: drop the low ones and round.
    fn from_large(n: u64) -> (res: Double)
        requires
            n >= EXACT_LIMIT,
        ensures
            res.is_integer(nearest_double(n as nat) as int),
            !res.is_negative(),
    {
        let mut significand: u64 = n;
        let mut excess: u64 = 0;
        let mut unit: u64 = 1;
        proof {
            lemma2_to64();
            assert(n as int / 1 == n);
        }
        while significand >= EXACT_LIMIT
            invariant
                n >= EXACT_LIMIT,
                unit == pow2(excess as nat),
                0 < unit <= 2048,
                excess <= 11,
                significand == n as int / unit as int,
                significand >= EXPONENT_STEP,
                excess_bits(n as nat) == excess + excess_bits(significand as nat),
            decreases significand,
        {
            proof {
                lemma_fundamental_div_mod(n as int, unit as int);
                assert(unit < 2048) by (nonlinear_arith)
                    requires
                        n == unit * significand + n as int % unit as int,
                        n as int % unit as int >= 0,
                        significand >= 0x20_0000_0000_0000,
                ;
                lemma2_to64();
                if excess >= 11 {
                    assert(pow2(11) == 2048);
                }
                lemma_pow2_unfold((excess + 1) as nat);
                lemma_div_denominator(n as int, unit as int, 2);
            }
            significand = significand / 2;
            unit = unit * 2;
            excess = excess + 1;
        }
        proof {
            lemma_fundamental_div_mod(n as int, unit as int);
            assert(significand * unit == unit * significand) by (nonlinear_arith);
        }
        let rest: u64 = n - significand * unit;
        let rounded: u64 = if 2 * rest > unit || (2 * rest == unit && significand % 2 == 1) {
            significand + 1
        } else {
            significand
        };
        proof {
            let low = (excess + 1074) as nat;
            lemma_magnitude_of(low, rounded as nat);
            lemma_pow2_adds(excess as nat, 1074);
            assert(nearest_double(n as nat) == rounded * unit);
            assert(rounded * pow2(low) == (rounded * unit) * pow2(1074)) by (nonlinear_arith)
                requires
                    pow2(low) == unit * pow2(1074),
            ;
        }
        Double { bits: (excess + 1074) * EXPONENT_STEP + rounded }
    }

    /// The integer part of this double, saturating at the bounds of the type and zero for what is
    /// not a number.
    pub fn to_u64(self) -> (res: u64)
        ensures
            res == self.truncated(),
    {
        let (negative, pattern) = self.split();
        proof {
            lemma_magnitude_zero(pattern as nat);
            lemma_pow2_pos(1074);
        }
        if negative || pattern > INFINITY_BITS {
            proof {
                assert(0int / (pow2(1074) as int) == 0) by {
                    lemma_fundamental_div_mod_converse(0, pow2(1074) as int, 0, 0);
                }
            }
            return 0;
        }
        let exponent: u64 = pattern / EXPONENT_STEP;
        if exponent < 1023 {
            proof {
                // Below one: the pattern of one has exponent 1023 and no fraction.
                lemma_magnitude_less(pattern as nat, 1023 * EXPONENT_STEP as nat);
                lemma_magnitude_of(1022, EXPONENT_STEP as nat);
                lemma_pow2_adds(52, 1022);
                lemma2_to64_rest();
                lemma_fundamental_div_mod_converse(self.value(), pow2(1074) as int, 0, self.value());
            }
            return 0;
        }
        let significand: u64 = pattern % EXPONENT_STEP + EXPONENT_STEP;
        assert(self.value() == significand * pow2((exponent - 1) as nat));
        if exponent >= 1087 {
            proof {
                let high = (exponent - 1075) as nat;
                lemma_pow2_adds(high, 1074);
                let whole = significand * pow2(high);
                assert(self.value() == whole * pow2(1074)) by (nonlinear_arith)
                    requires
                        self.value() == significand * pow2((exponent - 1) as nat),
                        pow2((exponent - 1) as nat) == pow2(high) * pow2(1074),
                        whole == significand * pow2(high),
                ;
                lemma_div_multiples_vanish(whole, pow2(1074) as int);
                assert(pow2(1074) * whole == whole * pow2(1074)) by (nonlinear_arith);
                lemma2_to64();
                if high > 12 {
                    lemma_pow2_strictly_increases(12, high);
                }
                assert(whole >= 0x1_0000_0000_0000_0000) by (nonlinear_arith)
                    requires
                        whole == significand * pow2(high),
                        significand >= 0x10_0000_0000_0000,
                        pow2(high) >= 4096,
                ;
            }
            return u64::MAX;
        }
        if exponent >= 1075 {
            let high: u64 = exponent - 1075;
            proof {
                lemma_pow2_adds(high as nat, 1074);
                let whole = significand * pow2(high as nat);
                assert(self.value() == whole * pow2(1074)) by (nonlinear_arith)
                    requires
                        self.value() == significand * pow2((exponent - 1) as nat),
                        pow2((exponent - 1) as nat) == pow2(high as nat) * pow2(1074),
                        whole == significand * pow2(high as nat),
                ;
                lemma_div_multiples_vanish(whole, pow2(1074) as int);
                assert(pow2(1074) * whole == whole * pow2(1074)) by (nonlinear_arith);
                lemma2_to64();
                if high < 11 {
                    lemma_pow2_strictly_increases(high as nat, 11);
                }
                assert(whole <= u64::MAX) by (nonlinear_arith)
                    requires
                        whole == significand * pow2(high as nat),
                        0 <= significand < 0x20_0000_0000_0000,
                        pow2(high as nat) <= 2048,
                ;
            }
            times_pow2(significand, high)
        } else {
            let low: u64 = 1075 - exponent;
            proof {
                let scale = pow2((exponent - 1) as nat);
                lemma_pow2_pos((exponent - 1) as nat);
                lemma_pow2_pos(low as nat);
                lemma_pow2_adds((exponent - 1) as nat, low as nat);
                assert(self.value() == scale * significand) by (nonlinear_arith)
                    requires
                        self.value() == significand * scale,
                ;
                assert(scale * significand >= 0) by (nonlinear_arith);
                lemma_div_denominator(self.value(), scale as int, pow2(low as nat) as int);
                lemma_div_multiples_vanish(significand as int, scale as int);
            }
            over_pow2(significand, low)
        }
    }
}

fn times_pow2(x: u64, k: u64) -> (res: u64)
    requires
        x * pow2(k as nat) <= u64::MAX,
    ensures
        res == x * pow2(k as nat),
{
    let mut res: u64 = x;
    let mut done: u64 = 0;
    proof {
        lemma2_to64();
    }
    while done < k
        invariant
            done <= k,
            res == x * pow2(done as nat),
            x * pow2(k as nat) <= u64::MAX,
        decreases k - done,
    {
        proof {
            lemma_pow2_unfold((done + 1) as nat);
            if done + 1 < k {
                lemma_pow2_strictly_increases((done + 1) as nat, k as nat);
            }
            assert(x * pow2((done + 1) as nat) <= x * pow2(k as nat)) by (nonlinear_arith)
                requires
                    pow2((done + 1) as nat) <= pow2(k as nat),
            ;
            assert(res * 2 == x * pow2((done + 1) as nat)) by (nonlinear_arith)
                requires
                    res == x * pow2(done as nat),
                    pow2((done + 1) as nat) == 2 * pow2(done as nat),
            ;
        }
        res = res * 2;
        done = done + 1;
    }
    res
}

fn over_pow2(x: u64, k: u64) -> (res: u64)
    ensures
        res == x as int / pow2(k as nat) as int,
{
    let mut res: u64 = x;
    let mut done: u64 = 0;
    proof {
        lemma2_to64();
    }
    while done < k
        invariant
            done <= k,
            res == x as int / pow2(done as nat) as int,
        decreases k - done,
    {
        proof {
            lemma_pow2_pos(done as nat);
            lemma_pow2_unfold((done + 1) as nat);
            lemma_div_denominator(x as int, pow2(done as nat) as int, 2);
        }
        res = res / 2;
        done = done + 1;
    }
    res
}

/// An integer below the limit is a double.
pub proof fn lemma_exact(n: nat)
    requires
        n < EXACT_LIMIT,
    ensures
        nearest_double(n) == n,
{
    lemma2_to64();
    assert(pow2(0) == 1);
    assert(n / 1 == n && n % 1 == 0);
    assert(n * pow2(0) == n) by (nonlinear_arith)
        requires
            pow2(0) == 1,
    ;
}

/// A significand with its leading bit in place, or just carried over, above the exponent `low`.
proof fn lemma_magnitude_of(low: nat, significand: nat)
    requires
        EXPONENT_STEP <= significand <= EXACT_LIMIT,
    ensures
        magnitude(low * (EXPONENT_STEP as nat) + significand) == significand * pow2(low),
{
    let step = EXPONENT_STEP as nat;
    let pattern = low * step + significand;
    if significand < EXACT_LIMIT {
        assert(pattern / step == low + 1 && pattern % step == significand - step) by {
            lemma_fundamental_div_mod_converse(
                pattern as int,
                step as int,
                (low + 1) as int,
                significand - step,
            );
        }
    } else {
        assert(pattern / step == low + 2 && pattern % step == 0) by {
            lemma_fundamental_div_mod_converse(pattern as int, step as int, (low + 2) as int, 0);
        }
        lemma_pow2_unfold(low + 1);
        assert((0 + step) * pow2(low + 1) == significand * pow2(low)) by (nonlinear_arith)
            requires
                significand == 2 * step,
                pow2(low + 1) == 2 * pow2(low),
        ;
    }
}

/// Larger patterns stand for larger magnitudes.
proof fn lemma_magnitude_less(a: nat, b: nat)
    requires
        a < b,
    ensures
        magnitude(a) < magnitude(b),
{
    let step = EXPONENT_STEP as nat;
    let (ea, fa) = (a / step, a % step);
    let (eb, fb) = (b / step, b % step);
    assert(ea <= eb);
    if ea == eb {
        if ea > 0 {
            let unit = pow2((ea - 1) as nat);
            lemma_pow2_pos((ea - 1) as nat);
            assert((fa + step) * unit < (fb + step) * unit) by (nonlinear_arith)
                requires
                    fa < fb,
                    unit > 0,
            ;
        }
    } else {
        let unit = pow2((eb - 1) as nat);
        lemma_pow2_pos((eb - 1) as nat);
        assert((fb + step) * unit >= step * unit) by (nonlinear_arith)
            requires
                unit > 0,
        ;
        if ea == 0 {
            assert(step * unit >= step) by (nonlinear_arith)
                requires
                    unit > 0,
            ;
        } else {
            let low = pow2((ea - 1) as nat);
            lemma_pow2_pos((ea - 1) as nat);
            lemma_pow2_unfold(ea);
            assert(2 * low <= unit) by {
                assert(pow2(ea) == 2 * low);
                if ea < eb - 1 {
                    lemma_pow2_strictly_increases(ea, (eb - 1) as nat);
                }
            }
            assert((fa + step) * low < step * unit) by (nonlinear_arith)
                requires
                    fa < step,
                    low > 0,
                    2 * low <= unit,
            ;
        }
    }
}

proof fn lemma_magnitude_order(a: nat, b: nat)
    ensures
        a < b <==> magnitude(a) < magnitude(b),
        a == b <==> magnitude(a) == magnitude(b),
{
    if a < b {
        lemma_magnitude_less(a, b);
    } else if b < a {
        lemma_magnitude_less(b, a);
    }
}

proof fn lemma_magnitude_zero(a: nat)
    ensures
        magnitude(a) == 0 <==> a == 0,
{
    if a > 0 {
        lemma_magnitude_less(0, a);
    }
}

/// An integer below the limit survives being converted to a double and back.
pub proof fn law_small_integers_survive(n: nat, d: Double)
    requires
        n < EXACT_LIMIT,
        d.is_integer(nearest_double(n) as int),
    ensures
        d.truncated() == n,
{
    lemma_exact(n);
    lemma_pow2_pos(1074);
    assert((n * pow2(1074)) as int / (pow2(1074) as int) == n) by {
        lemma_div_multiples_vanish(n as int, pow2(1074) as int);
        assert(n * pow2(1074) == pow2(1074) * n) by (nonlinear_arith);
    }
    assert(0 <= n * pow2(1074)) by (nonlinear_arith);
}

/// With its excess bits cut off, an integer fits into a significand, and fills it where there are
/// any.
proof fn lemma_excess_bits(n: nat)
    ensures
        n / pow2(excess_bits(n)) < EXACT_LIMIT,
        n >= EXACT_LIMIT ==> n / pow2(excess_bits(n)) >= EXPONENT_STEP,
    decreases n,
{
    if n < EXACT_LIMIT {
        lemma2_to64();
        assert(n / 1 == n);
    } else {
        let fewer = excess_bits(n / 2);
        lemma_excess_bits(n / 2);
        lemma_pow2_unfold(fewer + 1);
        lemma_pow2_pos(fewer);
        lemma_div_denominator(n as int, 2, pow2(fewer) as int);
        if n / 2 < EXACT_LIMIT {
            lemma2_to64();
            assert(n / 2 / 1 == n / 2);
        }
    }
}

proof fn lemma_excess_bits_grow(a: nat, b: nat)
    requires
        a <= b,
    ensures
        excess_bits(a) <= excess_bits(b),
    decreases b,
{
    if a >= EXACT_LIMIT {
        lemma_excess_bits_grow(a / 2, b / 2);
    }
}

/// Converting integers to doubles keeps their order.
pub proof fn law_conversion_keeps_order(a: nat, b: nat)
    requires
        a <= b,
    ensures
        nearest_double(a) <= nearest_double(b),
{
    let (ea, eb) = (excess_bits(a), excess_bits(b));
    let (ua, ub) = (pow2(ea), pow2(eb));
    let (qa, qb) = (a / ua, b / ub);
    lemma_excess_bits_grow(a, b);
    lemma_excess_bits(a);
    lemma_excess_bits(b);
    lemma_pow2_pos(ea);
    lemma_pow2_pos(eb);
    lemma_fundamental_div_mod(a as int, ua as int);
    lemma_fundamental_div_mod(b as int, ub as int);
    let ra = a % ua;
    let rb = b % ub;
    if ea == eb {
        let u = ua as int;
        assert(qa <= qb && (qa == qb ==> ra <= rb)) by (nonlinear_arith)
            requires
                u > 0,
                a <= b,
                a == u * qa + ra,
                b == u * qb + rb,
                0 <= ra < u,
                0 <= rb < u,
        ;
        assert(qa * u <= qb * u && (qa < qb ==> (qa + 1) * u <= qb * u) && (qa == qb ==> (qa + 1)
            * u == (qb + 1) * u) && qb * u <= (qb + 1) * u) by (nonlinear_arith)
            requires
                u > 0,
                qa <= qb,
        ;
    } else {
        assert(b >= EXACT_LIMIT);
        let more = (eb - ea - 1) as nat;
        lemma_pow2_unfold(eb);
        lemma_pow2_adds(ea, more);
        lemma_pow2_pos(more);
        assert(nearest_double(a) <= EXACT_LIMIT * ua) by (nonlinear_arith)
            requires
                nearest_double(a) == qa * ua || nearest_double(a) == (qa + 1) * ua,
                qa < EXACT_LIMIT,
        ;
        assert(EXACT_LIMIT * ua <= qb * ub && qb * ub <= (qb + 1) * ub) by (nonlinear_arith)
            requires
                qb >= EXPONENT_STEP,
                EXACT_LIMIT == 2 * EXPONENT_STEP,
                ub == 2 * pow2((eb - 1) as nat),
                pow2((eb - 1) as nat) == ua * pow2(more),
                pow2(more) >= 1,
        ;
    }
}

/// How patterns stand for magnitudes: the small ones for themselves, and each step of the exponent
/// after them doubles.
pub proof fn law_exponent_steps_double(pattern: nat)
    ensures
        pattern < 2 * EXPONENT_STEP ==> magnitude(pattern) == pattern,
        pattern >= EXPONENT_STEP ==> magnitude(pattern + EXPONENT_STEP as nat) == 2 * magnitude(
            pattern,
        ),
{
    let step = EXPONENT_STEP as nat;
    let (exponent, fraction) = (pattern / step, pattern % step);
    lemma2_to64();
    if pattern >= step {
        let unit = pow2((exponent - 1) as nat);
        assert((pattern + step) / step == exponent + 1 && (pattern + step) % step == fraction) by {
            lemma_fundamental_div_mod(pattern as int, step as int);
            lemma_fundamental_div_mod_converse(
                (pattern + step) as int,
                step as int,
                (exponent + 1) as int,
                fraction as int,
            );
        }
        lemma_pow2_unfold(exponent);
        assert((fraction + step) * pow2(exponent) == 2 * ((fraction + step) * unit))
            by (nonlinear_arith)
            requires
                pow2(exponent) == 2 * unit,
        ;
        if pattern < 2 * step {
            assert(exponent == 1 && fraction == pattern - step);
            assert(unit == 1);
            assert((fraction + step) * unit == pattern) by (nonlinear_arith)
                requires
                    unit == 1,
                    fraction == pattern - step,
            ;
        }
    }
}

/// Setting the sign bit negates a number, and does not make one of what is none.
pub proof fn law_sign_bit_negates(positive: Double, negative: Double)
    requires
        positive.bits < SIGN_BIT,
        negative.bits == positive.bits + SIGN_BIT,
    ensures
        positive.value() == magnitude(positive.bits as nat),
        negative.value() == -positive.value(),
        positive.nan() <==> positive.bits > INFINITY_BITS,
        negative.nan() <==> positive.nan(),
{
    assert(positive.pattern() == positive.bits);
    assert(negative.pattern() == positive.bits);
}

/// Doubles without a sign are in the order of their patterns, those with one are before them, in
/// the opposite order, and both zeros are the same. What is not a number is in no order.
pub proof fn law_order_follows_patterns(a: Double, b: Double)
    ensures
        !a.nan() && !b.nan() && a.bits < SIGN_BIT && b.bits < SIGN_BIT ==> {
            &&& a.lt(b) <==> a.bits < b.bits
            &&& a.le(b) <==> a.bits <= b.bits
            &&& a.eqv(b) <==> a.bits == b.bits
        },
        !a.nan() && !b.nan() && a.bits >= SIGN_BIT && b.bits >= SIGN_BIT ==> {
            &&& a.lt(b) <==> a.bits > b.bits
            &&& a.le(b) <==> a.bits >= b.bits
            &&& a.eqv(b) <==> a.bits == b.bits
        },
        !a.nan() && !b.nan() && a.bits >= SIGN_BIT && b.bits < SIGN_BIT ==> {
            let zeros = a.bits == SIGN_BIT && b.bits == 0;
            &&& a.lt(b) <==> !zeros
            &&& a.le(b)
            &&& a.eqv(b) <==> zeros
            &&& !b.lt(a)
        },
        a.nan() || b.nan() ==> !a.lt(b) && !a.le(b) && !a.eqv(b),
{
    lemma_magnitude_order(a.pattern(), b.pattern());
    lemma_magnitude_zero(a.pattern());
    lemma_magnitude_zero(b.pattern());
}

/// Of any two numbers, either one is less than the other or they are equal, and never two of these.
pub proof fn law_numbers_can_be_compared(a: Double, b: Double)
    requires
        !a.nan(),
        !b.nan(),
    ensures
        a.lt(b) || b.lt(a) || a.eqv(b),
        !(a.lt(b) && b.lt(a)) && !(a.lt(b) && a.eqv(b)) && !(b.lt(a) && a.eqv(b)),
        a.le(b) <==> a.lt(b) || a.eqv(b),
        a.le(b) <==> !b.lt(a),
{
}

proof fn lemma_excess_bits_of(n: nat, excess: nat)
    requires
        excess > 0 ==> EXPONENT_STEP * pow2(excess) <= n,
        n < EXACT_LIMIT * pow2(excess),
    ensures
        excess_bits(n) == excess,
    decreases excess,
{
    if excess == 0 {
        lemma2_to64();
        assert(n < EXACT_LIMIT) by (nonlinear_arith)
            requires
                n < EXACT_LIMIT * pow2(0),
                pow2(0) == 1,
        ;
    } else {
        let unit = pow2((excess - 1) as nat);
        lemma_pow2_unfold(excess);
        lemma_pow2_pos((excess - 1) as nat);
        assert(EXACT_LIMIT * unit <= n && n < 2 * (EXACT_LIMIT * unit)) by (nonlinear_arith)
            requires
                EXPONENT_STEP * pow2(excess) <= n,
                n < EXACT_LIMIT * pow2(excess),
                pow2(excess) == 2 * unit,
                EXACT_LIMIT == 2 * EXPONENT_STEP,
        ;
        assert(EXACT_LIMIT * unit >= EXACT_LIMIT) by (nonlinear_arith)
            requires
                unit >= 1,
        ;
        assert(EXPONENT_STEP * unit * 2 == EXACT_LIMIT * unit) by (nonlinear_arith)
            requires
                EXACT_LIMIT == 2 * EXPONENT_STEP,
        ;
        lemma_excess_bits_of(n / 2, (excess - 1) as nat);
    }
}

/// Converting an integer to a double rounds it to the unit of its size, the power of two that
/// leaves fifty-three bits: to the nearest multiple of it, and of two equally near ones to the even
/// one.
pub proof fn law_conversion_rounds_to_nearest(n: nat, excess: nat)
    requires
        excess > 0 ==> 0x10_0000_0000_0000 * pow2(excess) <= n,
        n < 0x20_0000_0000_0000 * pow2(excess),
    ensures
        ({
            let unit = pow2(excess) as int;
            let rounded = nearest_double(n) as int;
            &&& rounded % unit == 0
            &&& 2 * (rounded - n) <= unit
            &&& 2 * (n - rounded) <= unit
            &&& 2 * (rounded - n) == unit || 2 * (n - rounded) == unit ==> rounded / unit % 2 == 0
        }),
{
    let unit = pow2(excess) as int;
    let rounded = nearest_double(n) as int;
    let (below, rest) = (n as int / unit, n as int % unit);
    lemma_excess_bits_of(n, excess);
    lemma_pow2_pos(excess);
    lemma_fundamental_div_mod(n as int, unit);
    let whole = if 2 * rest > unit || (2 * rest == unit && below % 2 == 1) {
        below + 1
    } else {
        below
    };
    assert(rounded == whole * unit);
    assert(rounded == unit * below + unit * (whole - below) && unit * (whole - below) == if whole
        == below {
        0
    } else {
        unit
    }) by (nonlinear_arith)
        requires
            rounded == whole * unit,
            whole == below || whole == below + 1,
    ;
    lemma_fundamental_div_mod_converse(rounded, unit, whole, 0);
}

/// Truncation gives the greatest integer that is not greater, from zero up to the greatest one of
/// the type; what is negative or not a number gives zero.
pub proof fn law_truncation_rounds_down(d: Double)
    ensures
        0 <= d.truncated() <= u64::MAX,
        d.nan() || d.value() < 0 ==> d.truncated() == 0,
        !d.nan() && d.value() >= 0 ==> {
            &&& d.truncated() * pow2(1074) <= d.value()
            &&& d.truncated() < u64::MAX ==> d.value() < (d.truncated() + 1) * pow2(1074)
        },
{
    let one = pow2(1074) as int;
    lemma_pow2_pos(1074);
    if !d.nan() && d.value() >= 0 {
        let whole = d.value() / one;
        let kept = d.truncated();
        lemma_fundamental_div_mod(d.value(), one);
        assert(whole >= 0 && kept * one <= d.value() && (kept == whole ==> d.value() < (kept + 1)
            * one)) by (nonlinear_arith)
            requires
                d.value() == one * whole + d.value() % one,
                0 <= d.value() % one < one,
                d.value() >= 0,
                kept <= whole,
                one > 0,
        ;
    }
}

} // verus!
