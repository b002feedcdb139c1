//! Double-precision numbers, carried as their IEEE 754 bit patterns.
//!
//! The pipeline compares magnitudes, depths and times, sorts by them and tests them against
//! thresholds. All of that is decided by the encoding alone, so it is done here on integers.
use vstd::prelude::*;
use vstd::arithmetic::power2::{
    lemma2_to64, lemma2_to64_rest, lemma_pow2_adds, lemma_pow2_pos, lemma_pow2_strictly_increases,
    pow2,
};

verus! {

/// The weight of the sign bit.
pub const SIGN_WEIGHT: u64 = 0x8000_0000_0000_0000;

/// The magnitude bits of an infinity; every larger magnitude is a NaN.
pub const INFINITE_MAGNITUDE: u64 = 0x7ff0_0000_0000_0000;

/// The number of encodings that share one exponent.
pub const FRACTIONS: u64 = 0x0010_0000_0000_0000;

/// The encoding of 5.
pub const FIVE_BITS: u64 = 0x4014_0000_0000_0000;

/// The encoding of 30.
pub const THIRTY_BITS: u64 = 0x403e_0000_0000_0000;

/// The encoding of 90.
pub const NINETY_BITS: u64 = 0x4056_8000_0000_0000;

/// The encoding of 99.
pub const NINETY_NINE_BITS: u64 = 0x4058_c000_0000_0000;

/// A double-precision number given by its 64 encoding bits.
#[derive(Clone, Copy, Debug, PartialEq, Eq, Structural)]
pub struct Double {
    pub bits: u64,
}

/// The numeric size of a finite encoding with these magnitude bits, in units of 2^-1074, the
/// smallest positive double.
pub open spec fn units(magnitude: int) -> int {
    let exponent = magnitude / (FRACTIONS as int);
    let fraction = magnitude % (FRACTIONS as int);
    if exponent == 0 {
        fraction
    } else {
        (FRACTIONS + fraction) * pow2((exponent - 1) as nat)
    }
}

impl Double {
    /// The encoding without its sign bit.
    pub open spec fn magnitude(self) -> int {
        if self.bits >= SIGN_WEIGHT {
            self.bits - SIGN_WEIGHT
        } else {
            self.bits as int
        }
    }

    pub open spec fn nan(self) -> bool {
        self.magnitude() > INFINITE_MAGNITUDE
    }

    pub open spec fn finite(self) -> bool {
        self.magnitude() < INFINITE_MAGNITUDE
    }

    /// The place of a number that is no NaN in the numeric order; the two zeros share a place.
    pub open spec fn rank(self) -> int {
        if self.bits >= SIGN_WEIGHT {
            -self.magnitude()
        } else {
            self.magnitude()
        }
    }

    /// The exact numeric value of a finite number, in units of 2^-1074.
    pub open spec fn value(self) -> int {
        if self.bits >= SIGN_WEIGHT {
            -units(self.magnitude())
        } else {
            units(self.magnitude())
        }
    }

    /// `self < other`: false as soon as one of them is a NaN.
    pub open spec fn below(self, other: Double) -> bool {
        !self.nan() && !other.nan() && self.rank() < other.rank()
    }

    /// `self <= other`: false as soon as one of them is a NaN.
    pub open spec fn at_most(self, other: Double) -> bool {
        !self.nan() && !other.nan() && self.rank() <= other.rank()
    }

    /// The number without its sign.
    pub open spec fn unsigned(self) -> Double {
        Double { bits: self.magnitude() as u64 }
    }

    pub fn is_nan(&self) -> (res: bool)
        ensures
            res == self.nan(),
    {
        self.magnitude_bits() > INFINITE_MAGNITUDE
    }

    pub fn is_finite(&self) -> (res: bool)
        ensures
            res == self.finite(),
    {
        self.magnitude_bits() < INFINITE_MAGNITUDE
    }

    fn magnitude_bits(&self) -> (res: u64)
        ensures
            res == self.magnitude(),
    {
        if self.bits >= SIGN_WEIGHT {
            self.bits - SIGN_WEIGHT
        } else {
            self.bits
        }
    }

    /// The numeric comparison `self < other`.
    pub fn lt(&self, other: &Double) -> (res: bool)
        ensures
            res == self.below(*other),
    {
        let a: u64 = self.magnitude_bits();
        let b: u64 = other.magnitude_bits();
        if a > INFINITE_MAGNITUDE || b > INFINITE_MAGNITUDE {
            false
        } else if self.bits >= SIGN_WEIGHT {
            if other.bits >= SIGN_WEIGHT {
                b < a
            } else {
                a > 0 || b > 0
            }
        } else {
            other.bits < SIGN_WEIGHT && a < b
        }
    }

    /// The numeric comparison `self <= other`.
    pub fn le(&self, other: &Double) -> (res: bool)
        ensures
            res == self.at_most(*other),
    {
        !self.is_nan() && !other.is_nan() && !other.lt(self)
    }

    /// The largest integer that is not above the number, cut to the range of `i64`; zero for a
    /// NaN.
    pub open spec fn floored(self) -> int {
        if self.nan() {
            0
        } else if !self.finite() {
            if self.bits >= SIGN_WEIGHT {
                i64::MIN as int
            } else {
                i64::MAX as int
            }
        } else {
            let whole = self.value() / (pow2(1074) as int);
            if whole > i64::MAX {
                i64::MAX as int
            } else if whole < i64::MIN {
                i64::MIN as int
            } else {
                whole
            }
        }
    }

    /// The number rounded down to an integer.
    pub fn floor_to_i64(&self) -> (res: i64)
        ensures
            res == self.floored(),
    {
        let magnitude: u64 = self.magnitude_bits();
        let negative: bool = self.bits >= SIGN_WEIGHT;
        if magnitude > INFINITE_MAGNITUDE {
            return 0;
        }
        if magnitude >= 1086 * FRACTIONS {
            proof {
                if self.finite() {
                    lemma_huge(magnitude as int);
                    lemma_pow2_pos(1074);
                    lemma_negated_quotient(units(magnitude as int), pow2(1074) as int);
                }
            }
            return if negative { i64::MIN } else { i64::MAX };
        }
        let exponent: u64 = magnitude / FRACTIONS;
        let fraction: u64 = magnitude % FRACTIONS;
        let whole: u64;
        let exact: bool;
        if exponent < 1023 {
            whole = 0;
            exact = magnitude == 0;
            proof {
                lemma_small(magnitude as int);
            }
        } else if exponent < 1075 {
            let significand: u64 = FRACTIONS + fraction;
            let shift: u64 = 1075 - exponent;
            proof {
                vstd::bits::lemma_u64_shr_is_div(significand, shift);
                lemma_scaled_down(significand as int, exponent as int);
                lemma_pow2_strictly_increases(0, shift as nat);
                lemma2_to64();
                lemma_pow2_pos(shift as nat);
            }
            whole = significand >> shift;
            proof {
                let d = pow2(shift as nat) as int;
                vstd::arithmetic::div_mod::lemma_fundamental_div_mod(significand as int, d);
                assert(0 <= whole * d <= significand) by (nonlinear_arith)
                    requires
                        significand == d * whole + significand as int % d,
                        0 <= significand as int % d,
                        0 <= whole,
                        d > 0,
                ;
                vstd::bits::lemma_u64_shl_is_mul(whole, shift);
                assert(whole <= significand) by (nonlinear_arith)
                    requires
                        whole * d <= significand,
                        d > 0,
                        0 <= whole,
                ;
            }
            exact = (whole << shift) == significand;
            proof {
                let d = pow2(shift as nat) as int;
                assert(d * whole == whole * d) by (nonlinear_arith);
                lemma_remainder_scaled(significand as int, exponent as int);
            }
        } else {
            let significand: u64 = FRACTIONS + fraction;
            let shift: u64 = exponent - 1075;
            proof {
                lemma_scaled_up(significand as int, exponent as int);
                lemma_pow2_at_most_1024(shift as nat);
                lemma_pow2_pos(shift as nat);
                let d = pow2(shift as nat) as int;
                assert(0 <= significand * d < 2 * FRACTIONS * 1024) by (nonlinear_arith)
                    requires
                        0 <= significand < 2 * FRACTIONS,
                        0 < d <= 1024,
                ;
                vstd::bits::lemma_u64_shl_is_mul(significand, shift);
            }
            whole = significand << shift;
            exact = true;
        }
        proof {
            lemma_pow2_pos(1074);
            lemma_negated_quotient(units(magnitude as int), pow2(1074) as int);
        }
        if !negative {
            whole as i64
        } else if exact {
            -(whole as i64)
        } else {
            -(whole as i64) - 1
        }
    }

    /// The absolute value.
    pub fn abs(&self) -> (res: Double)
        ensures
            res == self.unsigned(),
    {
        Double { bits: self.magnitude_bits() }
    }
}

/// A larger magnitude encodes a larger number.
proof fn lemma_units_increase(a: int, b: int)
    requires
        0 <= a < b < INFINITE_MAGNITUDE,
    ensures
        units(a) < units(b),
{
    let m = FRACTIONS as int;
    let (ea, fa) = (a / m, a % m);
    let (eb, fb) = (b / m, b % m);
    assert(ea <= eb) by (nonlinear_arith)
        requires
            a < b,
            m > 0,
            ea == a / m,
            eb == b / m,
    ;
    if ea == eb {
        assert(fa < fb);
        if ea > 0 {
            let p = pow2((ea - 1) as nat) as int;
            lemma_pow2_pos((ea - 1) as nat);
            assert((m + fa) * p < (m + fb) * p) by (nonlinear_arith)
                requires
                    fa < fb,
                    p > 0,
            ;
        }
    } else {
        let q = pow2((eb - 1) as nat) as int;
        lemma_pow2_pos((eb - 1) as nat);
        assert(m * q <= (m + fb) * q) by (nonlinear_arith)
            requires
                fb >= 0,
                q > 0,
        ;
        if ea == 0 {
            assert(m <= m * q) by (nonlinear_arith)
                requires
                    q > 0,
                    m > 0,
            ;
        } else {
            let p = pow2((ea - 1) as nat) as int;
            lemma_pow2_pos((ea - 1) as nat);
            lemma_pow2_adds((ea - 1) as nat, 1);
            lemma2_to64();
            let twice = pow2(ea as nat) as int;
            assert(twice == 2 * p);
            if ea < eb - 1 {
                lemma_pow2_strictly_increases(ea as nat, (eb - 1) as nat);
            }
            assert((m + fa) * p < m * q) by (nonlinear_arith)
                requires
                    fa < m,
                    m > 0,
                    p > 0,
                    2 * p <= q,
            ;
        }
    }
}

/// The floor of a negated quotient.
proof fn lemma_negated_quotient(a: int, d: int)
    requires
        a >= 0,
        d > 0,
    ensures
        (-a) / d == if a % d == 0 {
            -(a / d)
        } else {
            -(a / d) - 1
        },
{
    let q = a / d;
    let r = a % d;
    vstd::arithmetic::div_mod::lemma_fundamental_div_mod(a, d);
    assert(d * q == q * d) by (nonlinear_arith);
    if r == 0 {
        assert(-a == (-q) * d) by (nonlinear_arith)
            requires
                a == q * d,
        ;
        vstd::arithmetic::div_mod::lemma_fundamental_div_mod_converse(-a, d, -q, 0);
    } else {
        assert(-a == (-q - 1) * d + (d - r)) by (nonlinear_arith)
            requires
                a == q * d + r,
        ;
        vstd::arithmetic::div_mod::lemma_fundamental_div_mod_converse(-a, d, -q - 1, d - r);
    }
}

/// From exponent 1086 on a number is at least 2^63.
proof fn lemma_huge(magnitude: int)
    requires
        1086 * FRACTIONS <= magnitude < INFINITE_MAGNITUDE,
    ensures
        units(magnitude) / (pow2(1074) as int) >= 0x8000_0000_0000_0000,
{
    let low = 1086 * FRACTIONS;
    if low < magnitude {
        lemma_units_increase(low, magnitude);
    }
    let unit = pow2(1074) as int;
    lemma_pow2_pos(1074);
    lemma_pow2_adds(1074, 11);
    lemma2_to64();
    assert(low / (FRACTIONS as int) == 1086);
    assert(low % (FRACTIONS as int) == 0);
    assert(units(low) == FRACTIONS * (unit * 2048));
    assert(FRACTIONS * (unit * 2048) == (FRACTIONS * 2048) * unit) by (nonlinear_arith);
    vstd::arithmetic::div_mod::lemma_fundamental_div_mod_converse(units(low), unit, FRACTIONS * 2048, 0);
    vstd::arithmetic::div_mod::lemma_div_is_ordered(units(low), units(magnitude), unit);
}

/// Below exponent 1023 a number is less than one, and only zero is whole.
proof fn lemma_small(magnitude: int)
    requires
        0 <= magnitude < 1023 * FRACTIONS,
    ensures
        0 <= units(magnitude) < pow2(1074),
        units(magnitude) / (pow2(1074) as int) == 0,
        units(magnitude) % (pow2(1074) as int) == 0 <==> magnitude == 0,
{
    let top = 1023 * FRACTIONS;
    lemma_units_increase(magnitude, top);
    assert(units(0) == 0);
    if magnitude > 0 {
        lemma_units_increase(0, magnitude);
    }
    assert(top / (FRACTIONS as int) == 1023);
    assert(top % (FRACTIONS as int) == 0);
    lemma_pow2_adds(1022, 52);
    lemma2_to64_rest();
    let p = pow2(1022) as int;
    assert(p * 0x10_0000_0000_0000 == FRACTIONS * p) by (nonlinear_arith)
        requires
            FRACTIONS == 0x10_0000_0000_0000,
    ;
    vstd::arithmetic::div_mod::lemma_basic_div(units(magnitude), pow2(1074) as int);
    vstd::arithmetic::div_mod::lemma_small_mod(units(magnitude) as nat, pow2(1074));
}

/// Scaling down by a power of two drops the low bits of the significand.
proof fn lemma_scaled_down(significand: int, exponent: int)
    requires
        0 <= significand,
        1 <= exponent < 1075,
    ensures
        (significand * pow2((exponent - 1) as nat)) / (pow2(1074) as int) == significand / (pow2(
            (1075 - exponent) as nat,
        ) as int),
{
    let low = pow2((exponent - 1) as nat) as int;
    let d = pow2((1075 - exponent) as nat) as int;
    lemma_pow2_adds((exponent - 1) as nat, (1075 - exponent) as nat);
    lemma_pow2_pos((exponent - 1) as nat);
    lemma_pow2_pos((1075 - exponent) as nat);
    vstd::arithmetic::div_mod::lemma_div_denominator(significand * low, low, d);
    vstd::arithmetic::div_mod::lemma_div_multiples_vanish(significand, low);
    assert(significand * low == low * significand) by (nonlinear_arith);
}

/// Whether a scaled number is whole shows in the dropped bits.
proof fn lemma_remainder_scaled(significand: int, exponent: int)
    requires
        0 <= significand,
        1 <= exponent < 1075,
    ensures
        (significand * pow2((exponent - 1) as nat)) % (pow2(1074) as int) == 0 <==> significand % (
        pow2((1075 - exponent) as nat) as int) == 0,
{
    let low = pow2((exponent - 1) as nat) as int;
    let d = pow2((1075 - exponent) as nat) as int;
    lemma_pow2_adds((exponent - 1) as nat, (1075 - exponent) as nat);
    lemma_pow2_pos((exponent - 1) as nat);
    lemma_pow2_pos((1075 - exponent) as nat);
    vstd::arithmetic::div_mod::lemma_truncate_middle(significand, low, d);
    assert(significand * low == low * significand) by (nonlinear_arith);
    let r = significand % d;
    assert(low * r == 0 <==> r == 0) by (nonlinear_arith)
        requires
            low > 0,
    ;
}

/// Scaling up by a power of two gives a whole number.
proof fn lemma_scaled_up(significand: int, exponent: int)
    requires
        0 <= significand,
        1075 <= exponent,
    ensures
        (significand * pow2((exponent - 1) as nat)) / (pow2(1074) as int) == significand * pow2(
            (exponent - 1075) as nat,
        ),
        (significand * pow2((exponent - 1) as nat)) % (pow2(1074) as int) == 0,
{
    let unit = pow2(1074) as int;
    let d = pow2((exponent - 1075) as nat) as int;
    lemma_pow2_adds(1074, (exponent - 1075) as nat);
    lemma_pow2_pos(1074);
    let q = significand * d;
    assert(significand * (unit * d) == q * unit) by (nonlinear_arith)
        requires
            q == significand * d,
    ;
    vstd::arithmetic::div_mod::lemma_fundamental_div_mod_converse(q * unit, unit, q, 0);
}

proof fn lemma_pow2_at_most_1024(n: nat)
    requires
        n <= 10,
    ensures
        pow2(n) <= 1024,
{
    lemma2_to64();
    if n < 10 {
        lemma_pow2_strictly_increases(n, 10);
    }
}

/// On finite numbers the comparisons decided by the encoding are those of the exact values.
pub proof fn law_order_is_numeric(a: Double, b: Double)
    requires
        a.finite(),
        b.finite(),
    ensures
        a.below(b) <==> a.value() < b.value(),
        a.at_most(b) <==> a.value() <= b.value(),
        a.rank() == b.rank() <==> a.value() == b.value(),
{
    let (m, n) = (a.magnitude(), b.magnitude());
    assert(units(0) == 0);
    if m > 0 {
        lemma_units_increase(0, m);
    }
    if n > 0 {
        lemma_units_increase(0, n);
    }
    if m < n {
        lemma_units_increase(m, n);
    }
    if n < m {
        lemma_units_increase(n, m);
    }
}

/// A whole number with its leading bit shifted up to the place of the implicit one.
proof fn lemma_whole(n: int, shift: nat)
    requires
        shift < 1074,
    ensures
        (n * pow2(shift)) * pow2((1074 - shift) as nat) == n * pow2(1074),
{
    lemma_pow2_adds(shift, (1074 - shift) as nat);
    let (p, q) = (pow2(shift) as int, pow2((1074 - shift) as nat) as int);
    assert((n * p) * q == n * (p * q)) by (nonlinear_arith);
}

/// The named encodings stand for the numbers they are named after.
pub proof fn law_named_values()
    ensures
        (Double { bits: 0 }).value() == 0,
        (Double { bits: FIVE_BITS }).value() == 5 * pow2(1074),
        (Double { bits: THIRTY_BITS }).value() == 30 * pow2(1074),
        (Double { bits: NINETY_BITS }).value() == 90 * pow2(1074),
        (Double { bits: NINETY_NINE_BITS }).value() == 99 * pow2(1074),
{
    lemma2_to64_rest();
    lemma_whole(5, 50);
    lemma_whole(30, 48);
    lemma_whole(90, 46);
    lemma_whole(99, 46);
}

} // verus!
