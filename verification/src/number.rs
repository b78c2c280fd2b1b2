//! JSON numbers, and when two of them count as the same number.
//!
//! Two numbers that both fit a signed 64-bit integer are the same when the
//! integers are. Any other pair is taken as two doubles, which are the same
//! when their rounded difference lies below the machine epsilon `2^-52`.
//! Every finite double is a whole multiple of `2^-1074`, so the module works
//! with doubles scaled by `2^1074`: exact integers, with no rounding of its own.

use vstd::prelude::*;
use vstd::arithmetic::power2::*;
use vstd::arithmetic::div_mod::*;

verus! {

/// A JSON number: a non-negative integer, a negative integer, or a double
/// held by its IEEE 754 bit pattern.
#[derive(Debug, Clone, Copy, PartialEq, Eq)]
pub enum JsonNumber {
    /// An integer that is zero or above.
    PosInt(u64),
    /// An integer below zero.
    NegInt(i64),
    /// The 64 bits of a finite double: sign, 11 bits of exponent, 52 of fraction.
    Float(u64),
}

/// `2^52`: the hidden bit of a double's significand.
pub const HIDDEN_BIT: u64 = 0x10_0000_0000_0000;

/// `2^53`: one past the largest significand.
pub const SIGNIFICAND_END: u64 = 0x20_0000_0000_0000;

/// `2^63`: the sign bit of a double.
pub const SIGN_BIT: u64 = 0x8000_0000_0000_0000;

/// The exponent field of all ones, which marks infinities and NaN.
pub const EXPONENT_ONES: u64 = 2047;

/// The biased exponent field of a double's bits.
pub open spec fn double_exponent(bits: u64) -> nat {
    ((bits / HIDDEN_BIT) % 2048) as nat
}

/// The fraction field of a double's bits.
pub open spec fn double_fraction(bits: u64) -> nat {
    (bits % HIDDEN_BIT) as nat
}

/// Whether the sign bit of a double's bits is set.
pub open spec fn double_negative(bits: u64) -> bool {
    bits >= SIGN_BIT
}

/// Whether the bits are those of a finite double.
pub open spec fn double_finite(bits: u64) -> bool {
    double_exponent(bits) != EXPONENT_ONES
}

/// The absolute value of a finite double, times `2^1074`. A subnormal is its
/// fraction; a normal number is its 53-bit significand times `2^(exponent - 1)`.
pub open spec fn double_magnitude(bits: u64) -> int {
    if double_exponent(bits) == 0 {
        double_fraction(bits) as int
    } else {
        (HIDDEN_BIT + double_fraction(bits)) * pow2((double_exponent(bits) - 1) as nat)
    }
}

/// The value of a finite double, times `2^1074`.
pub open spec fn double_scaled(bits: u64) -> int {
    if double_negative(bits) {
        -double_magnitude(bits)
    } else {
        double_magnitude(bits)
    }
}

/// The distance between neighbouring doubles at the size of `n`: 1 below
/// `2^53`, and twice as much for each further binary digit.
pub open spec fn double_spacing(n: nat) -> nat
    decreases n,
{
    if n < SIGNIFICAND_END {
        1
    } else {
        2 * double_spacing(n / 2)
    }
}

/// `n` rounded to a multiple of `unit`: to the nearer one, and midway between
/// two to the even one.
pub open spec fn round_half_even(n: nat, unit: nat) -> nat {
    let q = n / unit;
    let r = n % unit;
    if 2 * r < unit || (2 * r == unit && q % 2 == 0) {
        q * unit
    } else {
        (q + 1) * unit
    }
}

/// The double nearest to the integer `n`, as an integer: what a conversion
/// of `n` to a double gives.
pub open spec fn nearest_double(n: nat) -> nat {
    round_half_even(n, double_spacing(n))
}

/// What the rounded difference of two doubles has to stay under, times
/// `2^1074`. The epsilon is `2^-52`, the double just below it `2^-52 - 2^-105`,
/// and a difference midway between the two rounds up to the epsilon. So the
/// rounded difference is below the epsilon exactly when the exact one is below
/// `2^-52 - 2^-106`.
pub open spec fn closeness_bound() -> nat {
    (pow2(1022) - pow2(968)) as nat
}

/// Whether two doubles, given scaled by `2^1074`, differ by less than the
/// machine epsilon once the difference is rounded.
pub open spec fn doubles_close(a: int, b: int) -> bool {
    if a >= b {
        a - b < closeness_bound()
    } else {
        b - a < closeness_bound()
    }
}

impl JsonNumber {
    /// The number as a signed 64-bit integer, where it is one.
    pub open spec fn int_value(self) -> Option<i64> {
        match self {
            JsonNumber::PosInt(n) => if n <= i64::MAX as u64 {
                Some(n as i64)
            } else {
                None
            },
            JsonNumber::NegInt(n) => Some(n),
            JsonNumber::Float(_) => None,
        }
    }

    /// The number as a double, times `2^1074`. Integers are rounded to the
    /// nearest double.
    pub open spec fn scaled(self) -> int {
        match self {
            JsonNumber::PosInt(n) => (nearest_double(n as nat) * pow2(1074)) as int,
            JsonNumber::NegInt(n) => if n < 0 {
                -((nearest_double((-n) as nat) * pow2(1074)) as int)
            } else {
                (nearest_double(n as nat) * pow2(1074)) as int
            },
            JsonNumber::Float(bits) => double_scaled(bits),
        }
    }

    /// Whether the number is in the form that a JSON document gives it: a
    /// negative integer is below zero, a double is finite.
    pub open spec fn well_formed(self) -> bool {
        match self {
            JsonNumber::PosInt(_) => true,
            JsonNumber::NegInt(n) => n < 0,
            JsonNumber::Float(bits) => double_finite(bits),
        }
    }

    /// Whether two numbers count as the same: as integers where both are
    /// signed 64-bit integers, else as doubles within the machine epsilon.
    pub open spec fn same_as(self, other: JsonNumber) -> bool {
        match (self.int_value(), other.int_value()) {
            (Some(x), Some(y)) => x == y,
            _ => doubles_close(self.scaled(), other.scaled()),
        }
    }

    /// The number that stands for a signed integer.
    pub open spec fn from_i64_spec(n: i64) -> JsonNumber {
        if n < 0 {
            JsonNumber::NegInt(n)
        } else {
            JsonNumber::PosInt(n as u64)
        }
    }

    /// The number for a signed integer.
    pub fn from_i64(n: i64) -> (r: Self)
        ensures
            r == Self::from_i64_spec(n),
            r.well_formed(),
            r.int_value() == Some(n),
    {
        if n < 0 {
            JsonNumber::NegInt(n)
        } else {
            JsonNumber::PosInt(n as u64)
        }
    }

    /// The number for an unsigned integer.
    pub fn from_u64(n: u64) -> (r: Self)
        ensures
            r == JsonNumber::PosInt(n),
            r.well_formed(),
    {
        JsonNumber::PosInt(n)
    }

    /// The number for the double with the given bits; `None` for an
    /// infinity or a NaN, which JSON cannot write.
    pub fn from_f64_bits(bits: u64) -> (r: Option<Self>)
        ensures
            r == if double_finite(bits) {
                Some(JsonNumber::Float(bits))
            } else {
                None
            },
            r is Some ==> r.unwrap().well_formed(),
    {
        if (bits / HIDDEN_BIT) % 2048 != EXPONENT_ONES {
            Some(JsonNumber::Float(bits))
        } else {
            None
        }
    }

    /// Whether the number is in the form that a JSON document gives it.
    pub fn is_well_formed(&self) -> (r: bool)
        ensures
            r == self.well_formed(),
    {
        match self {
            JsonNumber::PosInt(_) => true,
            JsonNumber::NegInt(n) => *n < 0,
            JsonNumber::Float(bits) => (*bits / HIDDEN_BIT) % 2048 != EXPONENT_ONES,
        }
    }

    /// The number as a signed 64-bit integer, where it is one.
    pub fn as_i64(&self) -> (r: Option<i64>)
        ensures
            r == self.int_value(),
    {
        match self {
            JsonNumber::PosInt(n) => if *n <= i64::MAX as u64 {
                Some(*n as i64)
            } else {
                None
            },
            JsonNumber::NegInt(n) => Some(*n),
            JsonNumber::Float(_) => None,
        }
    }

    /// The number as an unsigned 64-bit integer, where it is one.
    pub fn as_u64(&self) -> (r: Option<u64>)
        ensures
            r == match *self {
                JsonNumber::PosInt(n) => Some(n),
                JsonNumber::NegInt(n) => if n >= 0 {
                    Some(n as u64)
                } else {
                    None
                },
                JsonNumber::Float(_) => None,
            },
    {
        match self {
            JsonNumber::PosInt(n) => Some(*n),
            JsonNumber::NegInt(n) => if *n >= 0 {
                Some(*n as u64)
            } else {
                None
            },
            JsonNumber::Float(_) => None,
        }
    }
}

/// A double taken apart: the magnitude is `mantissa * 2^(exponent - 1)`,
/// scaled by `2^1074` as everywhere in this module.
struct Decoded {
    negative: bool,
    exponent: u32,
    mantissa: u64,
}

impl Decoded {
    /// The mantissa has 53 bits, and its top bit is set unless the exponent
    /// is the lowest one.
    spec fn normal(self) -> bool {
        &&& 1 <= self.exponent <= 2047
        &&& self.mantissa < SIGNIFICAND_END
        &&& self.exponent > 1 ==> self.mantissa >= HIDDEN_BIT
    }

    spec fn magnitude(self) -> int {
        self.mantissa * pow2((self.exponent - 1) as nat)
    }

    spec fn scaled(self) -> int {
        if self.negative {
            -self.magnitude()
        } else {
            self.magnitude()
        }
    }
}

/// Takes the bits of a double apart.
fn decode_double(bits: u64) -> (d: Decoded)
    ensures
        d.normal(),
        d.scaled() == double_scaled(bits),
{
    let exponent: u64 = (bits / HIDDEN_BIT) % 2048;
    let fraction: u64 = bits % HIDDEN_BIT;
    let negative = bits >= SIGN_BIT;
    if exponent == 0 {
        let d = Decoded { negative, exponent: 1, mantissa: fraction };
        proof {
            lemma2_to64();
            assert(d.magnitude() == fraction * 1);
            assert(double_magnitude(bits) == fraction);
        }
        d
    } else {
        let d = Decoded { negative, exponent: exponent as u32, mantissa: HIDDEN_BIT + fraction };
        proof {
            assert(d.magnitude() == (HIDDEN_BIT + fraction) * pow2((exponent - 1) as nat));
            assert(double_magnitude(bits) == d.magnitude());
        }
        d
    }
}

/// Moving a factor of two between a mantissa and its power of two.
proof fn lemma_move_two(m: int, e: nat)
    requires
        e >= 1,
    ensures
        m * pow2(e) == (2 * m) * pow2((e - 1) as nat),
{
    lemma_pow2_unfold(e);
    let p = pow2((e - 1) as nat) as int;
    assert(m * (2 * p) == (2 * m) * p) by (nonlinear_arith);
}

/// Powers of two grow with the exponent.
proof fn lemma_pow2_monotone(a: nat, b: nat)
    requires
        a <= b,
    ensures
        pow2(a) <= pow2(b),
{
    if a < b {
        lemma_pow2_strictly_increases(a, b);
    }
}

/// Rounds an integer to the nearest double and takes that double apart.
fn decode_integer(n: u64, negative: bool) -> (d: Decoded)
    ensures
        d.normal(),
        d.negative == negative,
        d.magnitude() == nearest_double(n as nat) * pow2(1074),
{
    if n == 0 {
        let d = Decoded { negative, exponent: 1, mantissa: 0 };
        proof {
            assert(double_spacing(0) == 1);
            assert(nearest_double(0) == 0);
            assert(d.magnitude() == 0) by (nonlinear_arith)
                requires
                    d.magnitude() == 0 * pow2(0),
            ;
            assert(nearest_double(0) * pow2(1074) == 0) by (nonlinear_arith)
                requires
                    nearest_double(0) == 0,
            ;
        }
        return d;
    }
    let mut q: u64 = n;
    let mut unit: u64 = 1;
    let mut shift: u32 = 0;
    proof {
        lemma2_to64();
        assert(double_spacing(n as nat) == 1 * double_spacing(n as nat));
    }
    while q >= SIGNIFICAND_END
        invariant
            n >= 1,
            unit == pow2(shift as nat),
            1 <= unit <= 2048,
            shift <= 11,
            q == n / unit,
            q >= 1,
            shift > 0 ==> q >= HIDDEN_BIT,
            double_spacing(n as nat) == unit * double_spacing(q as nat),
        decreases q,
    {
        proof {
            lemma_fundamental_div_mod(n as int, unit as int);
            lemma_mod_bound(n as int, unit as int);
            assert(unit * q <= n);
            assert(unit * SIGNIFICAND_END <= unit * q) by (nonlinear_arith)
                requires
                    q >= SIGNIFICAND_END,
                    unit >= 1,
            ;
            assert(unit < 2048);
            lemma2_to64();
            if shift >= 11 {
                lemma_pow2_monotone(11, shift as nat);
            }
            lemma_pow2_monotone(shift as nat, 10);
            assert(unit <= 1024);
            lemma_div_denominator(n as int, unit as int, 2);
            assert(double_spacing(q as nat) == 2 * double_spacing((q / 2) as nat));
            assert(unit * (2 * double_spacing((q / 2) as nat)) == (unit * 2) * double_spacing(
                (q / 2) as nat,
            )) by (nonlinear_arith);
            lemma_pow2_unfold((shift + 1) as nat);
            lemma2_to64();
            if shift + 1 > 11 {
                lemma_pow2_strictly_increases(11, (shift + 1) as nat);
            }
        }
        q = q / 2;
        unit = unit * 2;
        shift = shift + 1;
    }
    let rest: u64 = n % unit;
    let round_up: bool = 2 * rest > unit || (2 * rest == unit && q % 2 == 1);
    let mut mantissa: u64 = if round_up {
        q + 1
    } else {
        q
    };
    let mut exponent: u32 = 1075 + shift;
    proof {
        assert(double_spacing(q as nat) == 1);
        assert(double_spacing(n as nat) == unit) by (nonlinear_arith)
            requires
                double_spacing(n as nat) == unit * double_spacing(q as nat),
                double_spacing(q as nat) == 1,
        ;
        assert(nearest_double(n as nat) == mantissa * unit);
        lemma_pow2_adds(shift as nat, 1074);
        assert(mantissa * pow2((exponent - 1) as nat) == (mantissa * unit) * pow2(1074))
            by (nonlinear_arith)
            requires
                pow2((exponent - 1) as nat) == unit * pow2(1074),
        ;
        lemma_fundamental_div_mod(n as int, unit as int);
        lemma_mod_bound(n as int, unit as int);
        assert(mantissa >= 1) by {
            if q == 0 {
            }
        }
    }
    if mantissa == SIGNIFICAND_END {
        proof {
            lemma_move_two(HIDDEN_BIT as int, exponent as nat);
        }
        mantissa = HIDDEN_BIT;
        exponent = exponent + 1;
    } else {
        proof {
            lemma2_to64();
            assert(shift > 0 ==> mantissa >= HIDDEN_BIT);
        }
        while mantissa < HIDDEN_BIT
            invariant
                1 <= mantissa < SIGNIFICAND_END,
                1023 <= exponent <= 1086,
                exponent <= 1075 ==> mantissa >= pow2((1075 - exponent) as nat),
                exponent > 1075 ==> mantissa >= HIDDEN_BIT,
                mantissa * pow2((exponent - 1) as nat) == nearest_double(n as nat) * pow2(1074),
            decreases SIGNIFICAND_END - mantissa,
        {
            proof {
                lemma2_to64_rest();
                if 1075 - exponent >= 52 {
                    lemma_pow2_monotone(52, (1075 - exponent) as nat);
                }
                lemma_move_two(mantissa as int, (exponent - 1) as nat);
                lemma_pow2_unfold((1075 - exponent + 1) as nat);
            }
            mantissa = mantissa * 2;
            exponent = exponent - 1;
        }
    }
    Decoded { negative, exponent, mantissa }
}

impl JsonNumber {
    /// The number as a double, taken apart.
    fn decode(&self) -> (d: Decoded)
        ensures
            d.normal(),
            d.scaled() == self.scaled(),
    {
        match self {
            JsonNumber::PosInt(n) => decode_integer(*n, false),
            JsonNumber::NegInt(n) => {
                if *n < 0 {
                    let wide: i128 = *n as i128;
                    let size: u64 = (-wide) as u64;
                    decode_integer(size, true)
                } else {
                    decode_integer(*n as u64, false)
                }
            },
            JsonNumber::Float(bits) => decode_double(*bits),
        }
    }
}

/// The closeness bound counted in units of `2^968`: `2^54 - 1` of them.
const BOUND_UNITS: u64 = 0x3F_FFFF_FFFF_FFFF;

/// The unit in which the closeness bound is a whole number.
spec fn unit() -> int {
    pow2(968) as int
}

proof fn lemma_bound_in_units()
    ensures
        closeness_bound() == BOUND_UNITS * unit(),
        unit() > 0,
{
    lemma_pow2_adds(54, 968);
    lemma2_to64_rest();
    lemma_pow2_pos(968);
    let u = unit();
    assert(0x40000000000000 * u - u == 0x3F_FFFF_FFFF_FFFF * u) by (nonlinear_arith);
}

/// What the mantissa's range says of the magnitude.
proof fn lemma_magnitude_range(d: Decoded)
    requires
        d.normal(),
    ensures
        0 <= d.magnitude() <= (SIGNIFICAND_END - 1) * pow2((d.exponent - 1) as nat),
        d.exponent > 1 ==> d.magnitude() >= HIDDEN_BIT * pow2((d.exponent - 1) as nat),
{
    let p = pow2((d.exponent - 1) as nat) as int;
    let m = d.mantissa as int;
    lemma_pow2_pos((d.exponent - 1) as nat);
    assert(0 <= m * p <= (SIGNIFICAND_END - 1) * p) by (nonlinear_arith)
        requires
            0 <= m <= SIGNIFICAND_END - 1,
            p > 0,
    ;
    if d.exponent > 1 {
        assert(m * p >= HIDDEN_BIT * p) by (nonlinear_arith)
            requires
                m >= HIDDEN_BIT,
                p > 0,
        ;
    }
}

/// The double with the larger exponent, or with the larger mantissa under
/// the same exponent, has the larger magnitude.
proof fn lemma_magnitude_order(x: Decoded, y: Decoded)
    requires
        x.normal(),
        y.normal(),
        x.exponent > y.exponent || (x.exponent == y.exponent && x.mantissa >= y.mantissa),
    ensures
        x.magnitude() >= y.magnitude(),
{
    let py = pow2((y.exponent - 1) as nat) as int;
    let px = pow2((x.exponent - 1) as nat) as int;
    lemma_pow2_pos((y.exponent - 1) as nat);
    if x.exponent == y.exponent {
        assert(x.mantissa * py >= y.mantissa * py) by (nonlinear_arith)
            requires
                x.mantissa >= y.mantissa,
                py > 0,
        ;
    } else {
        lemma_magnitude_range(x);
        lemma_magnitude_range(y);
        lemma_pow2_monotone(y.exponent as nat, (x.exponent - 1) as nat);
        lemma_pow2_unfold(y.exponent as nat);
        assert(HIDDEN_BIT * px >= (SIGNIFICAND_END - 1) * py) by (nonlinear_arith)
            requires
                px >= 2 * py,
                py > 0,
                HIDDEN_BIT == 0x10_0000_0000_0000,
                SIGNIFICAND_END == 0x20_0000_0000_0000,
        ;
    }
}

/// A sum of whole units and a part of one is below `n` units exactly when
/// the whole units are.
proof fn lemma_sum_in_units(whole: int, part: int, n: int, u: int)
    requires
        u > 0,
        0 <= part < u,
    ensures
        (whole * u + part < n * u) == (whole < n),
{
    if whole < n {
        assert((whole + 1) * u <= n * u) by (nonlinear_arith)
            requires
                whole + 1 <= n,
                u > 0,
        ;
        assert((whole + 1) * u == whole * u + u) by (nonlinear_arith);
    } else {
        assert(whole * u >= n * u) by (nonlinear_arith)
            requires
                whole >= n,
                u > 0,
        ;
    }
}

/// Whole units less a part of one are below `n` units exactly when the whole
/// units are below `n`, or equal to it where the part is not empty.
proof fn lemma_difference_in_units(whole: int, part: int, n: int, u: int)
    requires
        u > 0,
        0 <= part < u,
    ensures
        (whole * u - part < n * u) == (if part == 0 {
            whole < n
        } else {
            whole <= n
        }),
{
    if part == 0 {
        lemma_sum_in_units(whole, 0, n, u);
    } else {
        lemma_sum_in_units(whole - 1, u - part, n, u);
        assert((whole - 1) * u + (u - part) == whole * u - part) by (nonlinear_arith);
    }
}

/// `2^k` for a `k` below 64.
fn power_of_two(k: u32) -> (r: u64)
    requires
        k < 64,
    ensures
        r == pow2(k as nat),
{
    let mut r: u64 = 1;
    let mut i: u32 = 0;
    proof {
        lemma2_to64();
    }
    while i < k
        invariant
            i <= k < 64,
            r == pow2(i as nat),
        decreases k - i,
    {
        proof {
            lemma_pow2_unfold((i + 1) as nat);
            lemma_pow2_strictly_increases((i + 1) as nat, 64);
            lemma2_to64();
        }
        r = r * 2;
        i = i + 1;
    }
    r
}

impl Decoded {
    /// The magnitude in whole units of `2^968`, and whether a part of a unit
    /// is left over.
    fn whole_units(&self) -> (r: (u64, bool))
        requires
            self.normal(),
            self.exponent <= 971,
        ensures
            r.0 < 0x80_0000_0000_0000,
            r.0 * unit() <= self.magnitude() < (r.0 + 1) * unit(),
            r.1 == (self.magnitude() != r.0 * unit()),
    {
        let ghost u = unit();
        let ghost p = pow2((self.exponent - 1) as nat) as int;
        let ghost m = self.mantissa as int;
        proof {
            lemma_pow2_pos(968);
            lemma_pow2_pos((self.exponent - 1) as nat);
            lemma2_to64();
            lemma2_to64_rest();
        }
        if self.exponent >= 969 {
            let factor: u64 = power_of_two(self.exponent - 969);
            proof {
                lemma_pow2_adds((self.exponent - 969) as nat, 968);
                lemma_pow2_monotone((self.exponent - 969) as nat, 2);
                assert(m * (factor * u) == (m * factor) * u) by (nonlinear_arith);
                assert(m * factor < 0x80_0000_0000_0000) by (nonlinear_arith)
                    requires
                        0 <= m < 0x20_0000_0000_0000,
                        0 < factor <= 4,
                ;
                assert((m * factor + 1) * u > (m * factor) * u) by (nonlinear_arith)
                    requires
                        u > 0,
                ;
            }
            (self.mantissa * factor, false)
        } else {
            let down: u32 = 969 - self.exponent;
            proof {
                lemma_pow2_adds(down as nat, (self.exponent - 1) as nat);
            }
            if down >= 53 {
                proof {
                    lemma_pow2_monotone(53, down as nat);
                    let s = pow2(down as nat) as int;
                    assert(m * p < s * p) by (nonlinear_arith)
                        requires
                            0 <= m < s,
                            p > 0,
                    ;
                    assert(m * p >= 0) by (nonlinear_arith)
                        requires
                            m >= 0,
                            p > 0,
                    ;
                    assert((m * p == 0) == (m == 0)) by (nonlinear_arith)
                        requires
                            m >= 0,
                            p > 0,
                    ;
                    assert(0 * u == 0 && (0 + 1) * u == u) by (nonlinear_arith);
                }
                (0, self.mantissa != 0)
            } else {
                let step: u64 = power_of_two(down);
                let whole: u64 = self.mantissa / step;
                let rest: u64 = self.mantissa % step;
                proof {
                    let s = step as int;
                    lemma_pow2_pos(down as nat);
                    lemma_fundamental_div_mod(m, s);
                    lemma_mod_bound(m, s);
                    assert(m * p == whole * (s * p) + rest * p) by (nonlinear_arith)
                        requires
                            m == s * whole + rest,
                    ;
                    assert(0 <= rest * p < s * p) by (nonlinear_arith)
                        requires
                            0 <= rest < s,
                            p > 0,
                    ;
                    assert((rest * p == 0) == (rest == 0)) by (nonlinear_arith)
                        requires
                            rest >= 0,
                            p > 0,
                    ;
                    assert((whole + 1) * u == whole * u + u) by (nonlinear_arith);
                }
                (whole, rest != 0)
            }
        }
    }

    /// Whether two doubles differ by less than the machine epsilon once the
    /// difference is rounded.
    fn close_to(&self, other: &Decoded) -> (r: bool)
        requires
            self.normal(),
            other.normal(),
        ensures
            r == doubles_close(self.scaled(), other.scaled()),
    {
        let first: bool = self.exponent > other.exponent || (self.exponent == other.exponent
            && self.mantissa >= other.mantissa);
        let x: &Decoded = if first {
            self
        } else {
            other
        };
        let y: &Decoded = if first {
            other
        } else {
            self
        };
        let same_sign: bool = x.negative == y.negative;
        let ghost u = unit();
        let ghost big = x.magnitude();
        let ghost small = y.magnitude();
        let ghost px = pow2((x.exponent - 1) as nat) as int;
        let ghost py = pow2((y.exponent - 1) as nat) as int;
        proof {
            lemma_bound_in_units();
            lemma_magnitude_order(*x, *y);
            lemma_magnitude_range(*x);
            lemma_magnitude_range(*y);
            lemma2_to64();
            lemma2_to64_rest();
            lemma_pow2_pos((y.exponent - 1) as nat);
            lemma_pow2_pos((x.exponent - 1) as nat);
            assert(doubles_close(self.scaled(), other.scaled()) == doubles_close(
                x.scaled(),
                y.scaled(),
            ));
            assert(doubles_close(x.scaled(), y.scaled()) == (if same_sign {
                big - small < BOUND_UNITS * u
            } else {
                big + small < BOUND_UNITS * u
            }));
        }
        if x.exponent <= 969 {
            // Both magnitudes are below 2^-53, so even their sum stays under the bound.
            proof {
                lemma_pow2_monotone((x.exponent - 1) as nat, 968);
                lemma_pow2_monotone((y.exponent - 1) as nat, 968);
                assert((SIGNIFICAND_END - 1) * px <= (SIGNIFICAND_END - 1) * u) by (nonlinear_arith)
                    requires
                        0 < px <= u,
                        SIGNIFICAND_END == 0x20_0000_0000_0000,
                ;
                assert((SIGNIFICAND_END - 1) * py <= (SIGNIFICAND_END - 1) * u) by (nonlinear_arith)
                    requires
                        0 < py <= u,
                        SIGNIFICAND_END == 0x20_0000_0000_0000,
                ;
                assert(0x1F_FFFF_FFFF_FFFF * u + 0x1F_FFFF_FFFF_FFFF * u < 0x3F_FFFF_FFFF_FFFF
                    * u) by (nonlinear_arith)
                    requires
                        u > 0,
                ;
            }
            return true;
        }
        if x.exponent >= 972 {
            // The larger magnitude is at least 2^-51: twice the bound and more. Only a
            // double of the same sign and more than half its size can be close to it.
            proof {
                lemma_pow2_adds((x.exponent - 969) as nat, 968);
                lemma_pow2_monotone(3, (x.exponent - 969) as nat);
                let c = pow2((x.exponent - 969) as nat) as int;
                assert(HIDDEN_BIT * (c * u) >= 0x80_0000_0000_0000 * u) by (nonlinear_arith)
                    requires
                        c >= 8,
                        u > 0,
                        HIDDEN_BIT == 0x10_0000_0000_0000,
                ;
                assert(0x80_0000_0000_0000 * u >= 2 * (BOUND_UNITS * u)) by (nonlinear_arith)
                    requires
                        u > 0,
                        BOUND_UNITS == 0x3F_FFFF_FFFF_FFFF,
                ;
            }
            if !same_sign {
                return false;
            }
            if y.exponent + 1 < x.exponent {
                proof {
                    lemma_pow2_monotone((y.exponent + 1) as nat, (x.exponent - 1) as nat);
                    lemma_pow2_unfold((y.exponent + 1) as nat);
                    lemma_pow2_unfold(y.exponent as nat);
                    assert(2 * ((SIGNIFICAND_END - 1) * py) <= HIDDEN_BIT * px) by (nonlinear_arith)
                        requires
                            px >= 4 * py,
                            py > 0,
                            HIDDEN_BIT == 0x10_0000_0000_0000,
                            SIGNIFICAND_END == 0x20_0000_0000_0000,
                    ;
                }
                return false;
            }
            let factor: u64 = if x.exponent == y.exponent {
                1
            } else {
                2
            };
            let gap: u64 = x.mantissa * factor - y.mantissa;
            let up: u32 = y.exponent - 969;
            proof {
                if x.exponent != y.exponent {
                    lemma_pow2_unfold((x.exponent - 1) as nat);
                }
                assert(px == factor * py);
                assert(big - small == gap * py) by (nonlinear_arith)
                    requires
                        big == x.mantissa * px,
                        small == y.mantissa * py,
                        px == factor * py,
                        gap == x.mantissa * factor - y.mantissa,
                ;
                lemma_pow2_adds(up as nat, 968);
                lemma_pow2_pos(up as nat);
                let c = pow2(up as nat) as int;
                assert(gap * (c * u) == (gap * c) * u) by (nonlinear_arith);
                lemma_sum_in_units(gap * c, 0, BOUND_UNITS as int, u);
            }
            if up >= 54 {
                proof {
                    let c = pow2(up as nat) as int;
                    lemma_pow2_monotone(54, up as nat);
                    if gap != 0 {
                        assert(gap * c >= 0x40000000000000) by (nonlinear_arith)
                            requires
                                gap >= 1,
                                c >= 0x40000000000000,
                        ;
                    } else {
                        assert(gap * c == 0) by (nonlinear_arith)
                            requires
                                gap == 0,
                        ;
                    }
                }
                return gap == 0;
            }
            let scale: u64 = power_of_two(up);
            proof {
                lemma_pow2_strictly_increases(up as nat, 54);
                assert(gap * scale < 0x1_0000_0000_0000_0000_0000_0000_0000) by (nonlinear_arith)
                    requires
                        0 <= gap < 0x40_0000_0000_0000,
                        0 <= scale < 0x40_0000_0000_0000,
                ;
            }
            let product: u128 = (gap as u128) * (scale as u128);
            return product < BOUND_UNITS as u128;
        }
        // The larger magnitude is a whole number of units. Of the smaller one a part
        // of a unit may be left over, which counts only where it is taken away.
        let (x_whole, _) = x.whole_units();
        let (y_whole, y_part) = y.whole_units();
        proof {
            lemma_pow2_adds((x.exponent - 969) as nat, 968);
            let c = pow2((x.exponent - 969) as nat) as int;
            assert(x.mantissa * (c * u) == (x.mantissa * c) * u) by (nonlinear_arith);
            assert(big == (x.mantissa * c) * u);
            lemma_sum_in_units(x.mantissa * c, 0, x_whole as int, u);
            lemma_sum_in_units(x.mantissa * c, 0, x_whole + 1, u);
            assert(big == x_whole * u);
            let part = small - y_whole * u;
            assert((y_whole + 1) * u == y_whole * u + u) by (nonlinear_arith);
            assert(0 <= part < u);
            assert((x_whole + y_whole) * u == x_whole * u + y_whole * u) by (nonlinear_arith);
            assert((x_whole - y_whole) * u == x_whole * u - y_whole * u) by (nonlinear_arith);
            lemma_sum_in_units(x_whole + y_whole, part, BOUND_UNITS as int, u);
            lemma_difference_in_units(x_whole - y_whole, part, BOUND_UNITS as int, u);
            lemma_sum_in_units(y_whole as int, part, x_whole + 1, u);
            assert((x_whole + 1) * u == x_whole * u + u) by (nonlinear_arith);
            assert(y_whole <= x_whole);
        }
        if !same_sign {
            x_whole + y_whole < BOUND_UNITS
        } else if y_part {
            x_whole - y_whole <= BOUND_UNITS
        } else {
            x_whole - y_whole < BOUND_UNITS
        }
    }
}

impl JsonNumber {
    /// Whether two numbers count as the same: as integers where both are
    /// signed 64-bit integers, else as doubles within the machine epsilon.
    pub fn matches(&self, other: &JsonNumber) -> (r: bool)
        ensures
            r == self.same_as(*other),
    {
        match (self.as_i64(), other.as_i64()) {
            (Some(x), Some(y)) => x == y,
            _ => {
                let a = self.decode();
                let b = other.decode();
                a.close_to(&b)
            },
        }
    }
}

} // verus!
