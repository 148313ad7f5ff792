//! Binary floating-point numbers held as the integers that encode them.
//!
//! A file stores coordinates, key times, and rates in the IEEE 754 formats. The
//! library tests whether one is finite, orders two of them, widens a single to a
//! double, halves a double, and finds the double nearest to an integer, all by
//! arithmetic on the encoding.

use vstd::arithmetic::mul::*;
use vstd::arithmetic::power2::*;
use vstd::prelude::*;

verus! {

/// A number in the 64-bit binary format.
#[derive(Clone, Copy, Debug, PartialEq, Eq, Structural)]
pub struct Double {
    pub bits: u64,
}

/// A number in the 32-bit binary format.
#[derive(Clone, Copy, Debug, PartialEq, Eq, Structural)]
pub struct Single {
    pub bits: u32,
}

/// The magnitude encoded by `m` (the encoding without its sign), counted in the
/// smallest positive double.
pub open spec fn double_magnitude(m: int) -> int {
    if m / 0x10_0000_0000_0000 == 0 {
        m
    } else {
        (0x10_0000_0000_0000 + m % 0x10_0000_0000_0000) * pow2(
            (m / 0x10_0000_0000_0000 - 1) as nat,
        )
    }
}

/// The magnitude encoded by `m` (the encoding without its sign), counted in the
/// smallest positive single.
pub open spec fn single_magnitude(m: int) -> int {
    if m / 0x80_0000 == 0 {
        m
    } else {
        (0x80_0000 + m % 0x80_0000) * pow2((m / 0x80_0000 - 1) as nat)
    }
}

impl Double {
    /// Whether this is a number, neither infinite nor a NaN.
    pub open spec fn finite(self) -> bool {
        self.bits % 0x8000_0000_0000_0000 < 0x7ff0_0000_0000_0000
    }

    /// Where a finite number stands in numeric order: both zeros at 0.
    pub open spec fn order(self) -> int {
        if self.bits < 0x8000_0000_0000_0000 {
            self.bits as int
        } else {
            0x8000_0000_0000_0000 - self.bits
        }
    }

    /// The value of a finite number, counted in the smallest positive double,
    /// which is two to the power of -1074.
    pub open spec fn value(self) -> int {
        if self.bits < 0x8000_0000_0000_0000 {
            double_magnitude(self.bits as int)
        } else {
            -double_magnitude(self.bits - 0x8000_0000_0000_0000)
        }
    }

    /// The number with this encoding.
    #[must_use]
    pub fn from_bits(bits: u64) -> (number: Double)
        ensures
            number.bits == bits,
    {
        Double { bits }
    }

    /// The encoding of this number.
    #[must_use]
    pub fn bits(self) -> (bits: u64)
        ensures
            bits == self.bits,
    {
        self.bits
    }

    /// Whether this is a number, neither infinite nor a NaN.
    #[must_use]
    pub fn is_finite(self) -> (finite: bool)
        ensures
            finite == self.finite(),
    {
        self.bits % 0x8000_0000_0000_0000 < 0x7ff0_0000_0000_0000
    }

    /// Whether this finite number is greater than zero.
    #[must_use]
    pub fn is_positive(self) -> (positive: bool)
        ensures
            positive == (self.order() > 0),
    {
        0 < self.bits && self.bits < 0x8000_0000_0000_0000
    }

    /// Whether this finite number is at most another.
    #[must_use]
    pub fn at_most(self, other: Double) -> (least: bool)
        ensures
            least == (self.order() <= other.order()),
    {
        let sign: u64 = 0x8000_0000_0000_0000;
        if self.bits < sign {
            if other.bits < sign {
                self.bits <= other.bits
            } else {
                self.bits == 0 && other.bits == sign
            }
        } else if other.bits < sign {
            true
        } else {
            other.bits <= self.bits
        }
    }

    /// The number nearest to an integer; of two that are equally near, the one
    /// with the even significand.
    #[must_use]
    pub fn from_i64(number: i64) -> (result: Double)
        ensures
            result.bits == integer_bits(number as int),
            number == 0 ==> result.bits == 0,
            number != 0 ==> 0x3fe0_0000_0000_0000 <= result.bits % 0x8000_0000_0000_0000
                < 0x7ff0_0000_0000_0000,
    {
        let magnitude: u64 = if number >= 0 {
            number as u64
        } else if number == i64::MIN {
            0x8000_0000_0000_0000
        } else {
            (-number) as u64
        };
        let sign: u64 = if number < 0 {
            0x8000_0000_0000_0000
        } else {
            0
        };
        Double { bits: sign + natural_double(magnitude) }
    }

    /// The number halved so many times, where that loses no digit.
    #[must_use]
    pub fn halved(self, times: u64) -> (result: Double)
        requires
            times <= 1000,
            self.bits == 0 || (times + 1) * 0x10_0000_0000_0000 <= self.bits
                % 0x8000_0000_0000_0000,
        ensures
            result.bits == halved_bits(self.bits, times),
    {
        if self.bits == 0 {
            return self;
        }
        Double { bits: self.bits - times * 0x10_0000_0000_0000 }
    }

    /// The number equal to a 32-bit natural number.
    #[must_use]
    pub fn from_u32(number: u32) -> (result: Double)
        ensures
            result.finite(),
            result.value() == number * pow2(1074),
            result.bits < 0x8000_0000_0000_0000,
    {
        if number == 0 {
            proof {
                lemma_mul_basics_2(pow2(1074) as int);
                assert(0 * pow2(1074) == 0) by (nonlinear_arith);
            }
            return Double { bits: 0 };
        }
        let mut significand: u64 = number as u64;
        let mut exponent: u64 = 1075;
        proof {
            lemma2_to64();
            assert(number * pow2(0) == number) by {
                lemma2_to64();
            }
        }
        while significand < 0x10_0000_0000_0000
            invariant
                0 < significand < 0x20_0000_0000_0000,
                1 <= exponent <= 1075,
                significand == number * pow2((1075 - exponent) as nat),
                number > 0,
                significand >= pow2((1075 - exponent) as nat),
                1075 - exponent <= 53,
            decreases exponent,
        {
            proof {
                let n = (1075 - exponent) as nat;
                lemma_pow2_unfold(n + 1);
                lemma_pow2_pos(n);
                assert(number * (2 * pow2(n)) == 2 * (number * pow2(n))) by (nonlinear_arith);
                if n >= 52 {
                    lemma_pow2_strictly_increases_or_equal(52, n);
                    lemma2_to64_rest();
                }
            }
            significand = significand * 2;
            exponent = exponent - 1;
        }
        let bits: u64 = exponent * 0x10_0000_0000_0000 + (significand - 0x10_0000_0000_0000);
        proof {
            let n = (1075 - exponent) as nat;
            let e = (exponent - 1) as nat;
            assert(bits as int / 0x10_0000_0000_0000 == exponent);
            assert(bits as int % 0x10_0000_0000_0000 == significand - 0x10_0000_0000_0000);
            lemma_pow2_adds(n, e);
            assert(n + e == 1074);
            assert((number * pow2(n)) * pow2(e) == number * (pow2(n) * pow2(e)))
                by (nonlinear_arith);
        }
        Double { bits }
    }
}

proof fn lemma_pow2_strictly_increases_or_equal(a: nat, b: nat)
    requires
        a <= b,
    ensures
        pow2(a) <= pow2(b),
{
    if a < b {
        lemma_pow2_strictly_increases(a, b);
    }
}

proof fn lemma_magnitude_increases(m: int, n: int)
    requires
        0 <= m < n,
    ensures
        double_magnitude(m) < double_magnitude(n),
{
    let e = m / 0x10_0000_0000_0000;
    let g = n / 0x10_0000_0000_0000;
    let f = m % 0x10_0000_0000_0000;
    let h = n % 0x10_0000_0000_0000;
    lemma2_to64();
    if g == 0 {
    } else if e == 0 {
        let p = pow2((g - 1) as nat) as int;
        lemma_pow2_pos((g - 1) as nat);
        assert((0x10_0000_0000_0000 + h) * p >= 0x10_0000_0000_0000 + h) by (nonlinear_arith)
            requires
                p >= 1,
                h >= 0,
        ;
    } else if e == g {
        let p = pow2((g - 1) as nat) as int;
        lemma_pow2_pos((g - 1) as nat);
        assert((0x10_0000_0000_0000 + f) * p < (0x10_0000_0000_0000 + h) * p) by (nonlinear_arith)
            requires
                p >= 1,
                f < h,
        ;
    } else {
        let p = pow2((e - 1) as nat) as int;
        let q = pow2((g - 1) as nat) as int;
        lemma_pow2_pos((e - 1) as nat);
        lemma_pow2_unfold(e as nat);
        lemma_pow2_strictly_increases_or_equal(e as nat, (g - 1) as nat);
        assert(q >= 2 * p);
        assert((0x10_0000_0000_0000 + f) * p < (0x10_0000_0000_0000 + h) * q) by (nonlinear_arith)
            requires
                p >= 1,
                q >= 2 * p,
                0 <= f < 0x10_0000_0000_0000,
                h >= 0,
        ;
    }
}

/// The order of two finite numbers is the order of their values.
pub proof fn order_is_numeric(a: Double, b: Double)
    requires
        a.finite(),
        b.finite(),
    ensures
        a.order() < b.order() <==> a.value() < b.value(),
        a.order() == b.order() <==> a.value() == b.value(),
{
    let x = if a.bits < 0x8000_0000_0000_0000 {
        a.bits as int
    } else {
        a.bits - 0x8000_0000_0000_0000
    };
    let y = if b.bits < 0x8000_0000_0000_0000 {
        b.bits as int
    } else {
        b.bits - 0x8000_0000_0000_0000
    };
    assert(double_magnitude(0) == 0);
    if x < y {
        lemma_magnitude_increases(x, y);
    }
    if y < x {
        lemma_magnitude_increases(y, x);
    }
    if x > 0 {
        lemma_magnitude_increases(0, x);
    }
    if y > 0 {
        lemma_magnitude_increases(0, y);
    }
}

/// The encoding of a number that is halved so many times, for which its exponent is large
/// enough.
pub open spec fn halved_bits(bits: u64, times: u64) -> u64 {
    if bits == 0 {
        0
    } else {
        (bits - times * 0x10_0000_0000_0000) as u64
    }
}

/// A number that is halved so many times is the number divided by that power of two, with
/// nothing lost.
pub proof fn halving_is_exact(number: Double, times: u64)
    requires
        times <= 1000,
        number.bits == 0 || (times + 1) * 0x10_0000_0000_0000 <= number.bits
            % 0x8000_0000_0000_0000,
    ensures
        (Double { bits: halved_bits(number.bits, times) }).value() * pow2(times as nat)
            == number.value(),
{
    if number.bits != 0 {
        let sign: int = if number.bits < 0x8000_0000_0000_0000 {
            0
        } else {
            0x8000_0000_0000_0000
        };
        let m = number.bits - sign;
        let small = m - times * 0x10_0000_0000_0000;
        let fraction = m % 0x10_0000_0000_0000;
        let exponent = m / 0x10_0000_0000_0000;
        assert(small / 0x10_0000_0000_0000 == exponent - times && small % 0x10_0000_0000_0000
            == fraction);
        let e = (exponent - times - 1) as nat;
        let f = 0x10_0000_0000_0000 + fraction;
        lemma_pow2_adds(e, times as nat);
        assert((f * pow2(e)) * pow2(times as nat) == f * (pow2(e) * pow2(times as nat)))
            by (nonlinear_arith);
        assert((-(f * pow2(e))) * pow2(times as nat) == -((f * pow2(e)) * pow2(times as nat)))
            by (nonlinear_arith);
        assert(double_magnitude(m) == f * pow2((exponent - 1) as nat));
        assert(double_magnitude(small) == f * pow2(e));
    } else {
        assert(0 * pow2(times as nat) == 0) by (nonlinear_arith);
    }
}

/// The encoding of `significand` times two to the power of `exponent - 1075`, for
/// a significand below 54 bits that is shifted up to 53 bits.
pub open spec fn shifted_bits(significand: u64, exponent: u64) -> u64
    decreases exponent,
{
    if significand >= 0x10_0000_0000_0000 || exponent == 0 {
        (exponent * 0x10_0000_0000_0000 + (significand - 0x10_0000_0000_0000)) as u64
    } else {
        shifted_bits((significand * 2) as u64, (exponent - 1) as u64)
    }
}

/// The encoding of `magnitude` divided by `divisor` and rounded, for the first
/// power of two from `divisor` on that leaves a significand below 54 bits.
pub open spec fn rounded_bits(magnitude: u64, divisor: u64, exponent: u64) -> u64
    decreases 1086 - exponent,
{
    let quotient = magnitude / divisor;
    let rest = magnitude % divisor;
    if quotient < 0x20_0000_0000_0000 || exponent >= 1086 {
        let up = if 2 * rest > divisor || (2 * rest == divisor && quotient % 2 == 1) {
            1int
        } else {
            0
        };
        (exponent * 0x10_0000_0000_0000 + (quotient + up - 0x10_0000_0000_0000)) as u64
    } else {
        rounded_bits(magnitude, (divisor * 2) as u64, (exponent + 1) as u64)
    }
}

/// The encoding of the double nearest to a natural number.
pub open spec fn natural_bits(magnitude: u64) -> u64 {
    if magnitude == 0 {
        0
    } else if magnitude < 0x20_0000_0000_0000 {
        shifted_bits(magnitude, 1075)
    } else {
        rounded_bits(magnitude, 2, 1076)
    }
}

/// `magnitude` rounded to a multiple of the first power of two from `divisor` on that leaves
/// a significand below 54 bits.
pub open spec fn rounded_natural(magnitude: u64, divisor: u64, exponent: u64) -> int
    decreases 1086 - exponent,
{
    let quotient = magnitude / divisor;
    let rest = magnitude % divisor;
    if quotient < 0x20_0000_0000_0000 || exponent >= 1086 {
        let up = if 2 * rest > divisor || (2 * rest == divisor && quotient % 2 == 1) {
            1int
        } else {
            0
        };
        (quotient + up) * divisor
    } else {
        rounded_natural(magnitude, (divisor * 2) as u64, (exponent + 1) as u64)
    }
}

/// The natural number that the double nearest to `magnitude` stands for.
pub open spec fn nearest_natural(magnitude: u64) -> int {
    if magnitude < 0x20_0000_0000_0000 {
        magnitude as int
    } else {
        rounded_natural(magnitude, 2, 1076)
    }
}

/// The natural number that the double nearest to `magnitude` stands for.
#[verifier::spinoff_prover]
pub fn round_natural(magnitude: u64) -> (nearest: u64)
    requires
        magnitude <= 0x8000_0000_0000_0000,
    ensures
        nearest == nearest_natural(magnitude),
{
    if magnitude < 0x20_0000_0000_0000 {
        return magnitude;
    }
    let mut divisor: u64 = 2;
    let mut exponent: u64 = 1076;
    while magnitude / divisor >= 0x20_0000_0000_0000 && exponent < 1086
        invariant
            magnitude <= 0x8000_0000_0000_0000,
            2 <= divisor,
            1076 <= exponent <= 1086,
            exponent <= 1076 ==> divisor <= 2,
            exponent <= 1077 ==> divisor <= 4,
            exponent <= 1078 ==> divisor <= 8,
            exponent <= 1079 ==> divisor <= 16,
            exponent <= 1080 ==> divisor <= 32,
            exponent <= 1081 ==> divisor <= 64,
            exponent <= 1082 ==> divisor <= 128,
            exponent <= 1083 ==> divisor <= 256,
            exponent <= 1084 ==> divisor <= 512,
            exponent <= 1085 ==> divisor <= 1024,
            divisor <= 2048,
            rounded_natural(magnitude, 2, 1076) == rounded_natural(magnitude, divisor, exponent),
        decreases 1086 - exponent,
    {
        divisor = divisor * 2;
        exponent = exponent + 1;
    }
    let quotient: u64 = magnitude / divisor;
    let rest: u64 = magnitude % divisor;
    let up: u64 = if 2 * rest > divisor || (2 * rest == divisor && quotient % 2 == 1) {
        1
    } else {
        0
    };
    proof {
        assert(quotient * divisor <= magnitude) by (nonlinear_arith)
            requires
                divisor > 0,
                quotient == magnitude / divisor,
        ;
        assert((quotient + up) * divisor == quotient * divisor + up * divisor) by (nonlinear_arith);
        assert(up * divisor <= divisor) by (nonlinear_arith)
            requires
                up <= 1,
                divisor > 0,
        ;
    }
    (quotient + up) * divisor
}

/// The encoding of the double nearest to an integer.
pub open spec fn integer_bits(number: int) -> u64 {
    if number < 0 {
        (0x8000_0000_0000_0000 + natural_bits((-number) as u64)) as u64
    } else {
        natural_bits(number as u64)
    }
}

fn natural_double(magnitude: u64) -> (bits: u64)
    requires
        magnitude <= 0x8000_0000_0000_0000,
    ensures
        bits == natural_bits(magnitude),
        bits < 0x7ff0_0000_0000_0000,
        magnitude == 0 ==> bits == 0,
        magnitude > 0 ==> bits >= 0x3fe0_0000_0000_0000,
{
    if magnitude == 0 {
        return 0;
    }
    if magnitude < 0x20_0000_0000_0000 {
        let mut significand: u64 = magnitude;
        let mut exponent: u64 = 1075;
        proof {
            lemma2_to64();
        }
        while significand < 0x10_0000_0000_0000
            invariant
                0 < significand < 0x20_0000_0000_0000,
                1 <= exponent <= 1075,
                1075 - exponent <= 53,
                significand >= pow2((1075 - exponent) as nat),
                shifted_bits(magnitude, 1075) == shifted_bits(significand, exponent),
            decreases exponent,
        {
            proof {
                let n = (1075 - exponent) as nat;
                lemma_pow2_unfold(n + 1);
                if n >= 52 {
                    lemma_pow2_strictly_increases_or_equal(52, n);
                    lemma2_to64_rest();
                }
            }
            significand = significand * 2;
            exponent = exponent - 1;
        }
        return exponent * 0x10_0000_0000_0000 + (significand - 0x10_0000_0000_0000);
    }
    let mut divisor: u64 = 2;
    let mut exponent: u64 = 1076;
    while magnitude / divisor >= 0x20_0000_0000_0000 && exponent < 1086
        invariant
            0x20_0000_0000_0000 <= magnitude <= 0x8000_0000_0000_0000,
            2 <= divisor <= 2048,
            1076 <= exponent <= 1086,
            divisor * 0x10_0000_0000_0000 <= magnitude,
            exponent == 1076 ==> divisor == 2,
            exponent == 1077 ==> divisor == 4,
            exponent == 1078 ==> divisor == 8,
            exponent == 1079 ==> divisor == 16,
            exponent == 1080 ==> divisor == 32,
            exponent == 1081 ==> divisor == 64,
            exponent == 1082 ==> divisor == 128,
            exponent == 1083 ==> divisor == 256,
            exponent == 1084 ==> divisor == 512,
            exponent == 1085 ==> divisor == 1024,
            exponent == 1086 ==> divisor == 2048,
            rounded_bits(magnitude, 2, 1076) == rounded_bits(magnitude, divisor, exponent),
        decreases 1086 - exponent,
    {
        proof {
            let quotient = magnitude / divisor;
            assert(quotient * divisor <= magnitude) by (nonlinear_arith)
                requires
                    divisor > 0,
                    quotient == magnitude / divisor,
            ;
            assert(divisor * 2 * 0x10_0000_0000_0000 <= magnitude) by (nonlinear_arith)
                requires
                    quotient * divisor <= magnitude,
                    quotient >= 0x20_0000_0000_0000,
                    divisor > 0,
            ;
        }
        divisor = divisor * 2;
        exponent = exponent + 1;
    }
    let quotient: u64 = magnitude / divisor;
    let rest: u64 = magnitude % divisor;
    proof {
        assert(quotient >= 0x10_0000_0000_0000) by (nonlinear_arith)
            requires
                quotient == magnitude / divisor,
                divisor * 0x10_0000_0000_0000 <= magnitude,
                divisor > 0,
        ;
        assert(divisor == 2048 ==> quotient <= 0x10_0000_0000_0000) by (nonlinear_arith)
            requires
                quotient == magnitude / divisor,
                magnitude <= 0x8000_0000_0000_0000,
                divisor > 0,
        ;
    }
    let up: u64 = if 2 * rest > divisor || (2 * rest == divisor && quotient % 2 == 1) {
        1
    } else {
        0
    };
    exponent * 0x10_0000_0000_0000 + (quotient + up - 0x10_0000_0000_0000)
}

impl Single {
    /// Whether this is a number, neither infinite nor a NaN.
    pub open spec fn finite(self) -> bool {
        self.bits % 0x8000_0000 < 0x7f80_0000
    }

    /// Where a finite number stands in numeric order: both zeros at 0.
    pub open spec fn order(self) -> int {
        if self.bits < 0x8000_0000 {
            self.bits as int
        } else {
            0x8000_0000 - self.bits
        }
    }

    /// The value of a finite number, counted in the smallest positive single,
    /// which is two to the power of -149.
    pub open spec fn value(self) -> int {
        if self.bits < 0x8000_0000 {
            single_magnitude(self.bits as int)
        } else {
            -single_magnitude(self.bits - 0x8000_0000)
        }
    }

    /// The encoding of the double with the same value.
    pub open spec fn widened(self) -> u64 {
        widened_bits(self.bits)
    }

    /// The number with this encoding.
    #[must_use]
    pub fn from_bits(bits: u32) -> (number: Single)
        ensures
            number.bits == bits,
    {
        Single { bits }
    }

    /// The encoding of this number.
    #[must_use]
    pub fn bits(self) -> (bits: u32)
        ensures
            bits == self.bits,
    {
        self.bits
    }

    /// Whether this is a number, neither infinite nor a NaN.
    #[must_use]
    pub fn is_finite(self) -> (finite: bool)
        ensures
            finite == self.finite(),
    {
        self.bits % 0x8000_0000 < 0x7f80_0000
    }

    /// Whether this finite number is at most another.
    #[must_use]
    pub fn at_most(self, other: Single) -> (least: bool)
        ensures
            least == (self.order() <= other.order()),
    {
        let sign: u32 = 0x8000_0000;
        if self.bits < sign {
            if other.bits < sign {
                self.bits <= other.bits
            } else {
                self.bits == 0 && other.bits == sign
            }
        } else if other.bits < sign {
            true
        } else {
            other.bits <= self.bits
        }
    }

    /// The double with the same value; an infinity or NaN stays one.
    #[must_use]
    pub fn widen(self) -> (result: Double)
        ensures
            result.bits == self.widened(),
    {
        let sign: u64 = (self.bits / 0x8000_0000) as u64;
        let exponent: u64 = (self.bits % 0x8000_0000 / 0x80_0000) as u64;
        let fraction: u64 = (self.bits % 0x80_0000) as u64;
        let bits: u64 = if exponent == 255 {
            0x7ff0_0000_0000_0000 + fraction * 0x2000_0000
        } else if exponent != 0 {
            (exponent + 896) * 0x10_0000_0000_0000 + fraction * 0x2000_0000
        } else if fraction == 0 {
            0
        } else {
            widen_tiny(fraction, 897)
        };
        Double { bits: sign * 0x8000_0000_0000_0000 + bits }
    }
}

/// The double encoding of `significand` times two to the power of
/// `exponent - 1046`, where the significand is shifted up to 24 bits.
pub open spec fn tiny_bits(significand: u64, exponent: u64) -> u64
    decreases exponent,
{
    if significand >= 0x80_0000 || exponent == 0 {
        (exponent * 0x10_0000_0000_0000 + (significand - 0x80_0000) * 0x2000_0000) as u64
    } else {
        tiny_bits((significand * 2) as u64, (exponent - 1) as u64)
    }
}

/// The double encoding of the value with the single encoding `bits`.
pub open spec fn widened_bits(bits: u32) -> u64 {
    let sign = (bits / 0x8000_0000) as u64;
    let exponent = (bits % 0x8000_0000 / 0x80_0000) as u64;
    let fraction = (bits % 0x80_0000) as u64;
    let magnitude = if exponent == 255 {
        0x7ff0_0000_0000_0000 + fraction * 0x2000_0000
    } else if exponent != 0 {
        (exponent + 896) * 0x10_0000_0000_0000 + fraction * 0x2000_0000
    } else if fraction == 0 {
        0
    } else {
        tiny_bits(fraction, 897) as int
    };
    (sign * 0x8000_0000_0000_0000 + magnitude) as u64
}

proof fn lemma_tiny_value(significand: u64, exponent: u64)
    requires
        0 < significand < 0x100_0000,
        24 <= exponent <= 897,
        significand < 0x80_0000 ==> significand >= pow2((897 - exponent) as nat),
    ensures
        tiny_bits(significand, exponent) < 0x7ff0_0000_0000_0000,
        double_magnitude(tiny_bits(significand, exponent) as int) == significand * (0x2000_0000
            * pow2((exponent - 1) as nat)),
    decreases exponent,
{
    lemma2_to64();
    let p = pow2((exponent - 1) as nat) as int;
    if significand >= 0x80_0000 {
        let bits = tiny_bits(significand, exponent) as int;
        let fraction = (significand - 0x80_0000) * 0x2000_0000;
        assert(bits == exponent * 0x10_0000_0000_0000 + fraction);
        assert(bits / 0x10_0000_0000_0000 == exponent);
        assert(bits % 0x10_0000_0000_0000 == fraction);
        assert((significand * 0x2000_0000) * p == significand * (0x2000_0000 * p))
            by (nonlinear_arith);
    } else {
        let n = (897 - exponent) as nat;
        if n >= 23 {
            lemma_pow2_strictly_increases_or_equal(23, n);
        }
        lemma_pow2_unfold(n + 1);
        lemma_pow2_unfold((exponent - 1) as nat);
        lemma_tiny_value((significand * 2) as u64, (exponent - 1) as u64);
        let q = pow2((exponent - 2) as nat) as int;
        assert(p == 2 * q);
        assert((2 * significand) * (0x2000_0000 * q) == significand * (0x2000_0000 * (2 * q)))
            by (nonlinear_arith);
    }
}

/// Widening keeps the value of a finite number, and keeps a number that is not
/// finite from becoming one.
pub proof fn widening_keeps_value(number: Single)
    ensures
        (Double { bits: number.widened() }).finite() == number.finite(),
        number.finite() ==> (Double { bits: number.widened() }).value() == number.value() * pow2(
            925,
        ),
{
    let sign = (number.bits / 0x8000_0000) as int;
    let m = (number.bits % 0x8000_0000) as int;
    let exponent = m / 0x80_0000;
    let fraction = m % 0x80_0000;
    let p = pow2(925) as int;
    lemma2_to64();
    assert(number.bits % 0x80_0000 == fraction);
    let magnitude = number.widened() - sign * 0x8000_0000_0000_0000;
    if exponent == 255 {
        assert(fraction * 0x2000_0000 < 0x10_0000_0000_0000);
    } else if exponent != 0 {
        assert(magnitude == (exponent + 896) * 0x10_0000_0000_0000 + fraction * 0x2000_0000);
        assert(magnitude / 0x10_0000_0000_0000 == exponent + 896);
        assert(magnitude % 0x10_0000_0000_0000 == fraction * 0x2000_0000);
        let a = pow2((exponent - 1) as nat) as int;
        let b = pow2((exponent + 895) as nat) as int;
        lemma_pow2_adds((exponent - 1) as nat, 925);
        lemma_pow2_adds(29, (exponent + 895) as nat);
        assert(a * p == 0x2000_0000 * b);
        let k = 0x80_0000 + fraction;
        assert((k * 0x2000_0000) * b == (k * a) * p) by (nonlinear_arith)
            requires
                a * p == 0x2000_0000 * b,
        ;
    } else if fraction == 0 {
        assert(0 * p == 0) by (nonlinear_arith);
        assert(double_magnitude(0) == 0);
    } else {
        assert(pow2(0) == 1);
        lemma_tiny_value(fraction as u64, 897);
        lemma_pow2_adds(29, 896);
        assert(magnitude == tiny_bits(fraction as u64, 897));
    }
    if sign == 1 {
        let v = single_magnitude(m);
        assert((-v) * p == -(v * p)) by (nonlinear_arith);
    }
}

fn widen_tiny(fraction: u64, start: u64) -> (bits: u64)
    requires
        0 < fraction < 0x80_0000,
        start == 897,
    ensures
        bits == tiny_bits(fraction, start),
        bits < 0x7ff0_0000_0000_0000,
{
    let mut significand: u64 = fraction;
    let mut exponent: u64 = start;
    proof {
        lemma2_to64();
    }
    while significand < 0x80_0000
        invariant
            start == 897,
            0 < fraction < 0x80_0000,
            0 < significand < 0x100_0000,
            exponent <= 897,
            897 - exponent <= 24,
            significand >= pow2((897 - exponent) as nat),
            tiny_bits(significand, exponent) == tiny_bits(fraction, start),
        decreases exponent,
    {
        proof {
            let n = (897 - exponent) as nat;
            lemma_pow2_unfold(n + 1);
            lemma2_to64();
            if n >= 23 {
                lemma_pow2_strictly_increases_or_equal(23, n);
            }
        }
        significand = significand * 2;
        exponent = exponent - 1;
    }
    exponent * 0x10_0000_0000_0000 + (significand - 0x80_0000) * 0x2000_0000
}

} // verus!
