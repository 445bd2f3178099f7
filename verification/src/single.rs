//! Single-precision arithmetic on values that are not negative, carried out on integers.
//!
//! A value is a significand of 24 bits times a power of two. Each operation rounds its exact
//! result to the nearest such value, and to the one with an even significand where two are
//! equally near, as IEEE 754 does for its 32-bit format. Magnitudes here stay far inside the
//! range of that format's exponent, so neither infinities nor subnormal values occur.

use vstd::arithmetic::power2::*;
use vstd::prelude::*;

verus! {

/// `significand * 2^exponent`.
pub struct Binary32 {
    pub significand: nat,
    pub exponent: int,
}

/// A value in single precision. Zero has exponent zero; any other value has a significand of
/// exactly 24 bits.
#[derive(Debug, Clone, Copy)]
pub struct Single {
    significand: u32,
    exponent: i32,
}

impl View for Single {
    type V = Binary32;

    closed spec fn view(&self) -> Binary32 {
        Binary32 { significand: self.significand as nat, exponent: self.exponent as int }
    }
}

impl Binary32 {
    /// Zero, or a significand of exactly 24 bits.
    pub open spec fn normal(self) -> bool {
        ||| self.significand == 0 && self.exponent == 0
        ||| 0x80_0000 <= self.significand < 0x100_0000
    }

    /// Normal, with an exponent between `-bound` and `bound`.
    pub open spec fn within(self, bound: int) -> bool {
        self.normal() && -bound <= self.exponent <= bound
    }
}

pub open spec fn zero() -> Binary32 {
    Binary32 { significand: 0, exponent: 0 }
}

/// `numerator / denominator * 2^exponent` rounded to a whole significand, where the quotient
/// lies between `2^23` and `2^24`.
pub open spec fn rounded_quotient(numerator: nat, denominator: nat, exponent: int) -> Binary32 {
    let quotient = numerator / denominator;
    let remainder = numerator % denominator;
    let up = 2 * remainder > denominator || (2 * remainder == denominator && quotient % 2 == 1);
    let significand = if up { quotient + 1 } else { quotient };
    if significand == 0x100_0000 {
        Binary32 { significand: 0x80_0000, exponent: exponent + 1 }
    } else {
        Binary32 { significand, exponent }
    }
}

/// The nearest value of a quotient of at least `2^23`.
pub open spec fn nearest_of_large(numerator: nat, denominator: nat, exponent: int) -> Binary32
    decreases numerator - denominator,
{
    if denominator > 0 && numerator >= denominator * 0x100_0000 {
        nearest_of_large(numerator, 2 * denominator, exponent + 1)
    } else {
        rounded_quotient(numerator, denominator, exponent)
    }
}

/// The nearest value of a quotient below `2^23` that is not zero.
pub open spec fn nearest_of_small(numerator: nat, denominator: nat, exponent: int) -> Binary32
    decreases 2 * denominator * 0x80_0000 - numerator,
{
    if 0 < numerator < denominator * 0x80_0000 {
        nearest_of_small(2 * numerator, denominator, exponent - 1)
    } else {
        rounded_quotient(numerator, denominator, exponent)
    }
}

/// The value nearest to `numerator / denominator * 2^exponent`.
pub open spec fn nearest(numerator: nat, denominator: nat, exponent: int) -> Binary32 {
    if numerator == 0 {
        zero()
    } else if numerator < denominator * 0x80_0000 {
        nearest_of_small(numerator, denominator, exponent)
    } else {
        nearest_of_large(numerator, denominator, exponent)
    }
}

/// The value nearest to a whole number.
pub open spec fn of_int(number: nat) -> Binary32 {
    nearest(number, 1, 0)
}

/// The value nearest to `a / b`.
pub open spec fn quotient(a: Binary32, b: Binary32) -> Binary32 {
    nearest(a.significand, b.significand, a.exponent - b.exponent)
}

/// The value nearest to `a * b`.
pub open spec fn product(a: Binary32, b: Binary32) -> Binary32 {
    nearest(a.significand * b.significand, 1, a.exponent + b.exponent)
}

/// `root` is the largest whole number whose square is at most `number`.
pub open spec fn is_floor_root(root: nat, number: nat) -> bool {
    root * root <= number < (root + 1) * (root + 1)
}

/// The largest whole number whose square is at most `number`.
pub open spec fn floor_root(number: nat) -> nat {
    choose|root: nat| is_floor_root(root, number)
}

/// `a` as `(m, t)` with `a == m * 4^t`, where `m` has 47 or 48 bits.
pub open spec fn radicand(a: Binary32) -> (nat, int) {
    if (a.exponent - 23) % 2 == 0 {
        (a.significand * 0x80_0000, (a.exponent - 23) / 2)
    } else {
        (a.significand * 0x100_0000, (a.exponent - 24) / 2)
    }
}

/// The value nearest to the square root of `a`.
pub open spec fn square_root(a: Binary32) -> Binary32 {
    if a.significand == 0 {
        zero()
    } else {
        let (m, t) = radicand(a);
        let root = floor_root(m);
        // `m` is past the middle between `root` and `root + 1` squared when it exceeds
        // `root^2 + root + 1/4`.
        if m > root * root + root {
            Binary32 { significand: root + 1, exponent: t }
        } else {
            Binary32 { significand: root, exponent: t }
        }
    }
}

/// The smallest whole number that is at least `a`.
pub open spec fn ceiling(a: Binary32) -> nat {
    if a.exponent >= 0 {
        a.significand * pow2(a.exponent as nat)
    } else {
        let unit = pow2((-a.exponent) as nat);
        (a.significand + unit - 1) as nat / unit
    }
}

/// The whole number nearest to `a`, and the larger one where two are equally near.
pub open spec fn rounded(a: Binary32) -> nat {
    if a.exponent >= 0 {
        a.significand * pow2(a.exponent as nat)
    } else {
        let unit = pow2((-a.exponent) as nat);
        (2 * a.significand + unit) / (2 * unit)
    }
}

/// `a > b`.
pub open spec fn exceeds(a: Binary32, b: Binary32) -> bool {
    if a.exponent >= b.exponent {
        a.significand * pow2((a.exponent - b.exponent) as nat) > b.significand
    } else {
        a.significand > b.significand * pow2((b.exponent - a.exponent) as nat)
    }
}

proof fn lemma_quotient_bounds(numerator: nat, denominator: nat)
    requires
        denominator > 0,
        denominator * 0x80_0000 <= numerator < denominator * 0x100_0000,
    ensures
        0x80_0000 <= numerator / denominator < 0x100_0000,
{
    let q = numerator / denominator;
    assert(numerator == denominator * q + numerator % denominator && 0 <= numerator % denominator
        < denominator) by (nonlinear_arith)
        requires
            denominator > 0,
            q == numerator / denominator,
    ;
    assert(0x80_0000 <= q) by (nonlinear_arith)
        requires
            numerator < denominator * q + denominator,
            denominator * 0x80_0000 <= numerator,
            denominator > 0,
    ;
    assert(q < 0x100_0000) by (nonlinear_arith)
        requires
            denominator * q <= numerator,
            numerator < denominator * 0x100_0000,
            denominator > 0,
    ;
}

/// The smaller of two powers of two has the smaller exponent.
proof fn lemma_power_bound(count: nat, limit: nat)
    requires
        pow2(count) < pow2(limit),
    ensures
        count < limit,
{
    if count >= limit {
        if count > limit {
            lemma_pow2_strictly_increases(limit, count);
        }
    }
}

/// Rounds `numerator / denominator * 2^exponent` to the nearest value.
fn round_to_nearest(numerator: u128, denominator: u128, exponent: i32) -> (value: Single)
    requires
        numerator < 0x1_0000_0000_0000_0000,
        0 < denominator < 0x100_0000,
        -1000 <= exponent <= 1000,
    ensures
        value@ == nearest(numerator as nat, denominator as nat, exponent as int),
        value@.normal(),
        numerator == 0 <==> value@.significand == 0,
        numerator > 0 ==> value@.exponent >= exponent - 48,
        numerator > 0 && denominator == 1 ==> value@.exponent >= exponent - 24,
        numerator >= 0x80_0000 ==> value@.exponent >= exponent - 25,
        numerator > 0 && numerator < denominator * 0x80_0000 ==> value@.exponent <= exponent,
        forall|bits: nat|
            numerator > 0 && bits >= 23 && numerator < #[trigger] pow2(bits) ==> value@.exponent
                <= exponent + bits - 22,
{
    if numerator == 0 {
        return Single { significand: 0, exponent: 0 };
    }
    let mut n: u128 = numerator;
    let mut d: u128 = denominator;
    let mut e: i32 = exponent;
    let ghost mut steps: nat = 0;
    proof {
        lemma2_to64();
        lemma2_to64_rest();
    }
    if n < d * 0x80_0000 {
        while n < d * 0x80_0000
            invariant
                -1000 <= exponent <= 1000,
                0 < n < 2 * d * 0x80_0000,
                0 < d < 0x100_0000,
                d == denominator,
                0 < numerator < 0x1_0000_0000_0000_0000,
                n == numerator * pow2(steps),
                e == exponent - steps,
                steps <= 64,
                n < d * 0x80_0000 || steps > 0,
                nearest_of_small(n as nat, d as nat, e as int) == nearest(
                    numerator as nat,
                    denominator as nat,
                    exponent as int,
                ),
            decreases 2 * d * 0x80_0000 - n,
        {
            proof {
                lemma2_to64_rest();
                lemma_pow2_unfold(steps + 1);
                assert(numerator * pow2(steps) >= pow2(steps)) by (nonlinear_arith)
                    requires
                        numerator >= 1,
                        pow2(steps) >= 0,
                ;
                lemma_power_bound(steps, 63);
                assert(numerator * (2 * pow2(steps)) == 2 * (numerator * pow2(steps)))
                    by (nonlinear_arith);
                steps = steps + 1;
            }
            n = n * 2;
            e = e - 1;
        }
        proof {
            lemma2_to64();
            lemma2_to64_rest();
            let power = pow2(steps);
            assert(numerator * power >= power) by (nonlinear_arith)
                requires
                    numerator >= 1,
                    power >= 0,
            ;
            lemma_power_bound(steps, 48);
            if denominator == 1 {
                lemma_power_bound(steps, 24);
            }
            if numerator >= 0x80_0000 {
                assert(power * 0x80_0000 <= numerator * power) by (nonlinear_arith)
                    requires
                        numerator >= 0x80_0000,
                        power >= 0,
                ;
                lemma_power_bound(steps, 25);
            }
        }
        assert(nearest_of_small(n as nat, d as nat, e as int) == rounded_quotient(
            n as nat,
            d as nat,
            e as int,
        ));
    } else {
        while n >= d * 0x100_0000
            invariant
                -1000 <= exponent <= 1000,
                0 < n < 0x1_0000_0000_0000_0000,
                0 < d < 0x1_0000_0000_0000_0000,
                n >= d * 0x80_0000,
                d >= pow2(steps),
                e == exponent + steps,
                steps <= 64,
                nearest_of_large(n as nat, d as nat, e as int) == nearest(
                    numerator as nat,
                    denominator as nat,
                    exponent as int,
                ),
            decreases n - d,
        {
            proof {
                lemma_pow2_unfold(steps + 1);
                lemma2_to64_rest();
                lemma_power_bound(steps, 63);
                steps = steps + 1;
            }
            d = d * 2;
            e = e + 1;
        }
        proof {
            lemma2_to64();
            assert forall|bits: nat|
                bits >= 23 && numerator < #[trigger] pow2(bits) implies steps + 23 < bits by {
                lemma_pow2_adds(steps, 23);
                lemma_power_bound(steps + 23, bits);
            }
        }
        assert(nearest_of_large(n as nat, d as nat, e as int) == rounded_quotient(
            n as nat,
            d as nat,
            e as int,
        ));
    }
    proof {
        lemma_quotient_bounds(n as nat, d as nat);
    }
    let quotient: u128 = n / d;
    let remainder: u128 = n % d;
    let up: bool = 2 * remainder > d || (2 * remainder == d && quotient % 2 == 1);
    let significand: u128 = if up {
        quotient + 1
    } else {
        quotient
    };
    if significand == 0x100_0000 {
        Single { significand: 0x80_0000, exponent: e + 1 }
    } else {
        Single { significand: significand as u32, exponent: e }
    }
}


proof fn lemma_floor_root_unique(root: nat, number: nat)
    requires
        is_floor_root(root, number),
    ensures
        floor_root(number) == root,
{
    let other = floor_root(number);
    assert(is_floor_root(other, number));
    assert(other == root) by (nonlinear_arith)
        requires
            root * root <= number < (root + 1) * (root + 1),
            other * other <= number < (other + 1) * (other + 1),
            root >= 0,
            other >= 0,
    ;
}

/// The root of a number of 47 or 48 bits has 24 bits, also when it is rounded up.
proof fn lemma_root_bounds(root: nat, number: nat)
    requires
        is_floor_root(root, number),
        0x4000_0000_0000 <= number <= 0xff_ffff * 0x100_0000,
    ensures
        0x80_0000 <= root < 0x100_0000,
        number > root * root + root ==> root + 1 < 0x100_0000,
{
    assert(0x80_0000 <= root < 0x100_0000) by (nonlinear_arith)
        requires
            root * root <= number < (root + 1) * (root + 1),
            0x4000_0000_0000 <= number < 0x1_0000_0000_0000,
    ;
    assert(number > root * root + root ==> root + 1 < 0x100_0000) by (nonlinear_arith)
        requires
            0x80_0000 <= root < 0x100_0000,
            number <= 0xff_ffff * 0x100_0000,
    ;
}

/// The largest whole number whose square is at most `number`, found by bisection.
fn integer_root(number: u64) -> (root: u64)
    requires
        number < 0x1_0000_0000_0000,
    ensures
        is_floor_root(root as nat, number as nat),
{
    let mut low: u64 = 0;
    let mut high: u64 = 0x100_0000;
    while high - low > 1
        invariant
            number < 0x1_0000_0000_0000,
            0 <= low < high <= 0x100_0000,
            low * low <= number,
            number < high * high,
        decreases high - low,
    {
        let middle: u64 = low + (high - low) / 2;
        assert(middle * middle <= 0x1_0000_0000_0000) by (nonlinear_arith)
            requires
                0 <= middle <= 0x100_0000,
        ;
        if middle * middle <= number {
            low = middle;
        } else {
            high = middle;
        }
    }
    low
}

/// `2^count`.
fn power_of_two(count: u32) -> (power: u128)
    requires
        count <= 90,
    ensures
        power == pow2(count as nat),
        power <= 0x400_0000_0000_0000_0000_0000,
{
    let mut power: u128 = 1;
    let mut done: u32 = 0;
    proof {
        lemma2_to64();
        assert(pow2(90) == 0x400_0000_0000_0000_0000_0000) by {
            lemma2_to64_rest();
            lemma_pow2_adds(60, 30);
        }
    }
    while done < count
        invariant
            done <= count <= 90,
            power == pow2(done as nat),
            pow2(90) == 0x400_0000_0000_0000_0000_0000,
        decreases count - done,
    {
        proof {
            lemma_pow2_unfold((done + 1) as nat);
            if done + 1 < 90 {
                lemma_pow2_strictly_increases((done + 1) as nat, 90);
            }
        }
        power = power * 2;
        done += 1;
    }
    proof {
        if count < 90 {
            lemma_pow2_strictly_increases(count as nat, 90);
        }
    }
    power
}

impl Single {
    /// The value nearest to a whole number.
    pub fn from_int(number: u64) -> (value: Single)
        ensures
            value@ == of_int(number as nat),
            value@.within(42),
            value@.exponent >= -24,
            number == 0 <==> value@.significand == 0,
            number < 0x1_0000_0000 ==> value@.exponent <= 10,
            number < 0x80_0000 ==> value@.exponent <= 0,
    {
        proof {
            lemma2_to64();
            lemma2_to64_rest();
            assert(number < pow2(64));
        }
        round_to_nearest(number as u128, 1, 0)
    }

    /// The value nearest to `self / divisor`.
    pub fn divide(self, divisor: Single) -> (value: Single)
        requires
            self@.within(400),
            divisor@.within(400),
            divisor@.significand > 0,
        ensures
            value@ == quotient(self@, divisor@),
            value@.normal(),
            self@.significand == 0 <==> value@.significand == 0,
            value@.significand > 0 ==> self@.exponent - divisor@.exponent - 25 <= value@.exponent
                <= self@.exponent - divisor@.exponent,
    {
        round_to_nearest(
            self.significand as u128,
            divisor.significand as u128,
            self.exponent - divisor.exponent,
        )
    }

    /// The value nearest to `self * factor`.
    pub fn multiply(self, factor: Single) -> (value: Single)
        requires
            self@.within(400),
            factor@.within(400),
        ensures
            value@ == product(self@, factor@),
            value@.normal(),
            value@.significand > 0 ==> self@.exponent + factor@.exponent - 25 <= value@.exponent
                <= self@.exponent + factor@.exponent + 26,
    {
        proof {
            lemma2_to64();
            lemma2_to64_rest();
        }
        assert(0 <= self.significand * factor.significand < 0x1_0000_0000_0000) by (nonlinear_arith)
            requires
                0 <= self.significand < 0x100_0000,
                0 <= factor.significand < 0x100_0000,
        ;
        assert(self.significand * factor.significand == 0 || self.significand * factor.significand
            >= 0x80_0000) by (nonlinear_arith)
            requires
                self.significand == 0 || self.significand >= 0x80_0000,
                factor.significand == 0 || factor.significand >= 0x80_0000,
        ;
        assert(self.significand * factor.significand < pow2(48));
        round_to_nearest(
            self.significand as u128 * factor.significand as u128,
            1,
            self.exponent + factor.exponent,
        )
    }

    /// The value nearest to the square root of `self`.
    pub fn sqrt(self) -> (value: Single)
        requires
            self@.within(400),
        ensures
            value@ == square_root(self@),
            value@.within(212),
            value@.significand > 0 ==> 2 * value@.exponent <= self@.exponent - 23,
    {
        if self.significand == 0 {
            return Single { significand: 0, exponent: 0 };
        }
        let biased: u32 = (self.exponent - 23 + 1024) as u32;
        let even: bool = biased % 2 == 0;
        let m: u64 = if even {
            self.significand as u64 * 0x80_0000
        } else {
            self.significand as u64 * 0x100_0000
        };
        let t: i32 = if even {
            (biased / 2) as i32 - 512
        } else {
            ((biased - 1) / 2) as i32 - 512
        };
        let root: u64 = integer_root(m);
        proof {
            lemma_floor_root_unique(root as nat, m as nat);
            lemma_root_bounds(root as nat, m as nat);
            assert(root * root + root <= 0x1_0000_0000_0000) by (nonlinear_arith)
                requires
                    0 <= root < 0x100_0000,
            ;
        }
        if m > root * root + root {
            Single { significand: (root + 1) as u32, exponent: t }
        } else {
            Single { significand: root as u32, exponent: t }
        }
    }

    /// The smallest whole number that is at least `self`.
    pub fn ceil(self) -> (number: u128)
        requires
            self@.within(400),
            self@.exponent <= 90,
        ensures
            number == ceiling(self@),
    {
        if self.exponent >= 0 {
            let power: u128 = power_of_two(self.exponent as u32);
            assert(self.significand * power <= 0xff_ffff * 0x400_0000_0000_0000_0000_0000)
                by (nonlinear_arith)
                requires
                    0 <= self.significand <= 0xff_ffff,
                    0 <= power <= 0x400_0000_0000_0000_0000_0000,
            ;
            self.significand as u128 * power
        } else if self.exponent >= -90 {
            let unit: u128 = power_of_two((-self.exponent) as u32);
            proof {
                lemma_pow2_pos((-self.exponent) as nat);
            }
            (self.significand as u128 + unit - 1) / unit
        } else {
            proof {
                lemma_tiny(self@);
            }
            1
        }
    }

    /// The whole number nearest to `self`, and the larger one where two are equally near.
    pub fn round(self) -> (number: u128)
        requires
            self@.within(400),
            self@.exponent <= 90,
        ensures
            number == rounded(self@),
    {
        if self.exponent >= 0 {
            let power: u128 = power_of_two(self.exponent as u32);
            assert(self.significand * power <= 0xff_ffff * 0x400_0000_0000_0000_0000_0000)
                by (nonlinear_arith)
                requires
                    0 <= self.significand <= 0xff_ffff,
                    0 <= power <= 0x400_0000_0000_0000_0000_0000,
            ;
            self.significand as u128 * power
        } else if self.exponent >= -90 {
            let unit: u128 = power_of_two((-self.exponent) as u32);
            proof {
                lemma_pow2_pos((-self.exponent) as nat);
            }
            (2 * self.significand as u128 + unit) / (2 * unit)
        } else {
            proof {
                lemma_tiny(self@);
            }
            0
        }
    }

    /// Whether `self` is greater than `other`.
    pub fn greater(self, other: Single) -> (result: bool)
        requires
            self@.within(400),
            other@.within(400),
        ensures
            result == exceeds(self@, other@),
    {
        proof {
            lemma_order(self@, other@);
        }
        if self.significand == 0 {
            false
        } else if other.significand == 0 {
            true
        } else if self.exponent != other.exponent {
            self.exponent > other.exponent
        } else {
            self.significand > other.significand
        }
    }
}

/// A value below `2^-60` rounds up to one and to the nearest whole number zero.
proof fn lemma_tiny(a: Binary32)
    requires
        a.normal(),
        a.exponent < -90,
    ensures
        ceiling(a) == 1,
        rounded(a) == 0,
{
    let unit = pow2((-a.exponent) as nat);
    lemma2_to64();
    lemma_pow2_strictly_increases(32, (-a.exponent) as nat);
    assert((a.significand + unit - 1) / (unit as int) == 1) by (nonlinear_arith)
        requires
            0 < a.significand < unit,
    ;
    assert((2 * a.significand + unit) / (2 * unit) == 0) by (nonlinear_arith)
        requires
            2 * a.significand < unit,
    ;
}

/// Normal values are ordered by exponent first, then by significand.
proof fn lemma_order(a: Binary32, b: Binary32)
    requires
        a.normal(),
        b.normal(),
    ensures
        exceeds(a, b) == if a.significand == 0 {
            false
        } else if b.significand == 0 {
            true
        } else if a.exponent != b.exponent {
            a.exponent > b.exponent
        } else {
            a.significand > b.significand
        },
{
    lemma2_to64();
    if a.exponent >= b.exponent {
        let shift = (a.exponent - b.exponent) as nat;
        let power = pow2(shift);
        lemma_pow2_pos(shift);
        if shift > 0 {
            lemma_pow2_unfold(shift);
            lemma_pow2_pos((shift - 1) as nat);
        }
        assert(a.significand == 0 ==> a.significand * power == 0) by (nonlinear_arith);
        assert(a.significand * power >= a.significand * 2 || power < 2) by (nonlinear_arith)
            requires
                a.significand >= 0,
                power >= 0,
        ;
        assert(power == 1 ==> a.significand * power == a.significand) by (nonlinear_arith);
    } else {
        let shift = (b.exponent - a.exponent) as nat;
        let power = pow2(shift);
        lemma_pow2_unfold(shift);
        lemma_pow2_pos((shift - 1) as nat);
        assert(b.significand == 0 ==> b.significand * power == 0) by (nonlinear_arith);
        assert(b.significand * power >= b.significand * 2) by (nonlinear_arith)
            requires
                b.significand >= 0,
                power >= 2,
        ;
    }
}

/// Zero is greater than no value.
pub proof fn lemma_zero_exceeds_nothing(a: Binary32, b: Binary32)
    requires
        a.significand == 0,
    ensures
        !exceeds(a, b),
{
    if a.exponent >= b.exponent {
        let power = pow2((a.exponent - b.exponent) as nat);
        assert(a.significand * power == 0) by (nonlinear_arith)
            requires
                a.significand == 0,
        ;
    } else {
        let power = pow2((b.exponent - a.exponent) as nat);
        assert(b.significand * power >= 0) by (nonlinear_arith)
            requires
                b.significand >= 0,
                power >= 0,
        ;
    }
}

/// `a <= b`, for normal values.
pub open spec fn at_most(a: Binary32, b: Binary32) -> bool {
    ||| a.significand == 0
    ||| b.significand > 0 && a.exponent < b.exponent
    ||| b.significand > 0 && a.exponent == b.exponent && a.significand <= b.significand
}

/// `numerator / denominator * 2^exponent <= value`.
spec fn bounded(numerator: nat, denominator: nat, exponent: int, value: Binary32) -> bool {
    if exponent >= value.exponent {
        numerator * pow2((exponent - value.exponent) as nat) <= denominator * value.significand
    } else {
        numerator <= denominator * value.significand * pow2((value.exponent - exponent) as nat)
    }
}

proof fn lemma_rounded_quotient_bounded(
    numerator: nat,
    denominator: nat,
    exponent: int,
    value: Binary32,
)
    requires
        denominator > 0,
        denominator * 0x80_0000 <= numerator < denominator * 0x100_0000,
        value.normal(),
        value.significand > 0,
        bounded(numerator, denominator, exponent, value),
    ensures
        at_most(rounded_quotient(numerator, denominator, exponent), value),
{
    lemma_quotient_bounds(numerator, denominator);
    let q = numerator / denominator;
    let r = numerator % denominator;
    let s = value.significand;
    assert(numerator == denominator * q + r && 0 <= r < denominator) by (nonlinear_arith)
        requires
            denominator > 0,
            q == numerator / denominator,
            r == numerator % denominator,
    ;
    if exponent > value.exponent {
        let shift = (exponent - value.exponent) as nat;
        let power = pow2(shift);
        lemma_pow2_unfold(shift);
        lemma_pow2_pos((shift - 1) as nat);
        assert(false) by (nonlinear_arith)
            requires
                numerator * power <= denominator * s,
                denominator * 0x80_0000 <= numerator,
                power >= 2,
                s < 0x100_0000,
                denominator > 0,
        ;
    } else if exponent == value.exponent {
        lemma2_to64();
        let power = pow2(0);
        assert(numerator * power == numerator) by (nonlinear_arith)
            requires
                power == 1,
        ;
        assert(q <= s && (q == s ==> r == 0)) by (nonlinear_arith)
            requires
                numerator <= denominator * s,
                numerator == denominator * q + r,
                0 <= r,
                denominator > 0,
        ;
    }
}

proof fn lemma_nearest_of_small_bounded(
    numerator: nat,
    denominator: nat,
    exponent: int,
    value: Binary32,
)
    requires
        denominator > 0,
        0 < numerator < denominator * 0x100_0000,
        value.normal(),
        value.significand > 0,
        bounded(numerator, denominator, exponent, value),
    ensures
        at_most(nearest_of_small(numerator, denominator, exponent), value),
    decreases 2 * denominator * 0x80_0000 - numerator,
{
    if numerator < denominator * 0x80_0000 {
        assert(bounded(2 * numerator, denominator, exponent - 1, value)) by {
            lemma2_to64();
            if exponent > value.exponent {
                let shift = (exponent - value.exponent) as nat;
                lemma_pow2_unfold(shift);
                let power = pow2((shift - 1) as nat);
                assert((2 * numerator) * power == numerator * (2 * power)) by (nonlinear_arith);
            } else {
                let shift = (value.exponent - exponent) as nat;
                lemma_pow2_unfold(shift + 1);
                let power = pow2(shift);
                let top = denominator * value.significand;
                assert(2 * (top * power) == top * (2 * power)) by (nonlinear_arith);
                if exponent == value.exponent {
                    assert(numerator * power == numerator && top * power == top)
                        by (nonlinear_arith)
                        requires
                            power == 1,
                    ;
                }
            }
        }
        lemma_nearest_of_small_bounded(2 * numerator, denominator, exponent - 1, value);
    } else {
        lemma_rounded_quotient_bounded(numerator, denominator, exponent, value);
    }
}

proof fn lemma_nearest_of_large_bounded(
    numerator: nat,
    denominator: nat,
    exponent: int,
    value: Binary32,
)
    requires
        denominator > 0,
        numerator >= denominator * 0x80_0000,
        value.normal(),
        value.significand > 0,
        bounded(numerator, denominator, exponent, value),
    ensures
        at_most(nearest_of_large(numerator, denominator, exponent), value),
    decreases numerator - denominator,
{
    if numerator >= denominator * 0x100_0000 {
        assert(bounded(numerator, 2 * denominator, exponent + 1, value)) by {
            lemma2_to64();
            let s = value.significand;
            if exponent >= value.exponent {
                let shift = (exponent - value.exponent) as nat;
                lemma_pow2_unfold(shift + 1);
                let power = pow2(shift);
                assert(numerator * (2 * power) == 2 * (numerator * power)) by (nonlinear_arith);
                assert((2 * denominator) * s == 2 * (denominator * s)) by (nonlinear_arith);
            } else {
                let shift = (value.exponent - exponent) as nat;
                lemma_pow2_unfold(shift);
                let power = pow2((shift - 1) as nat);
                assert((2 * denominator) * s * power == denominator * s * (2 * power))
                    by (nonlinear_arith);
                if shift == 1 {
                    assert(numerator * power == numerator && (2 * denominator) * s * power == (2
                        * denominator) * s) by (nonlinear_arith)
                        requires
                            power == 1,
                    ;
                }
            }
        }
        lemma_nearest_of_large_bounded(numerator, 2 * denominator, exponent + 1, value);
    } else {
        lemma_rounded_quotient_bounded(numerator, denominator, exponent, value);
    }
}

/// Rounding does not pass a value: what lies at or below one still does when it is rounded.
proof fn lemma_nearest_bounded(
    numerator: nat,
    denominator: nat,
    exponent: int,
    value: Binary32,
)
    requires
        denominator > 0,
        value.normal(),
        value.significand > 0,
        bounded(numerator, denominator, exponent, value),
    ensures
        at_most(nearest(numerator, denominator, exponent), value),
{
    if numerator > 0 {
        if numerator < denominator * 0x80_0000 {
            lemma_nearest_of_small_bounded(numerator, denominator, exponent, value);
        } else {
            lemma_nearest_of_large_bounded(numerator, denominator, exponent, value);
        }
    }
}

/// The value of a whole number below `2^23` is that number: its significand is the number times
/// the power of two that its exponent takes away.
proof fn lemma_of_int_exact_from(number: nat, steps: nat)
    requires
        0 < number * pow2(steps) < 0x100_0000,
        number < 0x80_0000,
        steps > 0 || number * pow2(steps) < 0x80_0000,
    ensures
        ({
            let value = nearest_of_small(number * pow2(steps), 1, -(steps as int));
            &&& value.normal()
            &&& value.exponent <= -1
            &&& value.significand == number * pow2((-value.exponent) as nat)
        }),
    decreases 0x100_0000 - number * pow2(steps),
{
    let scaled = number * pow2(steps);
    if scaled < 0x80_0000 {
        lemma_pow2_unfold(steps + 1);
        let power = pow2(steps);
        assert(number * (2 * power) == 2 * (number * power)) by (nonlinear_arith);
        lemma_of_int_exact_from(number, steps + 1);
        assert(nearest_of_small(scaled, 1, -(steps as int)) == nearest_of_small(
            2 * scaled,
            1,
            -(steps as int) - 1,
        ));
    } else {
        assert(scaled / 1 == scaled && scaled % 1 == 0);
    }
}

/// Whole numbers below `2^23` are held exactly.
pub proof fn law_whole_numbers_are_exact(number: nat)
    requires
        0 < number < 0x80_0000,
    ensures
        of_int(number).normal(),
        of_int(number).exponent < 0,
        of_int(number).significand == number * pow2((-of_int(number).exponent) as nat),
{
    lemma2_to64();
    assert(number * pow2(0) == number) by (nonlinear_arith)
        requires
            pow2(0) == 1,
    ;
    lemma_of_int_exact_from(number, 0);
}

/// A value that is at most a whole number rounds to at most that number.
proof fn lemma_rounded_at_most(a: Binary32, number: nat)
    requires
        0 < number < 0x80_0000,
        a.normal(),
        at_most(a, of_int(number)),
    ensures
        rounded(a) <= number,
{
    law_whole_numbers_are_exact(number);
    let b = of_int(number);
    let unit = pow2((-b.exponent) as nat);
    lemma_pow2_pos((-b.exponent) as nat);
    lemma2_to64();
    if a.significand == 0 {
        assert((2 * 0 + 1) / 2 == 0);
    } else if a.exponent == b.exponent {
        assert((2 * a.significand + unit) / (2 * unit) <= number) by (nonlinear_arith)
            requires
                a.significand <= number * unit,
                unit > 0,
        ;
    } else {
        let small = pow2((-a.exponent) as nat);
        let gap = (b.exponent - a.exponent) as nat;
        lemma_pow2_adds((-b.exponent) as nat, gap);
        lemma_pow2_unfold(gap);
        lemma_pow2_pos((gap - 1) as nat);
        let more = pow2(gap);
        assert(2 * unit <= small && number * (2 * unit) <= number * small) by (nonlinear_arith)
            requires
                small == unit * more,
                more >= 2,
                unit >= 0,
                number >= 0,
        ;
        assert(number * (2 * unit) == 2 * (number * unit)) by (nonlinear_arith);
        assert(a.significand <= number * small);
        assert((2 * a.significand + small) / (2 * small) <= number) by (nonlinear_arith)
            requires
                a.significand <= number * small,
                small > 0,
        ;
    }
}

/// A number scaled by a quotient of at most one, and rounded, does not grow.
pub proof fn law_scaling_down_shrinks(number: nat, part: nat, whole: nat)
    requires
        0 < number < 0x80_0000,
        0 < part <= whole < 0x80_0000,
    ensures
        rounded(product(of_int(number), quotient(of_int(part), of_int(whole)))) <= number,
{
    let a = of_int(part);
    let b = of_int(whole);
    let n = of_int(number);
    let one = Binary32 { significand: 0x80_0000, exponent: -23 };
    law_whole_numbers_are_exact(part);
    law_whole_numbers_are_exact(whole);
    law_whole_numbers_are_exact(number);
    lemma2_to64();
    lemma_int_order(part, whole);
    let q = quotient(a, b);
    assert(bounded(a.significand, b.significand, a.exponent - b.exponent, one)) by {
        let e = a.exponent - b.exponent;
        if e >= -23 {
            let power = pow2((e + 23) as nat);
            if e == 0 {
                assert(power == 0x80_0000);
            } else {
                lemma_pow2_adds((e + 23) as nat, (-e) as nat);
                lemma_pow2_unfold((-e) as nat);
                lemma_pow2_pos((-e - 1) as nat);
                let rest = pow2((-e) as nat);
                assert(2 * power <= 0x80_0000) by (nonlinear_arith)
                    requires
                        power * rest == 0x80_0000,
                        rest >= 2,
                        power >= 0,
                ;
            }
            assert(a.significand * power <= b.significand * 0x80_0000) by (nonlinear_arith)
                requires
                    e == 0 ==> power == 0x80_0000 && a.significand <= b.significand,
                    e != 0 ==> 2 * power <= 0x80_0000,
                    a.significand <= 2 * b.significand,
                    power >= 0,
            ;
        } else {
            let power = pow2((-23 - e) as nat);
            lemma_pow2_pos((-23 - e) as nat);
            assert(a.significand <= b.significand * 0x80_0000 * power) by (nonlinear_arith)
                requires
                    a.significand <= 2 * b.significand,
                    power >= 1,
                    b.significand >= 0,
            ;
        }
    }
    lemma_nearest_bounded(a.significand, b.significand, a.exponent - b.exponent, one);
    lemma_nearest_normal(a.significand, b.significand, a.exponent - b.exponent);
    let p = product(n, q);
    lemma_nearest_normal(n.significand * q.significand, 1, n.exponent + q.exponent);
    if q.significand > 0 {
        assert(bounded(n.significand * q.significand, 1, n.exponent + q.exponent, n)) by {
            let power = pow2((-q.exponent) as nat);
            if q.exponent < -23 {
                lemma_pow2_strictly_increases(23, (-q.exponent) as nat);
                lemma_pow2_unfold((-q.exponent) as nat);
                if q.exponent < -24 {
                    lemma_pow2_strictly_increases(24, (-q.exponent) as nat);
                }
            }
            assert(q.significand <= power);
            assert(n.significand * q.significand <= 1 * n.significand * power) by (nonlinear_arith)
                requires
                    q.significand <= power,
                    n.significand >= 0,
            ;
        }
    } else {
        assert(n.significand * q.significand == 0) by (nonlinear_arith)
            requires
                q.significand == 0,
        ;
    }
    if q.significand > 0 {
        lemma_nearest_bounded(n.significand * q.significand, 1, n.exponent + q.exponent, n);
    }
    lemma_rounded_at_most(p, number);
}

/// A larger whole number has the larger value.
proof fn lemma_int_order(small: nat, large: nat)
    requires
        0 < small <= large < 0x80_0000,
    ensures
        at_most(of_int(small), of_int(large)),
{
    law_whole_numbers_are_exact(small);
    law_whole_numbers_are_exact(large);
    let a = of_int(small);
    let b = of_int(large);
    let x = (-a.exponent) as nat;
    let y = (-b.exponent) as nat;
    lemma_pow2_pos(x);
    lemma_pow2_pos(y);
    if x == y {
        assert(small * pow2(x) <= large * pow2(x)) by (nonlinear_arith)
            requires
                small <= large,
                pow2(x) >= 0,
        ;
    } else if x < y {
        lemma_pow2_adds(x, (y - x) as nat);
        lemma_pow2_unfold((y - x) as nat);
        lemma_pow2_pos((y - x - 1) as nat);
        assert(false) by (nonlinear_arith)
            requires
                a.significand == small * pow2(x),
                b.significand == large * pow2(y),
                pow2(y) == pow2(x) * pow2((y - x) as nat),
                pow2((y - x) as nat) >= 2,
                pow2(x) >= 1,
                small <= large,
                a.significand >= 0x80_0000,
                b.significand < 0x100_0000,
                small >= 1,
        ;
    }
}

/// What rounding gives is normal.
proof fn lemma_nearest_normal(numerator: nat, denominator: nat, exponent: int)
    requires
        denominator > 0,
    ensures
        nearest(numerator, denominator, exponent).normal(),
        numerator == 0 ==> nearest(numerator, denominator, exponent).significand == 0,
{
    if numerator == 0 {
    } else if numerator < denominator * 0x80_0000 {
        lemma_small_normal(numerator, denominator, exponent);
    } else {
        lemma_large_normal(numerator, denominator, exponent);
    }
}

proof fn lemma_small_normal(numerator: nat, denominator: nat, exponent: int)
    requires
        denominator > 0,
        0 < numerator < denominator * 0x100_0000,
    ensures
        nearest_of_small(numerator, denominator, exponent).normal(),
    decreases 2 * denominator * 0x80_0000 - numerator,
{
    if numerator < denominator * 0x80_0000 {
        lemma_small_normal(2 * numerator, denominator, exponent - 1);
    } else {
        lemma_quotient_bounds(numerator, denominator);
    }
}

proof fn lemma_large_normal(numerator: nat, denominator: nat, exponent: int)
    requires
        denominator > 0,
        numerator >= denominator * 0x80_0000,
    ensures
        nearest_of_large(numerator, denominator, exponent).normal(),
    decreases numerator - denominator,
{
    if numerator >= denominator * 0x100_0000 {
        lemma_large_normal(numerator, 2 * denominator, exponent + 1);
    } else {
        lemma_quotient_bounds(numerator, denominator);
    }
}

/// How often a quotient below `2^23` is doubled until it is not.
spec fn doublings(numerator: nat, denominator: nat) -> nat
    decreases 2 * denominator * 0x80_0000 - numerator,
{
    if 0 < numerator < denominator * 0x80_0000 {
        1 + doublings(2 * numerator, denominator)
    } else {
        0
    }
}

/// Rounding a quotient adds at most half a unit: `whole`, which is the significand or twice it,
/// is what the doubled quotient was rounded to.
proof fn lemma_small_error(numerator: nat, denominator: nat, exponent: int) -> (whole: nat)
    requires
        denominator > 0,
        0 < numerator < denominator * 0x100_0000,
    ensures
        ({
            let value = nearest_of_small(numerator, denominator, exponent);
            let count = doublings(numerator, denominator);
            let scaled = numerator * pow2(count);
            &&& denominator * 0x80_0000 <= scaled
            &&& 2 * (denominator * whole) <= 2 * scaled + denominator
            &&& {
                ||| value.exponent == exponent - count && whole == value.significand
                ||| value.exponent == exponent - count + 1 && whole == 2 * value.significand
            }
        }),
    decreases 2 * denominator * 0x80_0000 - numerator,
{
    if numerator < denominator * 0x80_0000 {
        let whole = lemma_small_error(2 * numerator, denominator, exponent - 1);
        let count = doublings(2 * numerator, denominator);
        lemma_pow2_unfold(count + 1);
        let power = pow2(count);
        assert((2 * numerator) * power == numerator * (2 * power)) by (nonlinear_arith);
        whole
    } else {
        lemma2_to64();
        let power = pow2(0);
        assert(numerator * power == numerator) by (nonlinear_arith)
            requires
                power == 1,
        ;
        lemma_quotient_bounds(numerator, denominator);
        let q = numerator / denominator;
        let r = numerator % denominator;
        assert(numerator == denominator * q + r && 0 <= r < denominator) by (nonlinear_arith)
            requires
                denominator > 0,
                q == numerator / denominator,
                r == numerator % denominator,
        ;
        let up = 2 * r > denominator || (2 * r == denominator && q % 2 == 1);
        let whole = if up {
            q + 1
        } else {
            q
        };
        assert(2 * (denominator * whole) <= 2 * numerator + denominator) by (nonlinear_arith)
            requires
                whole == q + 1 && 2 * r >= denominator || whole == q && r >= 0,
                numerator == denominator * q + r,
        ;
        whole
    }
}

/// `numerator * 2^-places <= value`, where `value` has the exponent `-value_places`, if it holds
/// of the whole numbers.
proof fn lemma_bounded_below_one(numerator: nat, places: nat, value: Binary32, value_places: nat)
    requires
        value.exponent == -(value_places as int),
        numerator * pow2(value_places) <= value.significand * pow2(places),
    ensures
        bounded(numerator, 1, -(places as int), value),
{
    lemma_pow2_pos(places);
    lemma_pow2_pos(value_places);
    let s = value.significand;
    if places <= value_places {
        let gap = (value_places - places) as nat;
        lemma_pow2_adds(places, gap);
        let p = pow2(places);
        let q = pow2(gap);
        assert(numerator * q <= 1 * s) by (nonlinear_arith)
            requires
                numerator * (p * q) <= s * p,
                p > 0,
        ;
    } else {
        let gap = (places - value_places) as nat;
        lemma_pow2_adds(value_places, gap);
        let p = pow2(value_places);
        let q = pow2(gap);
        assert(numerator <= 1 * s * q) by (nonlinear_arith)
            requires
                numerator * p <= s * (p * q),
                p > 0,
        ;
    }
}

/// A value that is at most `number` and a quarter rounds to at most `number`.
proof fn lemma_rounded_below_quarter(a: Binary32, number: nat, quarter: Binary32, places: nat)
    requires
        a.normal(),
        quarter.normal(),
        quarter.exponent == -(places as int) - 2,
        quarter.significand == (4 * number + 1) * pow2(places),
        at_most(a, quarter),
    ensures
        rounded(a) <= number,
{
    let power = pow2(places);
    lemma_pow2_pos(places);
    if a.significand == 0 {
        lemma2_to64();
        if a.exponent < 0 {
            let unit = pow2((-a.exponent) as nat);
            lemma_pow2_pos((-a.exponent) as nat);
            assert((2 * 0 + unit) / (2 * unit) == 0) by (nonlinear_arith)
                requires
                    unit > 0,
            ;
        } else {
            assert(0 * pow2(a.exponent as nat) == 0) by (nonlinear_arith);
        }
    } else {
        let unit = pow2((-a.exponent) as nat);
        lemma_pow2_pos((-a.exponent) as nat);
        let gap = (quarter.exponent - a.exponent) as nat;
        lemma_pow2_adds(places, 2);
        lemma_pow2_adds(places + 2, gap);
        lemma2_to64();
        lemma_pow2_pos(gap);
        let more = pow2(gap);
        if gap > 0 {
            lemma_pow2_unfold(gap);
            lemma_pow2_pos((gap - 1) as nat);
        }
        assert(unit == (power * 4) * more);
        assert(4 * a.significand <= (4 * number + 1) * unit) by (nonlinear_arith)
            requires
                unit == (power * 4) * more,
                gap == 0 ==> more == 1 && a.significand <= (4 * number + 1) * power,
                gap > 0 ==> more >= 2 && a.significand <= 2 * ((4 * number + 1) * power),
                power > 0,
                more >= 1,
        ;
        assert((2 * a.significand + unit) / (2 * unit) <= number) by (nonlinear_arith)
            requires
                4 * a.significand <= (4 * number + 1) * unit,
                unit > 0,
        ;
    }
}

/// A part of a whole, scaled down as the whole is to a number, and rounded, is at most that
/// number.
pub proof fn law_scaling_down_meets_the_target(number: nat, target: nat, whole: nat)
    requires
        0 < number <= whole < 0x80_0000,
        0 < target <= whole,
        target <= 0x10_0000,
    ensures
        rounded(product(of_int(number), quotient(of_int(target), of_int(whole)))) <= target,
{
    let a = of_int(target);
    let b = of_int(whole);
    let n = of_int(number);
    law_whole_numbers_are_exact(target);
    law_whole_numbers_are_exact(whole);
    law_whole_numbers_are_exact(number);
    law_whole_numbers_are_exact(4 * target + 1);
    lemma2_to64();
    let x = (-a.exponent) as nat;
    let y = (-b.exponent) as nat;
    let z = (-n.exponent) as nat;
    let e = a.exponent - b.exponent;
    let q = quotient(a, b);
    assert(a.significand < b.significand * 0x80_0000);
    let s = lemma_small_error(a.significand, b.significand, e);
    lemma_nearest_normal(a.significand, b.significand, e);
    let k = doublings(a.significand, b.significand);
    lemma_pow2_pos(y);
    // The number of binary places of the quotient is at least 23.
    lemma_pow2_adds(x, k);
    let scaled = a.significand * pow2(k);
    let xk = pow2(x + k);
    assert(scaled == target * xk) by (nonlinear_arith)
        requires
            scaled == (target * pow2(x)) * pow2(k),
            xk == pow2(x) * pow2(k),
    ;
    if x + k < y + 23 {
        lemma_pow2_adds(y, 23);
        lemma_pow2_strictly_increases(x + k, y + 23);
        assert(false) by (nonlinear_arith)
            requires
                (whole * pow2(y)) * 0x80_0000 <= target * xk,
                xk < pow2(y) * 0x80_0000,
                0 < target <= whole,
        ;
    }
    let m = (x + k - y) as nat;
    let d = pow2(m);
    lemma_pow2_adds(y, m);
    lemma_pow2_pos(m);
    let py = pow2(y);
    assert(2 * (whole * s) <= 2 * (target * d) + whole && whole * 0x80_0000 <= target * d)
        by (nonlinear_arith)
        requires
            2 * ((whole * py) * s) <= 2 * (target * (py * d)) + whole * py,
            (whole * py) * 0x80_0000 <= target * (py * d),
            py > 0,
    ;
    assert(4 * (number * s) <= (4 * target + 1) * d) by (nonlinear_arith)
        requires
            2 * (whole * s) <= 2 * (target * d) + whole,
            whole * 0x80_0000 <= target * d,
            target <= 0x10_0000,
            number <= whole,
            d > 0,
    ;
    let places = (-q.exponent) as nat;
    lemma_pow2_pos(places);
    assert(4 * (number * q.significand) <= (4 * target + 1) * pow2(places)) by {
        if places + 1 == m {
            lemma_pow2_unfold(m);
            let h = pow2(places);
            assert(4 * (number * q.significand) <= (4 * target + 1) * h) by (nonlinear_arith)
                requires
                    4 * (number * (2 * q.significand)) <= (4 * target + 1) * (2 * h),
            ;
        }
    }
    // The product is at most the target and a quarter.
    let t = of_int(4 * target + 1);
    let g = (-t.exponent) as nat;
    let quarter = Binary32 { significand: t.significand, exponent: t.exponent - 2 };
    let numerator = n.significand * q.significand;
    lemma_pow2_adds(g, 2);
    lemma_pow2_adds(z, places);
    assert(numerator * pow2(g + 2) <= quarter.significand * pow2(z + places)) by (nonlinear_arith)
        requires
            numerator == (number * pow2(z)) * q.significand,
            pow2(g + 2) == pow2(g) * 4,
            quarter.significand == (4 * target + 1) * pow2(g),
            pow2(z + places) == pow2(z) * pow2(places),
            4 * (number * q.significand) <= (4 * target + 1) * pow2(places),
            pow2(z) >= 0,
            pow2(g) >= 0,
    ;
    lemma_bounded_below_one(numerator, z + places, quarter, g + 2);
    lemma_nearest_bounded(numerator, 1, n.exponent + q.exponent, quarter);
    lemma_nearest_normal(numerator, 1, n.exponent + q.exponent);
    lemma_rounded_below_quarter(product(n, q), target, quarter, g);
}

/// Two quotients of 24 bits round in their order.
proof fn lemma_rounded_quotient_monotone(small: nat, large: nat, denominator: nat, exponent: int)
    requires
        denominator > 0,
        denominator * 0x80_0000 <= small <= large < denominator * 0x100_0000,
    ensures
        at_most(
            rounded_quotient(small, denominator, exponent),
            rounded_quotient(large, denominator, exponent),
        ),
{
    lemma_quotient_bounds(small, denominator);
    lemma_quotient_bounds(large, denominator);
    vstd::arithmetic::div_mod::lemma_div_is_ordered(
        small as int,
        large as int,
        denominator as int,
    );
    vstd::arithmetic::div_mod::lemma_fundamental_div_mod(small as int, denominator as int);
    vstd::arithmetic::div_mod::lemma_fundamental_div_mod(large as int, denominator as int);
}

proof fn lemma_nearest_of_small_monotone(small: nat, large: nat, denominator: nat, exponent: int)
    requires
        denominator > 0,
        0 < small <= large < denominator * 0x100_0000,
    ensures
        at_most(
            nearest_of_small(small, denominator, exponent),
            nearest_of_small(large, denominator, exponent),
        ),
    decreases 2 * denominator * 0x80_0000 - large,
{
    if large < denominator * 0x80_0000 {
        lemma_nearest_of_small_monotone(2 * small, 2 * large, denominator, exponent - 1);
    } else if small < denominator * 0x80_0000 {
        let between = Binary32 { significand: 0x80_0000, exponent };
        lemma2_to64();
        assert(small * pow2(0) == small) by (nonlinear_arith)
            requires
                pow2(0) == 1,
        ;
        lemma_nearest_of_small_bounded(small, denominator, exponent, between);
        lemma_quotient_bounds(large, denominator);
        assert(at_most(between, rounded_quotient(large, denominator, exponent)));
    } else {
        lemma_rounded_quotient_monotone(small, large, denominator, exponent);
    }
}

/// Rounding a quotient of at least `2^23` does not take its exponent down.
proof fn lemma_large_exponent(numerator: nat, denominator: nat, exponent: int)
    requires
        denominator > 0,
        numerator >= denominator * 0x80_0000,
    ensures
        nearest_of_large(numerator, denominator, exponent).exponent >= exponent,
        nearest_of_large(numerator, denominator, exponent).significand >= 0x80_0000,
    decreases numerator - denominator,
{
    if numerator >= denominator * 0x100_0000 {
        lemma_large_exponent(numerator, 2 * denominator, exponent + 1);
    } else {
        lemma_quotient_bounds(numerator, denominator);
    }
}

proof fn lemma_nearest_of_large_monotone(small: nat, large: nat, denominator: nat, exponent: int)
    requires
        denominator > 0,
        denominator * 0x80_0000 <= small <= large,
    ensures
        at_most(
            nearest_of_large(small, denominator, exponent),
            nearest_of_large(large, denominator, exponent),
        ),
    decreases small - denominator,
{
    if small >= denominator * 0x100_0000 {
        lemma_nearest_of_large_monotone(small, large, 2 * denominator, exponent + 1);
    } else if large >= denominator * 0x100_0000 {
        let between = Binary32 { significand: 0x80_0000, exponent: exponent + 1 };
        lemma2_to64();
        assert(denominator * 0x80_0000 * pow2(1) == denominator * 0x100_0000) by (nonlinear_arith)
            requires
                pow2(1) == 2,
        ;
        lemma_nearest_of_large_bounded(small, denominator, exponent, between);
        lemma_large_exponent(large, 2 * denominator, exponent + 1);
    } else {
        lemma_rounded_quotient_monotone(small, large, denominator, exponent);
    }
}

/// Rounding keeps the order of numbers.
proof fn lemma_nearest_monotone(small: nat, large: nat, denominator: nat, exponent: int)
    requires
        denominator > 0,
        small <= large,
    ensures
        at_most(nearest(small, denominator, exponent), nearest(large, denominator, exponent)),
{
    if small > 0 {
        if large < denominator * 0x80_0000 {
            lemma_nearest_of_small_monotone(small, large, denominator, exponent);
        } else if small < denominator * 0x80_0000 {
            let between = Binary32 { significand: 0x80_0000, exponent };
            lemma2_to64();
            assert(small * pow2(0) == small) by (nonlinear_arith)
                requires
                    pow2(0) == 1,
            ;
            lemma_nearest_of_small_bounded(small, denominator, exponent, between);
            lemma_large_exponent(large, denominator, exponent);
        } else {
            lemma_nearest_of_large_monotone(small, large, denominator, exponent);
        }
    }
}

/// A common factor changes neither quotient nor rounding.
proof fn lemma_rounded_quotient_common(
    numerator: nat,
    denominator: nat,
    exponent: int,
    factor: nat,
)
    requires
        denominator > 0,
        factor > 0,
    ensures
        rounded_quotient(numerator * factor, denominator * factor, exponent) == rounded_quotient(
            numerator,
            denominator,
            exponent,
        ),
{
    let q = numerator as int / denominator as int;
    let r = numerator as int % denominator as int;
    vstd::arithmetic::div_mod::lemma_fundamental_div_mod(numerator as int, denominator as int);
    assert(numerator * factor == q * (denominator * factor) + r * factor && 0 <= r * factor
        < denominator * factor) by (nonlinear_arith)
        requires
            numerator == denominator * q + r,
            0 <= r < denominator,
            factor > 0,
    ;
    vstd::arithmetic::div_mod::lemma_fundamental_div_mod_converse(
        (numerator * factor) as int,
        (denominator * factor) as int,
        q,
        r * factor,
    );
    assert((2 * (r * factor) > denominator * factor) == (2 * r > denominator) && (2 * (r * factor)
        == denominator * factor) == (2 * r == denominator)) by (nonlinear_arith)
        requires
            factor > 0,
    ;
}

/// A common factor keeps a quotient on its side of a limit.
proof fn lemma_limit_common(numerator: nat, denominator: nat, limit: nat, factor: nat)
    requires
        factor > 0,
    ensures
        (numerator * factor < denominator * factor * limit) == (numerator < denominator * limit),
        (numerator * factor > 0) == (numerator > 0),
        (denominator * factor > 0) == (denominator > 0),
{
    assert((numerator * factor < denominator * factor * limit) == (numerator < denominator * limit)
        && (numerator * factor > 0) == (numerator > 0) && (denominator * factor > 0) == (
    denominator > 0)) by (nonlinear_arith)
        requires
            factor > 0,
    ;
}

proof fn lemma_nearest_of_large_common(
    numerator: nat,
    denominator: nat,
    exponent: int,
    factor: nat,
)
    requires
        denominator > 0,
        factor > 0,
    ensures
        nearest_of_large(numerator * factor, denominator * factor, exponent) == nearest_of_large(
            numerator,
            denominator,
            exponent,
        ),
    decreases numerator - denominator,
{
    lemma_limit_common(numerator, denominator, 0x100_0000, factor);
    if numerator >= denominator * 0x100_0000 {
        assert((2 * denominator) * factor == 2 * (denominator * factor)) by (nonlinear_arith);
        lemma_nearest_of_large_common(numerator, 2 * denominator, exponent + 1, factor);
    } else {
        lemma_rounded_quotient_common(numerator, denominator, exponent, factor);
    }
}

proof fn lemma_nearest_of_small_common(
    numerator: nat,
    denominator: nat,
    exponent: int,
    factor: nat,
)
    requires
        denominator > 0,
        factor > 0,
    ensures
        nearest_of_small(numerator * factor, denominator * factor, exponent) == nearest_of_small(
            numerator,
            denominator,
            exponent,
        ),
    decreases 2 * denominator * 0x80_0000 - numerator,
{
    lemma_limit_common(numerator, denominator, 0x80_0000, factor);
    if 0 < numerator < denominator * 0x80_0000 {
        assert((2 * numerator) * factor == 2 * (numerator * factor)) by (nonlinear_arith);
        lemma_nearest_of_small_common(2 * numerator, denominator, exponent - 1, factor);
    } else {
        lemma_rounded_quotient_common(numerator, denominator, exponent, factor);
    }
}

/// A common factor changes nothing.
proof fn lemma_nearest_common(numerator: nat, denominator: nat, exponent: int, factor: nat)
    requires
        denominator > 0,
        factor > 0,
    ensures
        nearest(numerator * factor, denominator * factor, exponent) == nearest(
            numerator,
            denominator,
            exponent,
        ),
{
    lemma_limit_common(numerator, denominator, 0x80_0000, factor);
    lemma_nearest_of_small_common(numerator, denominator, exponent, factor);
    lemma_nearest_of_large_common(numerator, denominator, exponent, factor);
}

/// A power of two may stand in the numerator or in the exponent.
proof fn lemma_nearest_scaled(numerator: nat, denominator: nat, exponent: int, count: nat)
    requires
        denominator > 0,
    ensures
        nearest(numerator * pow2(count), denominator, exponent - count) == nearest(
            numerator,
            denominator,
            exponent,
        ),
    decreases count,
{
    lemma2_to64();
    if count > 0 {
        let less = (count - 1) as nat;
        lemma_pow2_unfold(count);
        let power = pow2(less);
        let n = numerator * power;
        let e = exponent - less;
        assert(numerator * (2 * power) == 2 * n) by (nonlinear_arith)
            requires
                n == numerator * power,
        ;
        lemma_nearest_scaled(numerator, denominator, exponent, less);
        if n >= denominator * 0x80_0000 {
            lemma_nearest_of_large_common(n, denominator, e, 2);
            assert(nearest_of_large(2 * n, denominator, e - 1) == nearest_of_large(
                2 * n,
                2 * denominator,
                e,
            ));
        } else if n > 0 {
            assert(nearest_of_small(n, denominator, e) == nearest_of_small(
                2 * n,
                denominator,
                e - 1,
            ));
            if 2 * n >= denominator * 0x80_0000 {
                assert(nearest_of_small(2 * n, denominator, e - 1) == rounded_quotient(
                    2 * n,
                    denominator,
                    e - 1,
                ));
            }
        }
        assert(nearest(2 * n, denominator, e - 1) == nearest(n, denominator, e));
    } else {
        assert(numerator * pow2(0) == numerator) by (nonlinear_arith)
            requires
                pow2(0) == 1,
        ;
    }
}

/// The quotient of two whole numbers below `2^23` is rounded once.
proof fn lemma_ratio(numerator: nat, denominator: nat)
    requires
        numerator < 0x80_0000,
        0 < denominator < 0x80_0000,
    ensures
        quotient(of_int(numerator), of_int(denominator)) == nearest(numerator, denominator, 0),
{
    law_whole_numbers_are_exact(denominator);
    let b = of_int(denominator);
    if numerator > 0 {
        law_whole_numbers_are_exact(numerator);
        let a = of_int(numerator);
        let x = (-a.exponent) as nat;
        let y = (-b.exponent) as nat;
        lemma_pow2_pos(y);
        lemma_nearest_common(numerator, denominator, 0, pow2(y));
        if x >= y {
            let more = (x - y) as nat;
            lemma_pow2_adds(y, more);
            lemma_nearest_scaled(numerator * pow2(y), b.significand, 0, more);
            assert(numerator * pow2(y) * pow2(more) == numerator * pow2(x)) by (nonlinear_arith)
                requires
                    pow2(x) == pow2(y) * pow2(more),
            ;
        } else {
            let more = (y - x) as nat;
            lemma_pow2_adds(x, more);
            lemma_nearest_scaled(a.significand, b.significand, more as int, more);
            assert(a.significand * pow2(more) == numerator * pow2(y)) by (nonlinear_arith)
                requires
                    a.significand == numerator * pow2(x),
                    pow2(y) == pow2(x) * pow2(more),
            ;
        }
    }
}

/// Multiplication by a value keeps the order of values.
proof fn lemma_product_monotone(factor: Binary32, a: Binary32, b: Binary32)
    requires
        a.normal(),
        b.normal(),
        at_most(a, b),
    ensures
        at_most(product(factor, a), product(factor, b)),
{
    let f = factor.significand;
    if a.significand == 0 {
        assert(f * a.significand == 0) by (nonlinear_arith)
            requires
                a.significand == 0,
        ;
    } else {
        let count = (b.exponent - a.exponent) as nat;
        let power = pow2(count);
        lemma2_to64();
        lemma_pow2_pos(count);
        if count > 0 {
            lemma_pow2_unfold(count);
            lemma_pow2_pos((count - 1) as nat);
        }
        lemma_nearest_scaled(f * b.significand, 1, factor.exponent + b.exponent, count);
        assert(f * a.significand <= f * b.significand * power) by (nonlinear_arith)
            requires
                f >= 0,
                power >= 2 && a.significand <= 2 * b.significand || power == 1 && a.significand
                    <= b.significand,
        ;
        lemma_nearest_monotone(
            f * a.significand,
            f * b.significand * power,
            1,
            factor.exponent + a.exponent,
        );
    }
}

/// Every number has a root.
proof fn lemma_floor_root_exists(number: nat)
    ensures
        is_floor_root(floor_root(number), number),
    decreases number,
{
    if number == 0 {
        assert((0nat + 1) * (0nat + 1) == 1) by (nonlinear_arith);
        assert(is_floor_root(0, 0));
    } else {
        lemma_floor_root_exists((number - 1) as nat);
        let before = floor_root((number - 1) as nat);
        let root = if (before + 1) * (before + 1) <= number {
            before + 1
        } else {
            before
        };
        assert(is_floor_root(root, number)) by {
            assert((before + 2) * (before + 2) > (before + 1) * (before + 1)) by (nonlinear_arith)
                requires
                    before >= 0,
            ;
        }
    }
}

/// The root of a value is normal.
proof fn lemma_square_root_normal(a: Binary32)
    requires
        a.normal(),
    ensures
        square_root(a).normal(),
        a.significand > 0 ==> square_root(a).significand > 0,
{
    if a.significand > 0 {
        let (m, t) = radicand(a);
        lemma_floor_root_exists(m);
        lemma_root_bounds(floor_root(m), m);
    }
}

/// Roots keep the order of values.
proof fn lemma_square_root_monotone(a: Binary32, b: Binary32)
    requires
        a.normal(),
        b.normal(),
        at_most(a, b),
    ensures
        at_most(square_root(a), square_root(b)),
{
    lemma_square_root_normal(b);
    if a.significand > 0 {
        let (m, t) = radicand(a);
        let (n, u) = radicand(b);
        assert(t <= u);
        if t == u {
            assert(m <= n);
            let small = floor_root(m);
            let large = floor_root(n);
            lemma_floor_root_exists(m);
            lemma_floor_root_exists(n);
            assert(small <= large) by (nonlinear_arith)
                requires
                    small * small <= m,
                    n < (large + 1) * (large + 1),
                    m <= n,
                    small >= 0,
                    large >= 0,
            ;
        }
    }
}

/// Rounding up keeps the order of values.
proof fn lemma_ceiling_monotone(a: Binary32, b: Binary32)
    requires
        a.normal(),
        b.normal(),
        at_most(a, b),
    ensures
        ceiling(a) <= ceiling(b),
{
    lemma2_to64();
    let s = a.significand;
    let r = b.significand;
    if s == 0 {
        assert(ceiling(a) == 0) by {
            assert(0 * pow2(0) == 0);
        }
    } else if b.exponent >= 0 {
        let power = pow2(b.exponent as nat);
        lemma_pow2_pos(b.exponent as nat);
        if a.exponent >= 0 {
            let count = (b.exponent - a.exponent) as nat;
            let part = pow2(a.exponent as nat);
            let more = pow2(count);
            lemma_pow2_adds(a.exponent as nat, count);
            lemma_pow2_pos(a.exponent as nat);
            lemma_pow2_pos(count);
            if count > 0 {
                lemma_pow2_unfold(count);
                lemma_pow2_pos((count - 1) as nat);
            }
            assert(s * part <= r * power) by (nonlinear_arith)
                requires
                    power == part * more,
                    part > 0,
                    more >= 2 && s <= 2 * r || more == 1 && s <= r,
                    r >= 0,
            ;
        } else {
            let unit = pow2((-a.exponent) as nat);
            lemma_pow2_unfold((-a.exponent) as nat);
            lemma_pow2_pos((-a.exponent - 1) as nat);
            assert((s + unit - 1) / unit as int <= 0x80_0000) by (nonlinear_arith)
                requires
                    unit >= 2,
                    0 < s < 0x100_0000,
            ;
            assert(r * power >= r) by (nonlinear_arith)
                requires
                    r >= 0,
                    power >= 1,
            ;
        }
    } else {
        let unit = pow2((-b.exponent) as nat);
        let fine = pow2((-a.exponent) as nat);
        let count = (b.exponent - a.exponent) as nat;
        let more = pow2(count);
        lemma_pow2_adds((-b.exponent) as nat, count);
        lemma_pow2_pos((-a.exponent) as nat);
        lemma_pow2_pos((-b.exponent) as nat);
        lemma_pow2_pos(count);
        if count > 0 {
            lemma_pow2_unfold(count);
            lemma_pow2_pos((count - 1) as nat);
        }
        let up = (r + unit - 1) / unit as int;
        assert(r <= up * unit) by (nonlinear_arith)
            requires
                up == (r + unit - 1) / unit as int,
                unit > 0,
        ;
        assert(s <= up * fine) by (nonlinear_arith)
            requires
                fine == unit * more,
                r <= up * unit,
                more >= 2 && s <= 2 * r || more == 1 && s <= r,
                r > 0,
                unit > 0,
        ;
        assert((s + fine - 1) / fine as int <= up) by (nonlinear_arith)
            requires
                s <= up * fine,
                fine > 0,
        ;
    }
}

/// The root of a number times a quotient, rounded up.
pub open spec fn scaled_root(factor: nat, part: nat, whole: nat) -> nat {
    ceiling(square_root(product(of_int(factor), quotient(of_int(part), of_int(whole)))))
}

/// The root of a product, rounded up, keeps the order of what is multiplied.
proof fn lemma_root_of_product_monotone(factor: Binary32, a: Binary32, b: Binary32)
    requires
        a.normal(),
        b.normal(),
        at_most(a, b),
    ensures
        ceiling(square_root(product(factor, a))) <= ceiling(square_root(product(factor, b))),
{
    lemma_product_monotone(factor, a, b);
    lemma_nearest_normal(factor.significand * a.significand, 1, factor.exponent + a.exponent);
    lemma_nearest_normal(factor.significand * b.significand, 1, factor.exponent + b.exponent);
    let p = product(factor, a);
    let q = product(factor, b);
    lemma_square_root_monotone(p, q);
    lemma_square_root_normal(p);
    lemma_square_root_normal(q);
    lemma_ceiling_monotone(square_root(p), square_root(q));
}

/// The root of a number times a quotient, rounded up, grows with what is divided and shrinks
/// with what it is divided by.
pub proof fn law_scaled_root_follows_the_quotient(
    factor: nat,
    part: nat,
    whole: nat,
    larger_part: nat,
    smaller_whole: nat,
)
    requires
        part <= larger_part < 0x80_0000,
        0 < smaller_whole <= whole < 0x80_0000,
    ensures
        scaled_root(factor, part, whole) <= scaled_root(factor, larger_part, smaller_whole),
{
    lemma_ratio(part, whole);
    lemma_ratio(larger_part, smaller_whole);
    lemma_nearest_common(part, whole, 0, smaller_whole);
    lemma_nearest_common(larger_part, smaller_whole, 0, whole);
    assert(part * smaller_whole <= larger_part * whole && whole * smaller_whole == smaller_whole
        * whole && whole * smaller_whole > 0) by (nonlinear_arith)
        requires
            part <= larger_part,
            0 < smaller_whole <= whole,
    ;
    lemma_nearest_monotone(
        part * smaller_whole,
        larger_part * whole,
        whole * smaller_whole,
        0,
    );
    lemma_nearest_normal(part, whole, 0);
    lemma_nearest_normal(larger_part, smaller_whole, 0);
    lemma_root_of_product_monotone(
        of_int(factor),
        nearest(part, whole, 0),
        nearest(larger_part, smaller_whole, 0),
    );
}

/// The root of a number times a quotient, rounded up, grows with the number.
pub proof fn law_scaled_root_follows_the_number(small: nat, large: nat, part: nat, whole: nat)
    requires
        small <= large,
    ensures
        scaled_root(small, part, whole) <= scaled_root(large, part, whole),
{
    let ratio = quotient(of_int(part), of_int(whole));
    let a = of_int(small);
    let b = of_int(large);
    lemma_nearest_monotone(small, large, 1, 0);
    lemma_nearest_normal(small, 1, 0);
    lemma_nearest_normal(large, 1, 0);
    assert(a.significand * ratio.significand == ratio.significand * a.significand
        && b.significand * ratio.significand == ratio.significand * b.significand)
        by (nonlinear_arith);
    lemma_root_of_product_monotone(ratio, a, b);
}

/// A whole number rounded from a quotient is at most half a unit from it, and that is at most
/// one part in `2^24` of a quotient of 24 bits.
proof fn lemma_rounded_quotient_near(numerator: nat, denominator: nat, exponent: int)
    requires
        denominator > 0,
        denominator * 0x80_0000 <= numerator < denominator * 0x100_0000,
    ensures
        ({
            let value = rounded_quotient(numerator, denominator, exponent);
            let whole = if value.exponent == exponent {
                value.significand
            } else {
                2 * value.significand
            };
            let product = denominator * whole;
            &&& value.exponent == exponent || value.exponent == exponent + 1
            &&& 0x100_0000 * (product - numerator) <= numerator
            &&& 0x100_0000 * (numerator - product) <= numerator
        }),
{
    lemma_quotient_bounds(numerator, denominator);
    let q = numerator / denominator;
    let r = numerator % denominator;
    vstd::arithmetic::div_mod::lemma_fundamental_div_mod(numerator as int, denominator as int);
    assert(denominator * (q + 1) == denominator * q + denominator) by (nonlinear_arith);
    let value = rounded_quotient(numerator, denominator, exponent);
    if value.exponent != exponent {
        assert(2 * value.significand == q + 1);
    }
}

/// A quotient below `2^23` is rounded to a value that is off by at most one part in `2^24`.
proof fn lemma_nearest_of_small_near(numerator: nat, denominator: nat, exponent: int)
    requires
        denominator > 0,
        0 < numerator < denominator * 0x80_0000,
    ensures
        ({
            let value = nearest_of_small(numerator, denominator, exponent);
            let scaled = numerator * pow2((exponent - value.exponent) as nat);
            let product = denominator * value.significand;
            &&& value.exponent <= exponent
            &&& 0x100_0000 * (product - scaled) <= scaled
            &&& 0x100_0000 * (scaled - product) <= scaled
        }),
    decreases 2 * denominator * 0x80_0000 - numerator,
{
    let value = nearest_of_small(numerator, denominator, exponent);
    let double = 2 * numerator;
    assert(value == nearest_of_small(double, denominator, exponent - 1));
    if double < denominator * 0x80_0000 {
        lemma_nearest_of_small_near(double, denominator, exponent - 1);
        let count = (exponent - value.exponent) as nat;
        lemma_pow2_unfold(count);
        let power = pow2((count - 1) as nat);
        assert(double * power == numerator * (2 * power)) by (nonlinear_arith)
            requires
                double == 2 * numerator,
        ;
    } else {
        lemma_rounded_quotient_near(double, denominator, exponent - 1);
        lemma2_to64();
        assert(numerator * pow2(0) == numerator && numerator * pow2(1) == double)
            by (nonlinear_arith)
            requires
                pow2(0) == 1,
                pow2(1) == 2,
                double == 2 * numerator,
        ;
        let product = denominator * value.significand;
        assert(denominator * (2 * value.significand) == 2 * product) by (nonlinear_arith)
            requires
                product == denominator * value.significand,
        ;
    }
}

/// A quotient of at least `2^23` is rounded to a value that is off by at most one part in `2^24`.
proof fn lemma_nearest_of_large_near(numerator: nat, denominator: nat, exponent: int)
    requires
        denominator > 0,
        numerator >= denominator * 0x80_0000,
    ensures
        ({
            let value = nearest_of_large(numerator, denominator, exponent);
            let product = denominator * value.significand * pow2(
                (value.exponent - exponent) as nat,
            );
            &&& value.exponent >= exponent
            &&& 0x100_0000 * (product - numerator) <= numerator
            &&& 0x100_0000 * (numerator - product) <= numerator
        }),
    decreases numerator - denominator,
{
    let value = nearest_of_large(numerator, denominator, exponent);
    let s = value.significand;
    if numerator >= denominator * 0x100_0000 {
        lemma_nearest_of_large_near(numerator, 2 * denominator, exponent + 1);
        let count = (value.exponent - exponent) as nat;
        lemma_pow2_unfold(count);
        let power = pow2((count - 1) as nat);
        assert((2 * denominator) * s * power == denominator * s * (2 * power)) by (nonlinear_arith);
    } else {
        lemma_rounded_quotient_near(numerator, denominator, exponent);
        lemma2_to64();
        assert(denominator * s * pow2(0) == denominator * s && denominator * s * pow2(1)
            == denominator * (2 * s)) by (nonlinear_arith)
            requires
                pow2(0) == 1,
                pow2(1) == 2,
        ;
    }
}

/// A value and the whole number that it is rounded to are at most a half apart: `power` is the
/// unit in which both are whole.
proof fn lemma_rounded_near(a: Binary32, places: nat, count: nat)
    requires
        a.exponent == count - places,
    ensures
        ({
            let exact = a.significand * pow2(count);
            let whole = rounded(a) * pow2(places);
            &&& 2 * (whole - exact) <= pow2(places)
            &&& 2 * (exact - whole) <= pow2(places)
        }),
{
    let s = a.significand;
    let power = pow2(places);
    let low = pow2(count);
    lemma_pow2_pos(places);
    lemma_pow2_pos(count);
    if a.exponent >= 0 {
        lemma_pow2_adds(places, a.exponent as nat);
        let high = pow2(a.exponent as nat);
        assert((s * high) * power == s * low) by (nonlinear_arith)
            requires
                low == power * high,
        ;
    } else {
        let unit = pow2((-a.exponent) as nat);
        lemma_pow2_pos((-a.exponent) as nat);
        lemma_pow2_adds(count, (-a.exponent) as nat);
        let r = rounded(a);
        assert(2 * s - unit <= r * (2 * unit) <= 2 * s + unit) by (nonlinear_arith)
            requires
                r == (2 * s + unit) / (2 * unit),
                unit > 0,
        ;
        assert(r * (2 * unit) * low == 2 * (r * power) && (2 * s) * low == 2 * (s * low) && unit
            * low == power) by (nonlinear_arith)
            requires
                power == low * unit,
        ;
        assert((2 * s - unit) * low <= r * (2 * unit) * low && r * (2 * unit) * low <= (2 * s
            + unit) * low) by (nonlinear_arith)
            requires
                2 * s - unit <= r * (2 * unit) <= 2 * s + unit,
                low > 0,
        ;
        assert((2 * s - unit) * low == (2 * s) * low - unit * low && (2 * s + unit) * low == (2
            * s) * low + unit * low) by (nonlinear_arith);
    }
}

/// The quotient of two whole numbers below `2^16`, in binary places, is off by at most one part
/// in `2^24`.
proof fn lemma_ratio_near(numerator: nat, denominator: nat)
    requires
        0 < numerator <= 0xffff,
        0 < denominator <= 0xffff,
    ensures
        ({
            let ratio = quotient(of_int(numerator), of_int(denominator));
            let exact = numerator * pow2((-ratio.exponent) as nat);
            let held = denominator * ratio.significand;
            &&& ratio.normal()
            &&& ratio.significand > 0
            &&& ratio.exponent <= 0
            &&& 0x100_0000 * (held - exact) <= exact
            &&& 0x100_0000 * (exact - held) <= exact
        }),
{
    lemma_ratio(numerator, denominator);
    lemma_nearest_of_small_near(numerator, denominator, 0);
    lemma_nearest_normal(numerator, denominator, 0);
    let ratio = nearest(numerator, denominator, 0);
    let power = pow2((-ratio.exponent) as nat);
    lemma_pow2_pos((-ratio.exponent) as nat);
    if ratio.significand == 0 {
        assert(denominator * 0 == 0);
        assert(numerator * power > 0) by (nonlinear_arith)
            requires
                numerator > 0,
                power > 0,
        ;
    }
}

/// Two quotients of whole numbers below `2^16` that are in order when they are rounded are in
/// order but for two parts in `2^24`.
pub proof fn law_ratios_keep_their_order(a: nat, b: nat, c: nat, d: nat)
    requires
        0 < a <= 0xffff,
        0 < b <= 0xffff,
        0 < c <= 0xffff,
        0 < d <= 0xffff,
        !exceeds(quotient(of_int(a), of_int(b)), quotient(of_int(c), of_int(d))),
    ensures
        0xff_ffff * (a * d) <= 0x100_0001 * (c * b),
{
    let u = quotient(of_int(a), of_int(b));
    let v = quotient(of_int(c), of_int(d));
    lemma_ratio_near(a, b);
    lemma_ratio_near(c, d);
    lemma_order(u, v);
    let x = (-u.exponent) as nat;
    let y = (-v.exponent) as nat;
    let s = u.significand;
    let t = v.significand;
    let p = pow2(x);
    let q = pow2(y);
    lemma_pow2_pos(x);
    lemma_pow2_pos(y);
    let more = (x - y) as nat;
    let g = pow2(more);
    lemma_pow2_adds(y, more);
    lemma2_to64();
    if more > 0 {
        lemma_pow2_unfold(more);
        lemma_pow2_pos((more - 1) as nat);
    }
    assert(s * q <= t * p) by (nonlinear_arith)
        requires
            p == q * g,
            q > 0,
            g >= 2 && s <= 2 * t || g == 1 && s <= t,
            t >= 0,
    ;
    // In units of `p * q`: `a / b` is at most `s / p`, and `t / q` at most `c / d`.
    let qd = q * d;
    let pb = p * b;
    let low = (a * p) * qd;
    let middle = (b * s) * qd;
    assert(0xff_ffff * low <= 0x100_0000 * middle) by (nonlinear_arith)
        requires
            0xff_ffff * (a * p) <= 0x100_0000 * (b * s),
            low == (a * p) * qd,
            middle == (b * s) * qd,
            qd >= 0,
    ;
    let other = (d * t) * pb;
    let high = (c * q) * pb;
    assert(0x100_0000 * other <= 0x100_0001 * high) by (nonlinear_arith)
        requires
            0x100_0000 * (d * t) <= 0x100_0001 * (c * q),
            other == (d * t) * pb,
            high == (c * q) * pb,
            pb >= 0,
    ;
    assert(middle <= other) by (nonlinear_arith)
        requires
            s * q <= t * p,
            middle == (b * s) * (q * d),
            other == (d * t) * (p * b),
            b * d >= 0,
    ;
    let pq = p * q;
    assert(low == (a * d) * pq && high == (c * b) * pq && pq > 0) by (nonlinear_arith)
        requires
            low == (a * p) * (q * d),
            high == (c * q) * (p * b),
            pq == p * q,
            p > 0,
            q > 0,
    ;
    assert(0xff_ffff * (a * d) <= 0x100_0001 * (c * b)) by (nonlinear_arith)
        requires
            0xff_ffff * ((a * d) * pq) <= 0x100_0001 * ((c * b) * pq),
            pq > 0,
    ;
}

/// Of two quotients at most one is greater than the other.
pub proof fn lemma_exceeding_is_one_way(a: nat, b: nat, c: nat, d: nat)
    requires
        0 < a <= 0xffff,
        0 < b <= 0xffff,
        0 < c <= 0xffff,
        0 < d <= 0xffff,
        exceeds(quotient(of_int(c), of_int(d)), quotient(of_int(a), of_int(b))),
    ensures
        !exceeds(quotient(of_int(a), of_int(b)), quotient(of_int(c), of_int(d))),
{
    let u = quotient(of_int(a), of_int(b));
    let v = quotient(of_int(c), of_int(d));
    lemma_ratio_near(a, b);
    lemma_ratio_near(c, d);
    lemma_order(u, v);
    lemma_order(v, u);
}

/// A number times a quotient, and rounded, is less than one away from the exact product.
pub proof fn law_scaled_by_a_ratio(number: nat, numerator: nat, denominator: nat)
    requires
        0 < number <= 0xffff,
        0 < numerator <= 0xffff,
        0 < denominator <= 0xffff,
        number * numerator <= 0x2_0000 * denominator,
    ensures
        ({
            let scaled = rounded(
                product(of_int(number), quotient(of_int(numerator), of_int(denominator))),
            );
            -denominator < scaled * denominator - number * numerator < denominator
        }),
{
    let n = of_int(number);
    let ratio = quotient(of_int(numerator), of_int(denominator));
    lemma_ratio_near(numerator, denominator);
    law_whole_numbers_are_exact(number);
    let s = ratio.significand;
    let places = (-ratio.exponent) as nat;
    let y = (-n.exponent) as nat;
    let v = product(n, ratio);
    let plain = number * s;
    lemma_nearest_scaled(plain, 1, ratio.exponent, y);
    assert(plain * pow2(y) == n.significand * s) by (nonlinear_arith)
        requires
            plain == number * s,
            n.significand == number * pow2(y),
    ;
    assert(plain >= s) by (nonlinear_arith)
        requires
            plain == number * s,
            number >= 1,
            s >= 0,
    ;
    assert(v == nearest(plain, 1, ratio.exponent));
    lemma_nearest_of_large_near(plain, 1, ratio.exponent);
    let count = (v.exponent - ratio.exponent) as nat;
    let held = v.significand * pow2(count);
    assert(1 * v.significand * pow2(count) == held);
    lemma_rounded_near(v, places, count);
    let r = rounded(v);
    let power = pow2(places);
    lemma_pow2_pos(places);
    // Everything times `denominator`, in units of `power`.
    let whole = r * power * denominator;
    let near = held * denominator;
    let middle = plain * denominator;
    let exact = number * numerator * power;
    assert(2 * (whole - near) <= power * denominator && 2 * (near - whole) <= power * denominator)
        by (nonlinear_arith)
        requires
            2 * (r * power - held) <= power,
            2 * (held - r * power) <= power,
            whole == r * power * denominator,
            near == held * denominator,
            denominator > 0,
    ;
    assert(0x100_0000 * (near - middle) <= middle && 0x100_0000 * (middle - near) <= middle)
        by (nonlinear_arith)
        requires
            0x100_0000 * (held - plain) <= plain,
            0x100_0000 * (plain - held) <= plain,
            near == held * denominator,
            middle == plain * denominator,
            denominator > 0,
    ;
    assert(0x100_0000 * (middle - exact) <= exact && 0x100_0000 * (exact - middle) <= exact)
        by (nonlinear_arith)
        requires
            0x100_0000 * (denominator * s - numerator * power) <= numerator * power,
            0x100_0000 * (numerator * power - denominator * s) <= numerator * power,
            middle == (number * s) * denominator,
            exact == number * numerator * power,
            number > 0,
    ;
    let one = power * denominator;
    assert(exact <= 0x2_0000 * one) by (nonlinear_arith)
        requires
            number * numerator <= 0x2_0000 * denominator,
            exact == number * numerator * power,
            one == power * denominator,
            power > 0,
    ;
    assert(one > 0) by (nonlinear_arith)
        requires
            one == power * denominator,
            power > 0,
            denominator > 0,
    ;
    assert(whole - exact < one && exact - whole < one);
    let difference = r * denominator - number * numerator;
    assert(difference * power == whole - exact) by (nonlinear_arith)
        requires
            difference == r * denominator - number * numerator,
            whole == r * power * denominator,
            exact == number * numerator * power,
    ;
    assert(-denominator < difference < denominator) by (nonlinear_arith)
        requires
            -one < difference * power < one,
            one == power * denominator,
            power > 0,
    ;
}

/// A number divided by a quotient, and rounded, is less than one away from the exact result.
pub proof fn law_divided_by_a_ratio(number: nat, numerator: nat, denominator: nat)
    requires
        0 < number <= 0xffff,
        0 < numerator <= 0xffff,
        0 < denominator <= 0xffff,
        number * denominator <= 0x2_0000 * numerator,
    ensures
        ({
            let scaled = rounded(
                quotient(of_int(number), quotient(of_int(numerator), of_int(denominator))),
            );
            -numerator < scaled * numerator - number * denominator < numerator
        }),
{
    let n = of_int(number);
    let ratio = quotient(of_int(numerator), of_int(denominator));
    lemma_ratio_near(numerator, denominator);
    law_whole_numbers_are_exact(number);
    let s = ratio.significand;
    let places = (-ratio.exponent) as nat;
    let y = (-n.exponent) as nat;
    let v = quotient(n, ratio);
    lemma_nearest_scaled(number, s, places as int, y);
    assert(v == nearest(number, s, places as int));
    lemma_nearest_of_small_near(number, s, places as int);
    let count = (places - v.exponent) as nat;
    lemma_rounded_near(v, count, places);
    let r = rounded(v);
    let t = v.significand;
    let unit = pow2(count);
    let power = pow2(places);
    lemma_pow2_pos(places);
    lemma_pow2_pos(count);
    // Everything times `s * numerator`, in units of `unit`.
    let factor = s * numerator;
    let whole = r * unit * factor;
    let near = t * power * factor;
    let middle = number * unit * (numerator * power);
    let exact = number * unit * (denominator * s);
    assert(factor > 0) by (nonlinear_arith)
        requires
            factor == s * numerator,
            s > 0,
            numerator > 0,
    ;
    assert(2 * (whole - near) <= unit * factor && 2 * (near - whole) <= unit * factor)
        by (nonlinear_arith)
        requires
            2 * (r * unit - t * power) <= unit,
            2 * (t * power - r * unit) <= unit,
            whole == r * unit * factor,
            near == t * power * factor,
            factor > 0,
    ;
    let step = numerator * power;
    assert(step > 0) by (nonlinear_arith)
        requires
            step == numerator * power,
            numerator > 0,
            power > 0,
    ;
    assert(near == (s * t) * step) by (nonlinear_arith)
        requires
            near == t * power * (s * numerator),
            step == numerator * power,
    ;
    assert(0x100_0000 * (near - middle) <= middle && 0x100_0000 * (middle - near) <= middle)
        by (nonlinear_arith)
        requires
            0x100_0000 * (s * t - number * unit) <= number * unit,
            0x100_0000 * (number * unit - s * t) <= number * unit,
            near == (s * t) * step,
            middle == number * unit * step,
            step > 0,
    ;
    let scale = number * unit;
    assert(scale >= 0) by (nonlinear_arith)
        requires
            scale == number * unit,
            unit > 0,
    ;
    assert(0x100_0000 * (exact - middle) <= middle && 0x100_0000 * (middle - exact) <= middle)
        by (nonlinear_arith)
        requires
            0x100_0000 * (denominator * s - step) <= step,
            0x100_0000 * (step - denominator * s) <= step,
            middle == scale * step,
            exact == scale * (denominator * s),
            scale >= 0,
    ;
    let one = unit * factor;
    assert(exact <= 0x2_0000 * one) by (nonlinear_arith)
        requires
            number * denominator <= 0x2_0000 * numerator,
            exact == number * unit * (denominator * s),
            one == unit * (s * numerator),
            unit * s >= 0,
    ;
    assert(one > 0) by (nonlinear_arith)
        requires
            one == unit * factor,
            unit > 0,
            factor > 0,
    ;
    assert(whole - exact < one && exact - whole < one);
    let difference = r * numerator - number * denominator;
    let common = unit * s;
    assert(common > 0) by (nonlinear_arith)
        requires
            common == unit * s,
            unit > 0,
            s > 0,
    ;
    assert(whole == (r * numerator) * common) by (nonlinear_arith)
        requires
            whole == r * unit * (s * numerator),
            common == unit * s,
    ;
    assert(exact == (number * denominator) * common) by (nonlinear_arith)
        requires
            exact == number * unit * (denominator * s),
            common == unit * s,
    ;
    assert(one == common * numerator) by (nonlinear_arith)
        requires
            one == unit * (s * numerator),
            common == unit * s,
    ;
    assert(difference * common == (r * numerator) * common - (number * denominator) * common)
        by (nonlinear_arith)
        requires
            difference == r * numerator - number * denominator,
    ;
    assert(-numerator < difference < numerator) by (nonlinear_arith)
        requires
            -one < difference * common < one,
            one == common * numerator,
            common > 0,
    ;
}

/// The product of two whole numbers is exact.
proof fn lemma_product_of_ints(a: nat, b: nat)
    requires
        0 < a < 0x80_0000,
        0 < b < 0x80_0000,
    ensures
        product(of_int(a), of_int(b)) == of_int(a * b),
{
    law_whole_numbers_are_exact(a);
    law_whole_numbers_are_exact(b);
    let x = (-of_int(a).exponent) as nat;
    let y = (-of_int(b).exponent) as nat;
    lemma_pow2_adds(x, y);
    lemma_nearest_scaled(a * b, 1, 0, x + y);
    assert(of_int(a).significand * of_int(b).significand == a * b * pow2(x + y))
        by (nonlinear_arith)
        requires
            of_int(a).significand == a * pow2(x),
            of_int(b).significand == b * pow2(y),
            pow2(x + y) == pow2(x) * pow2(y),
    ;
}

/// The radicand of a whole number is that number times the square of a large power of two.
proof fn lemma_radicand_of_int(number: nat) -> (places: nat)
    requires
        0 < number < 0x10_0000,
    ensures
        radicand(of_int(number)).1 == -places,
        radicand(of_int(number)).0 == number * (pow2(places) * pow2(places)),
        pow2(places) > 0x2000,
        places > 0,
{
    law_whole_numbers_are_exact(number);
    lemma2_to64();
    let a = of_int(number);
    let y = (-a.exponent) as nat;
    let (m, t) = radicand(a);
    let more: nat = if (a.exponent - 23) % 2 == 0 {
        23
    } else {
        24
    };
    let places = (-t) as nat;
    assert(2 * places == y + more);
    lemma_pow2_adds(y, more);
    lemma_pow2_adds(places, places);
    assert(m == number * (pow2(places) * pow2(places))) by (nonlinear_arith)
        requires
            m == number * pow2(y) * pow2(more),
            pow2(y + more) == pow2(y) * pow2(more),
            pow2(places + places) == pow2(places) * pow2(places),
            y + more == places + places,
    ;
    assert(a.significand > 0) by {
        lemma_pow2_pos(y);
        assert(number * pow2(y) > 0) by (nonlinear_arith)
            requires
                number > 0,
                pow2(y) > 0,
        ;
    }
    assert(m >= 0x4000_0000_0000);
    let unit = pow2(places);
    assert(unit > 0x2000) by (nonlinear_arith)
        requires
            number * (unit * unit) >= 0x4000_0000_0000,
            0 < number < 0x10_0000,
            unit >= 0,
    ;
    if places == 0 {
        assert(unit == 1);
    }
    places
}

/// The root of a whole number, rounded up, is the smallest whole number whose square reaches it.
pub proof fn law_root_of_a_whole_number(number: nat, below: nat)
    requires
        0 < number < 0x10_0000,
        below * below < number <= (below + 1) * (below + 1),
    ensures
        ceiling(square_root(of_int(number))) == below + 1,
{
    let a = of_int(number);
    let places = lemma_radicand_of_int(number);
    let unit = pow2(places);
    let (m, t) = radicand(a);
    law_whole_numbers_are_exact(number);
    assert(a.significand > 0) by {
        lemma_pow2_pos((-a.exponent) as nat);
        assert(number * pow2((-a.exponent) as nat) > 0) by (nonlinear_arith)
            requires
                number > 0,
                pow2((-a.exponent) as nat) > 0,
        ;
    }
    lemma_floor_root_exists(m);
    let root = floor_root(m);
    let low = below * unit;
    let high = (below + 1) * unit;
    assert(below < 0x400) by (nonlinear_arith)
        requires
            below * below < 0x10_0000,
            below >= 0,
    ;
    assert(high == low + unit) by (nonlinear_arith)
        requires
            low == below * unit,
            high == (below + 1) * unit,
    ;
    assert((low + 1) * (low + 1) <= m) by (nonlinear_arith)
        requires
            m == number * (unit * unit),
            number >= below * below + 1,
            low == below * unit,
            below < 0x400,
            unit > 0x2000,
    ;
    assert(m <= high * high) by (nonlinear_arith)
        requires
            m == number * (unit * unit),
            number <= (below + 1) * (below + 1),
            high == (below + 1) * unit,
            unit > 0,
    ;
    assert(low + 1 <= root <= high) by (nonlinear_arith)
        requires
            root * root <= m,
            m < (root + 1) * (root + 1),
            (low + 1) * (low + 1) <= m,
            m <= high * high,
            low >= 0,
            high >= 0,
            root >= 0,
    ;
    let value = square_root(a);
    assert(value.exponent == -places);
    if root == high {
        assert(!(m > root * root + root));
    }
    assert(low + 1 <= value.significand <= high);
    let sum = value.significand + unit - 1;
    assert(sum / unit as int == below + 1) by (nonlinear_arith)
        requires
            (below + 1) * unit <= sum < (below + 1) * unit + unit,
            unit > 0,
    ;
}

/// The root of a number times a whole quotient, rounded up, is the smallest whole number whose
/// square reaches the product.
pub proof fn law_scaled_root_is_the_root_of_the_product(
    factor: nat,
    times: nat,
    whole: nat,
    below: nat,
)
    requires
        0 < factor,
        0 < times,
        0 < whole,
        times * whole < 0x80_0000,
        factor * times < 0x10_0000,
        below * below < factor * times <= (below + 1) * (below + 1),
    ensures
        scaled_root(factor, times * whole, whole) == below + 1,
{
    assert(times <= times * whole && whole <= times * whole && factor <= factor * times && times
        * whole > 0 && factor * times > 0) by (nonlinear_arith)
        requires
            factor > 0,
            times > 0,
            whole > 0,
    ;
    lemma_ratio(times * whole, whole);
    lemma_nearest_common(times, 1, 0, whole);
    assert(1 * whole == whole);
    lemma_product_of_ints(factor, times);
    law_root_of_a_whole_number(factor * times, below);
}

/// A whole number of one bit more than a significand has is held where it is even, and rounded to
/// the neighbour with the even significand where it is odd.
pub proof fn law_ties_go_to_even(number: nat)
    requires
        0x100_0000 <= number < 0x200_0000,
    ensures
        ({
            let value = of_int(number);
            if number == 0x1ff_ffff {
                value.significand == 0x80_0000 && value.exponent == 2
            } else {
                &&& value.exponent == 1
                &&& number % 2 == 0 ==> 2 * value.significand == number
                &&& number % 2 == 1 ==> value.significand % 2 == 0 && (2 * value.significand
                    == number + 1 || 2 * value.significand == number - 1)
            }
        }),
{
    reveal_with_fuel(nearest_of_large, 3);
}

}
