//! Binary64 numbers, as their bit patterns, with the arithmetic that IEEE 754 gives them: every
//! result is the exact one, rounded to the nearest number, halves to the even significand.
use crate::natural::Natural;
use crate::rounding;
use vstd::arithmetic::power2;
use vstd::prelude::*;

verus! {

/// A binary64 number, by its bit pattern.
#[derive(Debug, Clone, Copy, PartialEq, Eq, Structural)]
pub struct Number {
    pub bits: u64,
}

/// What a bit pattern stands for. A finite number is counted in ticks of `2^-1074`, the smallest
/// positive one.
pub enum Float {
    Nan,
    Infinite { negative: bool },
    Finite { negative: bool, ticks: nat },
}

/// The weight of the lowest exponent bit.
pub const EXPONENT_UNIT: u64 = 0x10_0000_0000_0000;

/// The weight of the sign bit.
pub const SIGN_UNIT: u64 = 0x8000_0000_0000_0000;

impl View for Number {
    type V = Float;

    open spec fn view(&self) -> Float {
        let negative = self.bits >= SIGN_UNIT;
        let exponent = (self.bits / EXPONENT_UNIT) % 2048;
        let fraction = self.bits % EXPONENT_UNIT;
        if exponent == 2047 {
            if fraction == 0 {
                Float::Infinite { negative }
            } else {
                Float::Nan
            }
        } else if exponent == 0 {
            Float::Finite { negative, ticks: fraction as nat }
        } else {
            Float::Finite {
                negative,
                ticks: ((EXPONENT_UNIT + fraction) * power2::pow2((exponent - 1) as nat)) as nat,
            }
        }
    }
}

/// The finite number or infinity nearest to `num / den` ticks. The first magnitude that is too large
/// is `2^1024`, that is `2^2098` ticks.
pub open spec fn rounded(negative: bool, num: nat, den: nat) -> Float {
    let ticks = rounding::to_53_bits(num, den);
    if ticks >= power2::pow2(2098) {
        Float::Infinite { negative }
    } else {
        Float::Finite { negative, ticks }
    }
}

impl Float {
    /// The ticks of a finite number, below zero for a negative one.
    pub open spec fn signed_ticks(self) -> int {
        match self {
            Float::Finite { negative, ticks } => if negative {
                -(ticks as int)
            } else {
                ticks as int
            },
            _ => 0,
        }
    }

    pub open spec fn is_negative(self) -> bool {
        match self {
            Float::Finite { negative, .. } => negative,
            Float::Infinite { negative } => negative,
            Float::Nan => false,
        }
    }

    /// Whether rounding keeps the number: what a bit pattern stands for is kept, and so is every result.
    pub open spec fn is_rounded(self) -> bool {
        self matches Float::Finite { ticks, .. } ==> rounding::to_53_bits(ticks, 1) == ticks && ticks
            < power2::pow2(2098)
    }

    /// The number with the other sign.
    pub open spec fn negated(self) -> Float {
        match self {
            Float::Finite { negative, ticks } => Float::Finite { negative: !negative, ticks },
            Float::Infinite { negative } => Float::Infinite { negative: !negative },
            Float::Nan => Float::Nan,
        }
    }

    pub open spec fn plus(self, other: Float) -> Float {
        match (self, other) {
            (Float::Nan, _) => Float::Nan,
            (_, Float::Nan) => Float::Nan,
            (Float::Infinite { negative: a }, Float::Infinite { negative: b }) => if a == b {
                self
            } else {
                Float::Nan
            },
            (Float::Infinite { .. }, _) => self,
            (_, Float::Infinite { .. }) => other,
            (Float::Finite { negative: a, .. }, Float::Finite { negative: b, .. }) => {
                let sum = self.signed_ticks() + other.signed_ticks();
                if sum == 0 {
                    Float::Finite { negative: a && b, ticks: 0 }
                } else if sum < 0 {
                    rounded(true, (-sum) as nat, 1)
                } else {
                    rounded(false, sum as nat, 1)
                }
            },
        }
    }

    pub open spec fn minus(self, other: Float) -> Float {
        self.plus(other.negated())
    }

    pub open spec fn times(self, other: Float) -> Float {
        let negative = self.is_negative() != other.is_negative();
        match (self, other) {
            (Float::Nan, _) => Float::Nan,
            (_, Float::Nan) => Float::Nan,
            (Float::Infinite { .. }, Float::Finite { ticks, .. }) => if ticks == 0 {
                Float::Nan
            } else {
                Float::Infinite { negative }
            },
            (Float::Finite { ticks, .. }, Float::Infinite { .. }) => if ticks == 0 {
                Float::Nan
            } else {
                Float::Infinite { negative }
            },
            (Float::Infinite { .. }, Float::Infinite { .. }) => Float::Infinite { negative },
            (Float::Finite { ticks: a, .. }, Float::Finite { ticks: b, .. }) => rounded(
                negative,
                a * b,
                power2::pow2(1074),
            ),
        }
    }

    pub open spec fn over(self, other: Float) -> Float {
        let negative = self.is_negative() != other.is_negative();
        match (self, other) {
            (Float::Nan, _) => Float::Nan,
            (_, Float::Nan) => Float::Nan,
            (Float::Infinite { .. }, Float::Infinite { .. }) => Float::Nan,
            (Float::Infinite { .. }, Float::Finite { .. }) => Float::Infinite { negative },
            (Float::Finite { .. }, Float::Infinite { .. }) => Float::Finite { negative, ticks: 0 },
            (Float::Finite { ticks: a, .. }, Float::Finite { ticks: b, .. }) => if b == 0 {
                if a == 0 {
                    Float::Nan
                } else {
                    Float::Infinite { negative }
                }
            } else {
                rounded(negative, a * power2::pow2(1074), b)
            },
        }
    }

    /// Below, by value: nothing is below or above a NaN, and the two zeros are equal.
    pub open spec fn less(self, other: Float) -> bool {
        match (self, other) {
            (Float::Nan, _) => false,
            (_, Float::Nan) => false,
            (Float::Infinite { negative: a }, Float::Infinite { negative: b }) => a && !b,
            (Float::Infinite { negative: a }, _) => a,
            (_, Float::Infinite { negative: b }) => !b,
            _ => self.signed_ticks() < other.signed_ticks(),
        }
    }

    /// Equal by value: a NaN equals nothing, and the two zeros are equal.
    pub open spec fn same(self, other: Float) -> bool {
        self !is Nan && other !is Nan && !self.less(other) && !other.less(self)
    }

    pub open spec fn at_most(self, other: Float) -> bool {
        self.less(other) || self.same(other)
    }

    /// The greater of the two; the other one where one is a NaN.
    pub open spec fn larger(self, other: Float) -> Float {
        if self is Nan || self.less(other) {
            other
        } else {
            self
        }
    }

    /// The lesser of the two; the other one where one is a NaN.
    pub open spec fn smaller(self, other: Float) -> Float {
        if self is Nan || other.less(self) {
            other
        } else {
            self
        }
    }

    /// The nearest integer, halves away from zero, as far as it fits 64 bits; nothing for a NaN.
    pub open spec fn to_i64(self) -> int {
        match self {
            Float::Nan => 0,
            Float::Infinite { negative } => if negative {
                i64::MIN as int
            } else {
                i64::MAX as int
            },
            Float::Finite { negative, ticks } => {
                let whole = rounding::nearest_whole(ticks);
                if negative {
                    if -(whole as int) < i64::MIN {
                        i64::MIN as int
                    } else {
                        -(whole as int)
                    }
                } else if whole > i64::MAX {
                    i64::MAX as int
                } else {
                    whole as int
                }
            },
        }
    }
}

/// The number nearest to the integer `n`.
pub open spec fn nearest_to(n: int) -> Float {
    if n < 0 {
        rounded(true, ((-n) * power2::pow2(1074)) as nat, 1)
    } else {
        rounded(false, (n * power2::pow2(1074)) as nat, 1)
    }
}

impl Number {
    /// The number with that bit pattern.
    pub fn from_bits(bits: u64) -> (r: Number)
        ensures
            r.bits == bits,
    {
        Number { bits }
    }

    /// The number's bit pattern.
    pub fn to_bits(&self) -> (r: u64)
        ensures
            r == self.bits,
    {
        self.bits
    }

    /// The number with these parts.
    fn assemble(negative: bool, exponent: u64, fraction: u64) -> (r: Number)
        requires
            exponent < 2048,
            fraction < EXPONENT_UNIT,
        ensures
            (r.bits >= SIGN_UNIT) == negative,
            (r.bits / EXPONENT_UNIT) % 2048 == exponent,
            r.bits % EXPONENT_UNIT == fraction,
    {
        let sign: u64 = if negative {
            SIGN_UNIT
        } else {
            0
        };
        Number { bits: sign + exponent * EXPONENT_UNIT + fraction }
    }

    /// A zero.
    pub fn zero(negative: bool) -> (r: Number)
        ensures
            r@ == (Float::Finite { negative, ticks: 0 }),
    {
        Number::assemble(negative, 0, 0)
    }

    /// An infinity.
    pub fn infinity(negative: bool) -> (r: Number)
        ensures
            r@ == (Float::Infinite { negative }),
    {
        Number::assemble(negative, 2047, 0)
    }

    /// A NaN.
    pub fn nan() -> (r: Number)
        ensures
            r@ == Float::Nan,
    {
        Number::assemble(false, 2047, 0x8_0000_0000_0000)
    }

    /// Whether the number is a NaN.
    pub fn is_nan(&self) -> (r: bool)
        ensures
            r == (self@ is Nan),
    {
        (self.bits / EXPONENT_UNIT) % 2048 == 2047 && self.bits % EXPONENT_UNIT != 0
    }

    /// Whether the number is an infinity.
    pub fn is_infinite(&self) -> (r: bool)
        ensures
            r == (self@ is Infinite),
    {
        (self.bits / EXPONENT_UNIT) % 2048 == 2047 && self.bits % EXPONENT_UNIT == 0
    }

    /// Whether the number is finite.
    pub fn is_finite(&self) -> (r: bool)
        ensures
            r == (self@ is Finite),
    {
        (self.bits / EXPONENT_UNIT) % 2048 != 2047
    }

    /// Whether the sign bit is set.
    fn negative(&self) -> (r: bool)
        ensures
            self@ !is Nan ==> r == self@.is_negative(),
    {
        self.bits >= SIGN_UNIT
    }

    /// The number with the other sign.
    pub fn negate(&self) -> (r: Number)
        ensures
            r@ == self@.negated(),
    {
        let exponent: u64 = (self.bits / EXPONENT_UNIT) % 2048;
        let fraction: u64 = self.bits % EXPONENT_UNIT;
        Number::assemble(!(self.bits >= SIGN_UNIT), exponent, fraction)
    }

    /// A finite number as a significand shifted left.
    fn parts(&self) -> (r: (u64, u32))
        requires
            self@ is Finite,
        ensures
            self@->ticks == r.0 * power2::pow2(r.1 as nat),
            r.0 < 0x20_0000_0000_0000,
            r.1 < 2046,
    {
        let exponent: u64 = (self.bits / EXPONENT_UNIT) % 2048;
        let fraction: u64 = self.bits % EXPONENT_UNIT;
        if exponent == 0 {
            proof {
                power2::lemma2_to64();
            }
            (fraction, 0)
        } else {
            (EXPONENT_UNIT + fraction, (exponent - 1) as u32)
        }
    }

    /// The ticks of a finite number.
    fn ticks(&self) -> (r: Natural)
        requires
            self@ is Finite,
        ensures
            r@ == self@->ticks,
    {
        let (m, s) = self.parts();
        let mut n = Natural::from_u128(m as u128);
        n.shift_left(s);
        n
    }

    /// The number nearest to `num / den` ticks.
    fn round(negative: bool, num: Natural, den: Natural) -> (r: Number)
        requires
            den@ > 0,
        ensures
            r@ == rounded(negative, num@, den@),
    {
        let ghost n = num@;
        let ghost d = den@;
        match rounding::round_quotient(num, den, 2200) {
            None => {
                proof {
                    rounding::lemma_keeps_size(n, d, 2200);
                    power2::lemma_pow2_strictly_increases(2098, 2200);
                }
                Number::infinity(negative)
            },
            Some((m, s)) => {
                let ghost ticks = m * power2::pow2(s as nat);
                if m < EXPONENT_UNIT {
                    proof {
                        power2::lemma2_to64();
                        power2::lemma2_to64_rest();
                        power2::lemma_pow2_strictly_increases(52, 2098);
                        assert(m * 1 == m);
                    }
                    Number::assemble(negative, 0, m)
                } else {
                    let (sig, shift): (u64, u32) = if m == 2 * EXPONENT_UNIT {
                        (EXPONENT_UNIT, s + 1)
                    } else {
                        (m, s)
                    };
                    proof {
                        power2::lemma_pow2_unfold((s + 1) as nat);
                        let p = power2::pow2(s as nat);
                        assert((2 * EXPONENT_UNIT) * p == EXPONENT_UNIT * (2 * p)) by (nonlinear_arith);
                        assert(ticks == sig * power2::pow2(shift as nat));
                        power2::lemma2_to64_rest();
                        power2::lemma_pow2_pos(shift as nat);
                    }
                    if shift >= 2046 {
                        proof {
                            let p = power2::pow2(shift as nat);
                            if shift > 2046 {
                                power2::lemma_pow2_strictly_increases(2046, shift as nat);
                            }
                            power2::lemma_pow2_adds(52, 2046);
                            let q = power2::pow2(2046);
                            assert(sig * p >= EXPONENT_UNIT * q) by (nonlinear_arith)
                                requires
                                    sig >= EXPONENT_UNIT,
                                    p >= q,
                            ;
                        }
                        Number::infinity(negative)
                    } else {
                        proof {
                            let p = power2::pow2(shift as nat);
                            if shift < 2045 {
                                power2::lemma_pow2_strictly_increases(shift as nat, 2045);
                            }
                            power2::lemma_pow2_adds(53, 2045);
                            let q = power2::pow2(2045);
                            assert(sig * p < (2 * EXPONENT_UNIT) * q) by (nonlinear_arith)
                                requires
                                    0 <= sig < 2 * EXPONENT_UNIT,
                                    0 < p <= q,
                            ;
                        }
                        Number::assemble(negative, shift as u64 + 1, sig - EXPONENT_UNIT)
                    }
                }
            },
        }
    }

    /// The sum.
    pub fn plus(&self, other: &Number) -> (r: Number)
        ensures
            r@ == self@.plus(other@),
    {
        if self.is_nan() || other.is_nan() {
            return Number::nan();
        }
        if self.is_infinite() {
            if other.is_infinite() && self.negative() != other.negative() {
                return Number::nan();
            }
            return *self;
        }
        if other.is_infinite() {
            return *other;
        }
        let a = self.ticks();
        let b = other.ticks();
        let x: bool = self.negative();
        let y: bool = other.negative();
        if x == y {
            let sum = a.plus(&b);
            if Natural::new(0).minus(&sum).is_some() {
                return Number::zero(x);
            }
            return Number::round(x, sum, Natural::new(1));
        }
        match a.minus(&b) {
            Some(difference) => {
                if Natural::new(0).minus(&difference).is_some() {
                    Number::zero(false)
                } else {
                    Number::round(x, difference, Natural::new(1))
                }
            },
            None => match b.minus(&a) {
                Some(difference) => Number::round(y, difference, Natural::new(1)),
                None => Number::zero(false),
            },
        }
    }

    /// The difference.
    pub fn minus(&self, other: &Number) -> (r: Number)
        ensures
            r@ == self@.minus(other@),
    {
        self.plus(&other.negate())
    }

    /// Whether a finite number is a zero.
    fn is_zero(&self) -> (r: bool)
        requires
            self@ is Finite,
        ensures
            r == (self@->ticks == 0),
    {
        let (m, s) = self.parts();
        proof {
            power2::lemma_pow2_pos(s as nat);
            let p = power2::pow2(s as nat);
            assert((m * p == 0) == (m == 0)) by (nonlinear_arith)
                requires
                    p > 0,
            ;
        }
        m == 0
    }

    /// The product.
    pub fn times(&self, other: &Number) -> (r: Number)
        ensures
            r@ == self@.times(other@),
    {
        if self.is_nan() || other.is_nan() {
            return Number::nan();
        }
        let negative: bool = self.negative() != other.negative();
        if self.is_infinite() {
            if !other.is_infinite() && other.is_zero() {
                return Number::nan();
            }
            return Number::infinity(negative);
        }
        if other.is_infinite() {
            if self.is_zero() {
                return Number::nan();
            }
            return Number::infinity(negative);
        }
        let (m, s) = self.parts();
        let (n, t) = other.parts();
        proof {
            assert(m * n <= 0x20_0000_0000_0000 * 0x20_0000_0000_0000) by (nonlinear_arith)
                requires
                    m <= 0x20_0000_0000_0000,
                    n <= 0x20_0000_0000_0000,
            ;
            let p = power2::pow2(s as nat);
            let q = power2::pow2(t as nat);
            power2::lemma_pow2_adds(s as nat, t as nat);
            assert((m * n) * (p * q) == (m * p) * (n * q)) by (nonlinear_arith);
            power2::lemma_pow2_pos(1074);
        }
        let mut product = Natural::from_u128((m as u128) * (n as u128));
        product.shift_left(s + t);
        let mut one = Natural::new(1);
        let ghost unit = one@;
        one.shift_left(1074);
        proof {
            let p = power2::pow2(1074);
            assert(unit * p == p) by (nonlinear_arith)
                requires
                    unit == 1,
            ;
        }
        Number::round(negative, product, one)
    }

    /// The quotient.
    pub fn over(&self, other: &Number) -> (r: Number)
        ensures
            r@ == self@.over(other@),
    {
        if self.is_nan() || other.is_nan() {
            return Number::nan();
        }
        let negative: bool = self.negative() != other.negative();
        if self.is_infinite() {
            if other.is_infinite() {
                return Number::nan();
            }
            return Number::infinity(negative);
        }
        if other.is_infinite() {
            return Number::zero(negative);
        }
        if other.is_zero() {
            if self.is_zero() {
                return Number::nan();
            }
            return Number::infinity(negative);
        }
        let mut a = self.ticks();
        a.shift_left(1074);
        Number::round(negative, a, other.ticks())
    }

    /// Whether the number is below `other`.
    pub fn less(&self, other: &Number) -> (r: bool)
        ensures
            r == self@.less(other@),
    {
        if self.is_nan() || other.is_nan() {
            return false;
        }
        let x: bool = self.negative();
        let y: bool = other.negative();
        if self.is_infinite() {
            if other.is_infinite() {
                return x && !y;
            }
            return x;
        }
        if other.is_infinite() {
            return !y;
        }
        let a = self.ticks();
        let b = other.ticks();
        if x {
            if y {
                // both count down from zero
                b.minus(&a).is_none()
            } else {
                Natural::new(0).minus(&a).is_none() || Natural::new(0).minus(&b).is_none()
            }
        } else if y {
            false
        } else {
            a.minus(&b).is_none()
        }
    }

    /// Whether the two are equal by value.
    pub fn same(&self, other: &Number) -> (r: bool)
        ensures
            r == self@.same(other@),
    {
        !self.is_nan() && !other.is_nan() && !self.less(other) && !other.less(self)
    }

    /// Whether the number is `other` or below it.
    pub fn at_most(&self, other: &Number) -> (r: bool)
        ensures
            r == self@.at_most(other@),
    {
        self.less(other) || self.same(other)
    }

    /// The greater of the two.
    pub fn larger(&self, other: &Number) -> (r: Number)
        ensures
            r@ == self@.larger(other@),
    {
        if self.is_nan() || self.less(other) {
            *other
        } else {
            *self
        }
    }

    /// The lesser of the two.
    pub fn smaller(&self, other: &Number) -> (r: Number)
        ensures
            r@ == self@.smaller(other@),
    {
        if self.is_nan() || other.less(self) {
            *other
        } else {
            *self
        }
    }

    /// The number nearest to an integer.
    pub fn from_int(n: i128) -> (r: Number)
        ensures
            r@ == nearest_to(n as int),
    {
        let magnitude: u128 = if n < 0 {
            (-(n + 1)) as u128 + 1
        } else {
            n as u128
        };
        let mut ticks = Natural::from_u128(magnitude);
        ticks.shift_left(1074);
        Number::round(n < 0, ticks, Natural::new(1))
    }

    /// The nearest integer, halves away from zero, as far as it fits 64 bits.
    pub fn to_i64(&self) -> (r: i64)
        ensures
            r == self@.to_i64(),
    {
        if self.is_nan() {
            return 0;
        }
        let negative: bool = self.negative();
        if self.is_infinite() {
            return if negative {
                i64::MIN
            } else {
                i64::MAX
            };
        }
        let (m, s) = self.parts();
        let whole: u128 = rounding::whole_ticks(m as u128, s, 0x8000_0000_0000_0000);
        if negative {
            if whole >= 0x8000_0000_0000_0000 {
                i64::MIN
            } else {
                -(whole as i64)
            }
        } else if whole >= 0x8000_0000_0000_0000 {
            i64::MAX
        } else {
            whole as i64
        }
    }
}

/// A finite bit pattern stands for a number that rounding keeps.
pub proof fn lemma_representable(n: Number)
    requires
        n@ is Finite,
    ensures
        rounding::to_53_bits(n@->ticks, 1) == n@->ticks,
        n@->ticks < power2::pow2(2098),
{
    let exponent = (n.bits / EXPONENT_UNIT) % 2048;
    let fraction = n.bits % EXPONENT_UNIT;
    let m: nat = if exponent == 0 {
        fraction as nat
    } else {
        (EXPONENT_UNIT + fraction) as nat
    };
    let s: nat = if exponent == 0 {
        0
    } else {
        (exponent - 1) as nat
    };
    power2::lemma2_to64();
    power2::lemma2_to64_rest();
    assert(m * 1 == m);
    assert(n@->ticks == m * power2::pow2(s));
    assert(rounding::is_grain(m, 1, 0));
    rounding::lemma_shifted(m, s, 0);
    rounding::lemma_half_even_exact(m, 1);
    if s < 2045 {
        power2::lemma_pow2_strictly_increases(s, 2045);
    }
    power2::lemma_pow2_pos(s);
    power2::lemma_pow2_adds(53, 2045);
    let p = power2::pow2(s);
    let q = power2::pow2(2045);
    assert(m * p < 0x20_0000_0000_0000 * q) by (nonlinear_arith)
        requires
            0 <= m < 0x20_0000_0000_0000,
            0 < p <= q,
    ;
}

/// Sums and products are rounded.
pub proof fn lemma_results_are_rounded(a: Float, b: Float)
    ensures
        a.is_rounded() && b.is_rounded() ==> a.plus(b).is_rounded(),
        a is Finite && b is Finite ==> a.plus(b).is_rounded(),
        a.times(b).is_rounded(),
        (Float::Finite { negative: false, ticks: 0 }).is_rounded(),
{
    power2::lemma_pow2_pos(1074);
    power2::lemma_pow2_pos(2098);
    rounding::lemma_zero(1);
    if a is Finite && b is Finite {
        let sum = a.signed_ticks() + b.signed_ticks();
        if sum < 0 {
            rounding::lemma_rounds_once((-sum) as nat, 1);
        } else {
            rounding::lemma_rounds_once(sum as nat, 1);
        }
        rounding::lemma_rounds_once(a->ticks * b->ticks, power2::pow2(1074));
    }
}

/// Adding a zero to a rounded number keeps it, but for the sign of a zero.
pub proof fn lemma_plus_zero(a: Float)
    requires
        a.is_rounded(),
    ensures
        a.plus(Float::Finite { negative: false, ticks: 0 }) == (if a == (Float::Finite {
            negative: true,
            ticks: 0,
        }) {
            Float::Finite { negative: false, ticks: 0 }
        } else {
            a
        }),
{
}

/// A finite number less itself is zero, and adding a zero changes nothing.
pub proof fn lemma_zero_sums(a: Float, b: Float)
    requires
        a is Finite,
        b is Finite,
        rounding::to_53_bits(b->ticks, 1) == b->ticks,
        b->ticks < power2::pow2(2098),
    ensures
        a.minus(a) == (Float::Finite { negative: false, ticks: 0 }),
        forall|negative: bool|
            (#[trigger] (Float::Finite { negative, ticks: 0 }).plus(b)).same(b),
{
}

/// A finite number times a zero is a zero.
pub proof fn lemma_zero_product(a: Float, negative: bool)
    requires
        a is Finite,
    ensures
        ({
            let zero = Float::Finite { negative, ticks: 0 };
            &&& a.times(zero) == (Float::Finite { negative: a.is_negative() != negative, ticks: 0 })
            &&& zero.times(a) == (Float::Finite { negative: a.is_negative() != negative, ticks: 0 })
        }),
{
    let d = power2::pow2(1074);
    power2::lemma_pow2_pos(1074);
    assert(a->ticks * 0 == 0 && 0 * a->ticks == 0) by (nonlinear_arith);
    rounding::lemma_zero(d);
    power2::lemma_pow2_pos(2098);
}

/// The distance of `n` from zero.
pub open spec fn size(n: int) -> int {
    if n < 0 {
        -n
    } else {
        n
    }
}

/// What is rounded in range stays finite, keeps its sign, and moves by at most one part in `2^53` and
/// half a tick.
proof fn lemma_rounded(negative: bool, num: nat, den: nat)
    requires
        den > 0,
        num < power2::pow2(2097) * den,
    ensures
        ({
            let r = rounded(negative, num, den);
            let n = if negative {
                -(num as int)
            } else {
                num as int
            };
            let moved = power2::pow2(53) * (r.signed_ticks() * den - n);
            &&& r is Finite
            &&& r.is_negative() == negative
            &&& size(moved) <= num + power2::pow2(52) * den
            &&& den == 1 ==> size(moved) <= num
        }),
{
    rounding::lemma_stays_below(num, den, 2097);
    rounding::lemma_error(num, den);
    power2::lemma_pow2_strictly_increases(2097, 2098);
    let t = rounding::to_53_bits(num, den);
    let c = power2::pow2(53);
    assert(c * (-(t as int) * den - (-(num as int))) == -(c * (t * den - num))) by (nonlinear_arith);
}

/// A sum in range is finite, and off by at most one part in `2^53`.
pub proof fn lemma_sum(a: Float, b: Float)
    requires
        a is Finite,
        b is Finite,
        size(a.signed_ticks() + b.signed_ticks()) < power2::pow2(2097),
    ensures
        a.plus(b) is Finite,
        power2::pow2(53) * size(a.plus(b).signed_ticks() - (a.signed_ticks() + b.signed_ticks()))
            <= size(a.signed_ticks() + b.signed_ticks()),
{
    let sum = a.signed_ticks() + b.signed_ticks();
    let c = power2::pow2(53);
    power2::lemma_pow2_pos(53);
    if sum < 0 {
        lemma_rounded(true, (-sum) as nat, 1);
    } else if sum > 0 {
        lemma_rounded(false, sum as nat, 1);
    }
    let e = a.plus(b).signed_ticks() - sum;
    assert(size(c * e) == c * size(e)) by (nonlinear_arith)
        requires
            c > 0,
    ;
    assert(c * 0 == 0);
}

/// A difference in range is finite, and off by at most one part in `2^53`.
pub proof fn lemma_difference(a: Float, b: Float)
    requires
        a is Finite,
        b is Finite,
        size(a.signed_ticks() - b.signed_ticks()) < power2::pow2(2097),
    ensures
        a.minus(b) is Finite,
        power2::pow2(53) * size(a.minus(b).signed_ticks() - (a.signed_ticks() - b.signed_ticks()))
            <= size(a.signed_ticks() - b.signed_ticks()),
{
    lemma_sum(a, b.negated());
}

/// A product in range is finite, and off by at most one part in `2^53` and half a tick.
pub proof fn lemma_product(a: Float, b: Float)
    requires
        a is Finite,
        b is Finite,
        a->ticks * b->ticks < power2::pow2(2097) * power2::pow2(1074),
    ensures
        a.times(b) is Finite,
        power2::pow2(53) * size(
            a.times(b).signed_ticks() * power2::pow2(1074) - a.signed_ticks() * b.signed_ticks(),
        ) <= size(a.signed_ticks() * b.signed_ticks()) + power2::pow2(52) * power2::pow2(1074),
{
    let c = power2::pow2(53);
    power2::lemma_pow2_pos(53);
    power2::lemma_pow2_pos(1074);
    let negative = a.is_negative() != b.is_negative();
    let x = a->ticks as int;
    let y = b->ticks as int;
    lemma_rounded(negative, a->ticks * b->ticks, power2::pow2(1074));
    assert((-x) * y == -(x * y) && x * (-y) == -(x * y) && (-x) * (-y) == x * y && x * y >= 0)
        by (nonlinear_arith)
        requires
            x >= 0,
            y >= 0,
    ;
    let e = a.times(b).signed_ticks() * power2::pow2(1074) - a.signed_ticks() * b.signed_ticks();
    assert(size(c * e) == c * size(e)) by (nonlinear_arith)
        requires
            c > 0,
    ;
}

/// A quotient in range is finite, and off by at most one part in `2^53` and half a tick.
pub proof fn lemma_quotient(a: Float, b: Float)
    requires
        a is Finite,
        b is Finite,
        b.signed_ticks() > 0,
        a->ticks * power2::pow2(1074) < power2::pow2(2097) * b->ticks,
    ensures
        a.over(b) is Finite,
        power2::pow2(53) * size(
            a.over(b).signed_ticks() * b.signed_ticks() - a.signed_ticks() * power2::pow2(1074),
        ) <= size(a.signed_ticks() * power2::pow2(1074)) + power2::pow2(52) * b.signed_ticks(),
{
    let c = power2::pow2(53);
    let u = power2::pow2(1074);
    power2::lemma_pow2_pos(53);
    power2::lemma_pow2_pos(1074);
    let x = a->ticks as int;
    lemma_rounded(a.is_negative(), a->ticks * u, b->ticks);
    assert((-x) * u == -(x * u) && x * u >= 0) by (nonlinear_arith)
        requires
            x >= 0,
            u >= 0,
    ;
    let e = a.over(b).signed_ticks() * b.signed_ticks() - a.signed_ticks() * u;
    assert(size(c * e) == c * size(e)) by (nonlinear_arith)
        requires
            c > 0,
    ;
}

/// The size of a product is the product of the sizes.
pub proof fn lemma_size_of_product(a: int, b: int)
    ensures
        size(a * b) == size(a) * size(b),
{
    assert((-a) * b == -(a * b) && a * (-b) == -(a * b) && (-a) * (-b) == a * b) by (nonlinear_arith);
    assert(size(a) * size(b) >= 0) by (nonlinear_arith)
        requires
            size(a) >= 0,
            size(b) >= 0,
    ;
    if a == 0 || b == 0 {
        assert(a * b == 0 && size(a) * size(b) == 0) by (nonlinear_arith)
            requires
                a == 0 || b == 0,
                a == 0 ==> size(a) == 0,
                b == 0 ==> size(b) == 0,
        ;
    } else if (a < 0) == (b < 0) {
        assert(a * b > 0) by (nonlinear_arith)
            requires
                (a < 0 && b < 0) || (a > 0 && b > 0),
        ;
    } else {
        assert(a * b < 0) by (nonlinear_arith)
            requires
                (a < 0 && b > 0) || (a > 0 && b < 0),
        ;
    }
}

/// What is off by at most one part in `e` is off by at most all of it, and by half of it.
pub proof fn lemma_part(off: int, whole: int, e: int)
    requires
        off >= 0,
        e >= 2,
        e * off <= whole,
    ensures
        2 * off <= whole,
        off <= whole,
{
    assert(2 * off <= e * off) by (nonlinear_arith)
        requires
            off >= 0,
            e >= 2,
    ;
}

/// A rounded quotient of what is at most four times the divisor is at most twelve units.
pub proof fn lemma_quotient_is_small(f: int, d: int, n: int, unit: int, e: int)
    requires
        e >= 4,
        unit >= 4 * e,
        0 <= n <= 4 * d,
        0 < d,
        e * size(f * d - n * unit) <= n * unit + e * d,
    ensures
        f <= 12 * unit,
{
    let e3 = f * d - n * unit;
    assert(e * (f * d) <= (e + 1) * (n * unit) + e * d) by (nonlinear_arith)
        requires
            e * size(e3) <= n * unit + e * d,
            e3 == f * d - n * unit,
            e3 <= size(e3),
            e >= 4,
    ;
    assert((e + 1) * (n * unit) <= (e + 1) * (4 * d * unit)) by (nonlinear_arith)
        requires
            0 <= n <= 4 * d,
            unit >= 0,
            e >= 4,
    ;
    assert((e + 1) * (4 * d * unit) + e * d <= e * (12 * unit * d)) by (nonlinear_arith)
        requires
            e >= 4,
            unit >= 4 * e,
            d > 0,
    ;
    assert(f <= 12 * unit) by (nonlinear_arith)
        requires
            e * (f * d) <= e * (12 * unit * d),
            e > 0,
            d > 0,
    ;
}

/// The steps of an interpolation, each off by its rounding: a quotient `f` of `part` by `span`, scaled by
/// `unit`, and the product `p` of `f` and `rise`. The rounded ones are `n`, `d` and `l`.
#[verifier::spinoff_prover]
#[verifier::rlimit(40)]
pub proof fn lemma_proportion(
    part: int,
    span: int,
    rise: int,
    n: int,
    d: int,
    f: int,
    l: int,
    p: int,
    unit: int,
    e: int,
)
    requires
        e >= 4,
        unit >= 4 * e,
        0 <= part <= span,
        0 < span,
        0 <= n,
        0 < d,
        0 <= f,
        e * size(n - part) <= part,
        e * size(d - span) <= span,
        e * size(f * d - n * unit) <= n * unit + e * d,
        e * size(l - rise) <= size(rise),
        e * size(p * unit - f * l) <= size(f * l) + e * unit,
    ensures
        f <= 12 * unit,
        size(l) <= 2 * size(rise),
        size(p) <= 48 * size(rise) + 1,
        e * size(p * span - part * rise) <= span * (64 * size(rise) + e),
{
    let big = size(rise);
    let e1 = n - part;
    let e2 = d - span;
    let e3 = f * d - n * unit;
    let e4 = l - rise;
    let e5 = p * unit - f * l;
    lemma_part(size(e1), part, e);
    lemma_part(size(e2), span, e);
    lemma_part(size(e4), big, e);
    assert(n <= 2 * span && span <= 2 * d && d <= 2 * span && size(l) <= 2 * big);
    lemma_quotient_is_small(f, d, n, unit, e);
    // the product
    lemma_size_of_product(f, l);
    let fl = f * size(l);
    assert(0 <= fl <= 24 * unit * big) by (nonlinear_arith)
        requires
            fl == f * size(l),
            0 <= f <= 12 * unit,
            0 <= size(l) <= 2 * big,
            unit >= 0,
    ;
    assert(size(e5) <= 24 * unit * big + unit) by (nonlinear_arith)
        requires
            e * size(e5) <= fl + e * unit,
            0 <= fl <= 24 * unit * big,
            e >= 4,
            size(e5) >= 0,
    ;
    lemma_size_of_product(p, unit);
    assert(size(p * unit) <= size(f * l) + size(e5));
    assert(size(p) <= 48 * big + 1) by (nonlinear_arith)
        requires
            size(p) * unit <= fl + size(e5),
            fl <= 24 * unit * big,
            size(e5) <= 24 * unit * big + unit,
            unit > 0,
    ;
    // what is off, times the unit
    let off = p * span - part * rise;
    let w1 = e4 * (part * unit);
    let w2 = l * (e1 * unit);
    let w3 = l * e3;
    let w4 = l * (f * e2);
    let w5 = e5 * span;
    assert(off * unit == (p * unit) * span - rise * (part * unit)) by (nonlinear_arith)
        requires
            off == p * span - part * rise,
    ;
    assert((p * unit) * span == (f * l) * span + w5) by (nonlinear_arith)
        requires
            w5 == e5 * span,
            p * unit == f * l + e5,
    ;
    let fs = f * span;
    assert((f * l) * span == l * fs) by (nonlinear_arith)
        requires
            fs == f * span,
    ;
    let pu = part * unit;
    let eu = e1 * unit;
    let fe = f * e2;
    assert(n * unit == pu + eu) by (nonlinear_arith)
        requires
            n == part + e1,
            pu == part * unit,
            eu == e1 * unit,
    ;
    assert(fs == f * d - fe) by (nonlinear_arith)
        requires
            fs == f * span,
            fe == f * e2,
            e2 == d - span,
    ;
    assert(fs == pu + eu + e3 - fe);
    assert(l * fs == l * pu + l * eu + l * e3 - l * fe) by (nonlinear_arith)
        requires
            fs == pu + eu + e3 - fe,
    ;
    assert(l * pu == rise * pu + e4 * pu) by (nonlinear_arith)
        requires
            l == rise + e4,
    ;
    assert(off * unit == w1 + w2 + w3 - w4 + w5);
    let area = big * (span * unit);
    lemma_size_of_product(e4, part * unit);
    lemma_size_of_product(part, unit);
    assert(e * size(w1) <= area) by (nonlinear_arith)
        requires
            size(w1) == size(e4) * (part * unit),
            e * size(e4) <= big,
            0 <= part <= span,
            unit > 0,
            area == big * (span * unit),
            size(e4) >= 0,
            big >= 0,
    ;
    lemma_size_of_product(l, e1 * unit);
    lemma_size_of_product(e1, unit);
    assert(e * size(w2) <= 2 * area) by (nonlinear_arith)
        requires
            size(w2) == size(l) * (size(e1) * unit),
            e * size(e1) <= part,
            0 <= part <= span,
            0 <= size(l) <= 2 * big,
            unit > 0,
            area == big * (span * unit),
            size(e1) >= 0,
    ;
    lemma_size_of_product(l, e3);
    assert(n * unit + e * d <= 3 * (span * unit)) by (nonlinear_arith)
        requires
            0 <= n <= 2 * span,
            0 < d <= 2 * span,
            unit >= 4 * e,
            e > 0,
    ;
    assert(e * size(w3) <= 6 * area) by (nonlinear_arith)
        requires
            size(w3) == size(l) * size(e3),
            e * size(e3) <= 3 * (span * unit),
            0 <= size(l) <= 2 * big,
            area == big * (span * unit),
            size(e3) >= 0,
            span * unit >= 0,
            e > 0,
    ;
    lemma_size_of_product(l, f * e2);
    lemma_size_of_product(f, e2);
    assert(e * size(w4) <= 24 * area) by (nonlinear_arith)
        requires
            size(w4) == size(l) * (f * size(e2)),
            e * size(e2) <= span,
            0 <= f <= 12 * unit,
            0 <= size(l) <= 2 * big,
            area == big * (span * unit),
            size(e2) >= 0,
            e > 0,
            unit > 0,
            span > 0,
    ;
    lemma_size_of_product(e5, span);
    assert(e * size(w5) <= 24 * area + e * unit * span) by (nonlinear_arith)
        requires
            size(w5) == size(e5) * span,
            e * size(e5) <= fl + e * unit,
            0 <= fl <= 24 * unit * big,
            area == big * (span * unit),
            span > 0,
    ;
    lemma_size_of_product(off, unit);
    let sum = size(w1) + size(w2) + size(w3) + size(w4) + size(w5);
    assert(size(off) * unit <= sum);
    assert(e * sum <= 57 * area + e * unit * span) by (nonlinear_arith)
        requires
            sum == size(w1) + size(w2) + size(w3) + size(w4) + size(w5),
            e * size(w1) <= area,
            e * size(w2) <= 2 * area,
            e * size(w3) <= 6 * area,
            e * size(w4) <= 24 * area,
            e * size(w5) <= 24 * area + e * unit * span,
    ;
    assert(area >= 0) by (nonlinear_arith)
        requires
            area == big * (span * unit),
            big >= 0,
            span > 0,
            unit > 0,
    ;
    assert(e * size(off) <= span * (64 * big + e)) by (nonlinear_arith)
        requires
            size(off) * unit <= sum,
            e * sum <= 57 * area + e * unit * span,
            area == big * (span * unit),
            area >= 0,
            e > 0,
            unit > 0,
    ;
}

/// Sums keep the order of what is added.
pub proof fn lemma_sum_is_monotone(a: Float, x: Float, y: Float)
    requires
        a is Finite,
        x is Finite,
        y is Finite,
        x.signed_ticks() <= y.signed_ticks(),
        a.plus(x) is Finite,
        a.plus(y) is Finite,
    ensures
        a.plus(x).signed_ticks() <= a.plus(y).signed_ticks(),
{
    let s = a.signed_ticks() + x.signed_ticks();
    let t = a.signed_ticks() + y.signed_ticks();
    if s > 0 {
        rounding::lemma_monotone(s as nat, t as nat, 1);
    } else if t < 0 {
        rounding::lemma_monotone((-t) as nat, (-s) as nat, 1);
    }
}

/// Products with what is not below zero keep the order.
pub proof fn lemma_product_is_monotone(x: Float, y: Float, b: Float)
    requires
        x is Finite,
        y is Finite,
        b is Finite,
        0 <= x.signed_ticks() <= y.signed_ticks(),
        0 <= b.signed_ticks(),
        x.times(b) is Finite,
        y.times(b) is Finite,
    ensures
        x.times(b).signed_ticks() <= y.times(b).signed_ticks(),
{
    let u = power2::pow2(1074);
    power2::lemma_pow2_pos(1074);
    rounding::lemma_zero(u);
    let p = x->ticks * b->ticks;
    let q = y->ticks * b->ticks;
    assert(p <= q) by (nonlinear_arith)
        requires
            p == x->ticks * b->ticks,
            q == y->ticks * b->ticks,
            x->ticks <= y->ticks,
    ;
    rounding::lemma_monotone(p, q, u);
    assert(x->ticks == 0 || b->ticks == 0 ==> p == 0) by (nonlinear_arith)
        requires
            p == x->ticks * b->ticks,
    ;
    assert(y->ticks == 0 || b->ticks == 0 ==> q == 0) by (nonlinear_arith)
        requires
            q == y->ticks * b->ticks,
    ;
}

/// Quotients by what is above zero keep the order.
pub proof fn lemma_quotient_is_monotone(x: Float, y: Float, b: Float)
    requires
        x is Finite,
        y is Finite,
        b is Finite,
        0 <= x.signed_ticks() <= y.signed_ticks(),
        0 < b.signed_ticks(),
        x.over(b) is Finite,
        y.over(b) is Finite,
    ensures
        0 <= x.over(b).signed_ticks() <= y.over(b).signed_ticks(),
{
    let u = power2::pow2(1074);
    power2::lemma_pow2_pos(1074);
    rounding::lemma_zero(b->ticks);
    let p = x->ticks * u;
    let q = y->ticks * u;
    assert(p <= q) by (nonlinear_arith)
        requires
            p == x->ticks * u,
            q == y->ticks * u,
            x->ticks <= y->ticks,
    ;
    rounding::lemma_monotone(p, q, b->ticks);
    assert(x->ticks == 0 ==> p == 0) by (nonlinear_arith)
        requires
            p == x->ticks * u,
    ;
    assert(y->ticks == 0 ==> q == 0) by (nonlinear_arith)
        requires
            q == y->ticks * u,
    ;
}

/// A product of rounded factors, and a number added to it: off from the exact product by the roundings
/// of one factor, `t` instead of `exact`, of the product, `p`, and of the sum, `y`.
pub proof fn lemma_scaled_sum(v: int, exact: int, t: int, p: int, o: int, y: int, unit: int, e: int)
    requires
        e >= 4,
        unit > 0,
        e * size(t - exact) <= size(exact),
        e * size(p * unit - v * t) <= size(v * t) + e * unit,
        e * size(y - (p + o)) <= size(p + o),
    ensures
        e * size((y - o) * unit - v * exact) <= 16 * size(v * exact) + (size(o) + 2 * e) * unit,
{
    let full = size(v * exact);
    let e1 = t - exact;
    let e2 = p * unit - v * t;
    let e3 = y - (p + o);
    lemma_part(size(e1), size(exact), e);
    lemma_size_of_product(v, exact);
    lemma_size_of_product(v, t);
    lemma_size_of_product(v, e1);
    assert(size(v * t) <= 2 * full) by (nonlinear_arith)
        requires
            size(v * t) == size(v) * size(t),
            full == size(v) * size(exact),
            size(t) <= 2 * size(exact),
            size(v) >= 0,
    ;
    assert(e * size(v * e1) <= full) by (nonlinear_arith)
        requires
            size(v * e1) == size(v) * size(e1),
            full == size(v) * size(exact),
            e * size(e1) <= size(exact),
            size(v) >= 0,
    ;
    assert(size(e2) <= full + unit) by (nonlinear_arith)
        requires
            e * size(e2) <= 2 * full + e * unit,
            e >= 4,
            size(e2) >= 0,
            full >= 0,
    ;
    lemma_size_of_product(p, unit);
    assert(size(p) * unit <= 3 * full + unit);
    lemma_size_of_product(e3, unit);
    assert((y - o) * unit - v * exact == e3 * unit + e2 + v * e1) by (nonlinear_arith)
        requires
            e1 == t - exact,
            e2 == p * unit - v * t,
            e3 == y - (p + o),
    ;
    assert(e * (size(e3) * unit) <= (size(p) + size(o)) * unit) by (nonlinear_arith)
        requires
            e * size(e3) <= size(p + o),
            size(p + o) <= size(p) + size(o),
            unit > 0,
    ;
    assert((size(p) + size(o)) * unit == size(p) * unit + size(o) * unit) by (nonlinear_arith);
    let total = size((y - o) * unit - v * exact);
    assert(total <= size(e3) * unit + size(e2) + size(v * e1));
    assert(e * total <= e * (size(e3) * unit) + e * size(e2) + e * size(v * e1)) by (nonlinear_arith)
        requires
            total <= size(e3) * unit + size(e2) + size(v * e1),
            e > 0,
    ;
    assert((size(o) + 2 * e) * unit == size(o) * unit + 2 * (e * unit)) by (nonlinear_arith);
    assert(unit <= e * unit) by (nonlinear_arith)
        requires
            e >= 1,
            unit > 0,
    ;
}

/// Taking a zero from a rounded number keeps it, but for the sign of a zero.
pub proof fn lemma_minus_zero(a: Float)
    requires
        a.is_rounded(),
    ensures
        a.minus(Float::Finite { negative: false, ticks: 0 }) == a,
{
}

/// Products do not depend on the order of their factors.
pub proof fn lemma_times_commutes(a: Float, b: Float)
    ensures
        a.times(b) == b.times(a),
{
    if a is Finite && b is Finite {
        assert(a->ticks * b->ticks == b->ticks * a->ticks) by (nonlinear_arith);
    }
}

/// A rounded number added to a zero is that number.
pub proof fn lemma_zero_plus(a: Float)
    requires
        a.is_rounded(),
    ensures
        ({
            let sum = (Float::Finite { negative: false, ticks: 0 }).plus(a);
            sum == a || sum.same(a) && sum == (Float::Finite { negative: false, ticks: 0 })
        }),
{
}

/// A zero added first makes no difference to a sum, but for the sign of a zero.
pub proof fn lemma_zero_first(a: Float, b: Float)
    requires
        a.is_rounded(),
        a.plus(b) !is Nan,
    ensures
        a.plus(b).same(a.plus(Float::Finite { negative: false, ticks: 0 }).plus(b)),
{
    lemma_plus_zero(a);
}

/// A whole number of less than 53 bits is a number itself.
pub proof fn lemma_whole_number(n: nat)
    requires
        n < 0x20_0000_0000_0000,
    ensures
        nearest_to(n as int) == (Float::Finite {
            negative: false,
            ticks: (n * power2::pow2(1074)) as nat,
        }),
{
    let u = power2::pow2(1074);
    power2::lemma2_to64();
    power2::lemma2_to64_rest();
    power2::lemma_pow2_pos(1074);
    assert(n * 1 == n);
    assert(rounding::is_grain(n, 1, 0));
    rounding::lemma_shifted(n, 1074, 0);
    rounding::lemma_half_even_exact(n, 1);
    power2::lemma_pow2_adds(53, 1074);
    power2::lemma_pow2_strictly_increases(1127, 2098);
    assert(n * u < 0x20_0000_0000_0000 * u) by (nonlinear_arith)
        requires
            n < 0x20_0000_0000_0000,
            u > 0,
    ;
}

/// The number nearest to an integer is off by at most one part in `2^53`.
pub proof fn lemma_nearest(n: int)
    requires
        size(n) * power2::pow2(1074) < power2::pow2(2097),
    ensures
        nearest_to(n) is Finite,
        power2::pow2(53) * size(nearest_to(n).signed_ticks() - n * power2::pow2(1074)) <= size(
            n * power2::pow2(1074),
        ),
{
    let u = power2::pow2(1074) as int;
    let c = power2::pow2(53) as int;
    power2::lemma_pow2_pos(1074);
    power2::lemma_pow2_pos(53);
    assert((-n) * u == -(n * u)) by (nonlinear_arith);
    lemma_size_of_product(n, u);
    assert(size(n) * u >= 0) by (nonlinear_arith)
        requires
            size(n) >= 0,
            u > 0,
    ;
    if n < 0 {
        lemma_rounded(true, ((-n) * u) as nat, 1);
    } else {
        lemma_rounded(false, (n * u) as nat, 1);
    }
    let e = nearest_to(n).signed_ticks() - n * u;
    assert(size(c * e) == c * size(e)) by (nonlinear_arith)
        requires
            c > 0,
    ;
}

/// Sums do not depend on the order of what is added.
pub proof fn lemma_plus_commutes(a: Float, b: Float)
    ensures
        a.plus(b) == b.plus(a),
{
}

} // verus!
