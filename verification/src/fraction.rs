//! The decimal fraction of a time value, taken to whole units in binary64 arithmetic.
//!
//! A fraction is read as the binary64 number nearest to it, multiplied in binary64 by the number of
//! nanoseconds in the unit, and rounded to an integer, halves away from zero.
use crate::natural::Natural;
use crate::numeral;
use crate::rounding;
use crate::text::chars_of;
use vstd::arithmetic::power;
use vstd::arithmetic::power2;
use vstd::prelude::*;

verus! {

/// `num / den` in binary64, times `unit` in binary64, rounded to an integer.
pub open spec fn scaled(num: nat, den: nat, unit: nat) -> nat {
    rounding::nearest_whole(rounding::to_53_bits(rounding::to_53_bits(num * power2::pow2(1074), den) * unit, 1))
}

/// How many digits `s` starts with.
pub open spec fn digit_run(s: Seq<char>) -> nat
    decreases s.len(),
{
    if s.len() > 0 && numeral::is_digit(s[0]) {
        1 + digit_run(s.drop_first())
    } else {
        0
    }
}

/// The exponent after the digits of a fraction: none, or `e` or `E` and a signed numeral.
pub open spec fn exponent_value(s: Seq<char>) -> Option<int> {
    if s.len() == 0 {
        Some(0)
    } else if s[0] == 'e' || s[0] == 'E' {
        numeral::signed_value(s.drop_first())
    } else {
        None
    }
}

/// `digits` behind a decimal point, times ten to the `exponent`, in units of which `unit` make one.
pub open spec fn decimal_ns(digits: Seq<char>, exponent: int, unit: nat) -> nat {
    let shift = exponent - digits.len();
    let n = numeral::digits_value(digits);
    let v = if shift >= 0 {
        scaled((n * power::pow(10, shift as nat)) as nat, 1, unit)
    } else {
        scaled(n, power::pow(10, (-shift) as nat) as nat, unit)
    };
    if v <= i128::MAX {
        v
    } else {
        i128::MAX as nat
    }
}

/// The nanoseconds that stand behind the decimal point of a value counted in `unit` nanoseconds:
/// digits, then an optional exponent; at most `i128::MAX`.
pub open spec fn fraction_value(s: Seq<char>, unit: nat) -> Option<nat> {
    let k = digit_run(s) as int;
    match exponent_value(s.skip(k)) {
        Some(exponent) => Some(decimal_ns(s.take(k), exponent, unit)),
        None => None,
    }
}

/// `10^j` is at least `2^(3j)`.
proof fn lemma_pow10_large(j: nat)
    ensures
        power::pow(10, j) >= power2::pow2(3 * j),
    decreases j,
{
    reveal(power::pow);
    if j == 0 {
        power2::lemma2_to64();
    } else {
        lemma_pow10_large((j - 1) as nat);
        power2::lemma_pow2_adds(3, (3 * (j - 1)) as nat);
        power2::lemma2_to64();
    }
}

/// A value of `2^1300` ticks or more is beyond 128 bits.
proof fn lemma_huge(n: nat, d: nat, unit: nat)
    requires
        d > 0,
        unit > 0,
        n >= power2::pow2(1300) * d,
    ensures
        rounding::nearest_whole(rounding::to_53_bits(rounding::to_53_bits(n, d) * unit, 1)) > i128::MAX,
{
    rounding::lemma_keeps_size(n, d, 1300);
    let x = rounding::to_53_bits(n, d);
    assert(x * unit >= x) by (nonlinear_arith)
        requires
            unit >= 1,
    ;
    rounding::lemma_keeps_size(x * unit, 1, 1300);
    let y = rounding::to_53_bits(x * unit, 1);
    power2::lemma_pow2_adds(225, 1075);
    power2::lemma_pow2_pos(1075);
    power2::lemma_pow2_pos(1074);
    vstd::arithmetic::div_mod::lemma_div_is_ordered(
        power2::pow2(1300) as int,
        (2 * y + power2::pow2(1074)) as int,
        power2::pow2(1075) as int,
    );
    vstd::arithmetic::div_mod::lemma_div_multiples_vanish(
        power2::pow2(225) as int,
        power2::pow2(1075) as int,
    );
    assert(power2::pow2(1075) * power2::pow2(225) == power2::pow2(1300)) by (nonlinear_arith)
        requires
            power2::pow2(1300) == power2::pow2(225) * power2::pow2(1075),
    ;
    power2::lemma_pow2_strictly_increases(128, 225);
    power2::lemma_pow2_adds(64, 64);
    power2::lemma2_to64();
}

/// A value of less than half a tick is nothing.
proof fn lemma_tiny(n: nat, d: nat, unit: nat)
    requires
        d > 0,
        2 * n < d,
    ensures
        rounding::nearest_whole(rounding::to_53_bits(rounding::to_53_bits(n, d) * unit, 1)) == 0,
{
    power2::lemma_pow2_pos(0);
    power2::lemma_pow2_pos(53);
    let p = power2::pow2(53);
    assert(n < p * d) by (nonlinear_arith)
        requires
            p >= 1,
            n < d,
    ;
    assert(power2::pow2(0) == 1) by {
        power2::lemma2_to64();
    }
    assert(rounding::is_grain(n, d, 0));
    rounding::lemma_grain_unique(n, d, 0);
    assert(d * 1 == d);
    vstd::arithmetic::div_mod::lemma_basic_div(n as int, d as int);
    vstd::arithmetic::div_mod::lemma_small_mod(n, d);
    assert(rounding::to_53_bits(n, d) == 0);
    assert(0 * unit == 0) by (nonlinear_arith);
    assert(rounding::is_grain(0, 1, 0));
    rounding::lemma_grain_unique(0, 1, 0);
    assert(rounding::to_53_bits(0, 1) == 0);
    power2::lemma_pow2_strictly_increases(1074, 1075);
    vstd::arithmetic::div_mod::lemma_basic_div(
        power2::pow2(1074) as int,
        power2::pow2(1075) as int,
    );
}

/// Multiplies by `10^k`.
fn shift_decimal(n: &mut Natural, k: usize)
    ensures
        final(n)@ == old(n)@ * power::pow(10, k as nat),
{
    let mut i: usize = 0;
    let ghost start = n@;
    proof {
        reveal(power::pow);
        assert(start * 1 == start);
    }
    while i < k
        invariant
            i <= k,
            n@ == start * power::pow(10, i as nat),
        decreases k - i,
    {
        n.mul_add(10, 0);
        proof {
            reveal(power::pow);
            let p = power::pow(10, i as nat);
            assert(power::pow(10, (i + 1) as nat) == 10 * p);
            assert(start * p * 10 == start * (10 * p)) by (nonlinear_arith);
        }
        i = i + 1;
    }
}

/// The number that the first `to` characters, all digits, stand for.
fn leading_number(x: &Vec<char>, to: usize) -> (r: Natural)
    requires
        to <= x@.len(),
        numeral::all_digits(x@.take(to as int)),
    ensures
        r@ == numeral::digits_value(x@.take(to as int)),
{
    let mut n = Natural::new(0);
    let mut i: usize = 0;
    assert(x@.take(0) =~= Seq::<char>::empty());
    while i < to
        invariant
            i <= to <= x@.len(),
            numeral::all_digits(x@.take(to as int)),
            n@ == numeral::digits_value(x@.take(i as int)),
        decreases to - i,
    {
        assert(x@.take(to as int)[i as int] == x@[i as int]);
        let d: u8 = numeral::digit_number(x[i]);
        n.mul_add(10, d as u32);
        assert(x@.take(i + 1).drop_last() =~= x@.take(i as int));
        i = i + 1;
    }
    n
}

/// `m * 2^s` ticks times `unit`, as a whole number of at most `i128::MAX`.
fn scale_ticks(m: u64, s: u32, unit: u32) -> (r: i128)
    requires
        m <= 0x20_0000_0000_0000,
        s <= 1300,
    ensures
        ({
            let v = rounding::nearest_whole(rounding::to_53_bits((m as nat) * power2::pow2(s as nat) * (unit as nat), 1));
            r == if v <= i128::MAX {
                v
            } else {
                i128::MAX as nat
            }
        }),
{
    assert(m * unit <= 0x20_0000_0000_0000 * 0xffff_ffff) by (nonlinear_arith)
        requires
            m <= 0x20_0000_0000_0000,
            unit <= 0xffff_ffffu32,
    ;
    let a: u128 = (m as u128) * (unit as u128);
    let mut t: u32 = 0;
    let mut bound: u128 = 0x20_0000_0000_0000;
    let mut step: u128 = 1;
    proof {
        power2::lemma2_to64();
        power2::lemma2_to64_rest();
    }
    while a >= bound
        invariant
            a <= 0x20_0000_0000_0000 * 0xffff_ffff,
            t <= 32,
            bound == power2::pow2((53 + t) as nat),
            step == power2::pow2(t as nat),
            t == 0 || !rounding::fits(a as nat, 1, (t - 1) as nat),
            power2::pow2(53) == 0x20_0000_0000_0000,
        decreases 33 - t,
    {
        proof {
            power2::lemma_pow2_unfold((53 + t + 1) as nat);
            power2::lemma_pow2_unfold((t + 1) as nat);
            power2::lemma2_to64();
            power2::lemma2_to64_rest();
            if t == 32 {
                power2::lemma_pow2_adds(53, 32);
                assert(false);
            }
            power2::lemma_pow2_adds(53, t as nat);
            if t < 32 {
                power2::lemma_pow2_strictly_increases(t as nat, 32);
            }
            assert(power2::pow2(53) * power2::pow2(t as nat) <= 0x20_0000_0000_0000 * 0x1_0000_0000)
                by (nonlinear_arith)
                requires
                    power2::pow2(53) == 0x20_0000_0000_0000,
                    power2::pow2(t as nat) <= 0x1_0000_0000,
            ;
            assert(!rounding::fits(a as nat, 1, t as nat));
        }
        bound = bound * 2;
        step = step * 2;
        t = t + 1;
    }
    let q: u128 = a / step;
    let rem: u128 = a % step;
    let sig: u128 = if 2 * rem > step || (2 * rem == step && q % 2 == 1) {
        q + 1
    } else {
        q
    };
    let e: u32 = s + t;
    let ghost ticks = sig * power2::pow2(e as nat);
    proof {
        assert(rounding::is_grain(a as nat, 1, t as nat));
        rounding::lemma_shifted(a as nat, s as nat, t as nat);
        assert(sig == rounding::half_even(a as nat, step as nat));
        let ps = power2::pow2(s as nat);
        assert(m * ps * unit == (m * unit) * ps) by (nonlinear_arith);
        assert(ticks == rounding::to_53_bits((m as nat) * ps * (unit as nat), 1));
        power2::lemma_pow2_pos(t as nat);
        power2::lemma_pow2_adds(53, t as nat);
        assert(a < 0x20_0000_0000_0000 * step);
        assert(q < 0x20_0000_0000_0000) by (nonlinear_arith)
            requires
                a < 0x20_0000_0000_0000 * step,
                q == a / step,
                step > 0,
        ;
        assert(sig <= 0x20_0000_0000_0000);
    }
    rounding::whole_ticks(sig, e, i128::MAX as u128) as i128
}

/// How many digits `x` starts with.
fn count_digits(x: &Vec<char>) -> (r: usize)
    ensures
        r == digit_run(x@),
        r <= x@.len(),
        numeral::all_digits(x@.take(r as int)),
{
    let mut i: usize = 0;
    assert(x@.skip(0) =~= x@);
    while i < x.len() && numeral::digit(x[i])
        invariant
            i <= x@.len(),
            digit_run(x@) == i + digit_run(x@.skip(i as int)),
            numeral::all_digits(x@.take(i as int)),
        decreases x@.len() - i,
    {
        assert(x@.skip(i as int).drop_first() =~= x@.skip(i + 1));
        assert(x@.take(i + 1) =~= x@.take(i as int).push(x@[i as int]));
        i = i + 1;
    }
    i
}

/// The exponent that starts at `from`: whether it is negative, and its size (`None` where that is
/// over `u128::MAX`).
fn read_exponent(x: &Vec<char>, from: usize) -> (r: Option<(bool, Option<u128>)>)
    requires
        from <= x@.len(),
    ensures
        (match r {
            Some((negative, size)) => exponent_value(x@.skip(from as int)) matches Some(v) && (
            match size {
                Some(z) => v == if negative {
                    -(z as int)
                } else {
                    z as int
                },
                None => if negative {
                    v < -(u128::MAX as int)
                } else {
                    v > u128::MAX
                },
            }),
            None => exponent_value(x@.skip(from as int)) is None,
        }),
{
    let ghost s = x@.skip(from as int);
    if from == x.len() {
        return Some((false, Some(0)));
    }
    assert(s[0] == x@[from as int]);
    if x[from] != 'e' && x[from] != 'E' {
        return None;
    }
    let ghost t = s.drop_first();
    if from + 1 == x.len() {
        return None;
    }
    assert(t[0] == x@[from + 1]);
    let signed: bool = x[from + 1] == '-' || x[from + 1] == '+';
    let start: usize = if signed {
        from + 2
    } else {
        from + 1
    };
    let ghost digits = x@.subrange(start as int, x@.len() as int);
    assert(digits =~= if signed {
        t.drop_first()
    } else {
        t
    });
    if start == x.len() || !numeral::only_digits(x, start, x.len()) {
        return None;
    }
    Some((x[from + 1] == '-', numeral::read_digits(x, start, x.len())))
}

/// The nanoseconds that the text behind a decimal point stands for, in a value counted in `unit`
/// nanoseconds.
pub fn fraction_ns(frac: &str, unit: u32) -> (r: Option<i128>)
    requires
        unit > 0,
    ensures
        (match r {
            Some(v) => v >= 0 && fraction_value(frac@, unit as nat) == Some(v as nat),
            None => fraction_value(frac@, unit as nat) is None,
        }),
{
    let x = chars_of(frac);
    let k: usize = count_digits(&x);
    let (negative, size): (bool, Option<u128>) = match read_exponent(&x, k) {
        Some(e) => e,
        None => {
            return None;
        },
    };
    let mut num = leading_number(&x, k);
    let mut den = Natural::new(1);
    let ghost digits = frac@.take(k as int);
    let ghost n = numeral::digits_value(digits);
    let ghost exponent = exponent_value(frac@.skip(k as int))->0;
    let ghost shift = exponent - k;
    let ghost two = power2::pow2(1074);
    proof {
        power2::lemma_pow2_pos(1074);
        if shift < 0 {
            power::lemma_pow_positive(10, (-shift) as nat);
        } else {
            power::lemma_pow_positive(10, shift as nat);
        }
    }
    if Natural::new(0).minus(&num).is_some() {
        proof {
            assert(n == 0);
            assert(0 * two == 0) by (nonlinear_arith);
            if shift < 0 {
                lemma_tiny(0, power::pow(10, (-shift) as nat) as nat, unit as nat);
            } else {
                assert(0 * power::pow(10, shift as nat) == 0) by (nonlinear_arith);
                lemma_tiny(0, 1, unit as nat);
            }
        }
        return Some(0);
    }
    let far: bool = match size {
        Some(z) => if negative {
            z > 400
        } else {
            z > k as u128 + 400
        },
        None => true,
    };
    if far && negative {
        proof {
            let up = (-shift) as nat;
            numeral::lemma_digits_value_bound(digits);
            power::lemma_pow_adds(10, k as nat, (up - k) as nat);
            power::lemma_pow_positive(10, k as nat);
            lemma_pow10_large((up - k) as nat);
            power2::lemma_pow2_adds(1, 1074);
            power2::lemma2_to64();
            power2::lemma_pow2_strictly_increases(1075, (3 * (up - k)) as nat);
            let a = power::pow(10, k as nat);
            let b = power::pow(10, (up - k) as nat);
            assert(2 * (n * two) < a * b) by (nonlinear_arith)
                requires
                    0 <= n < a,
                    2 * two <= b,
                    two > 0,
            ;
            lemma_tiny(n * two, (a * b) as nat, unit as nat);
        }
        return Some(0);
    }
    if far {
        proof {
            let t = power::pow(10, shift as nat);
            lemma_pow10_large(shift as nat);
            power2::lemma_pow2_strictly_increases(226, (3 * shift) as nat);
            power2::lemma_pow2_adds(226, 1074);
            assert((n * t) * two >= power2::pow2(226) * two) by (nonlinear_arith)
                requires
                    n >= 1,
                    t >= power2::pow2(226),
                    two > 0,
            ;
            lemma_huge(((n * t) * two) as nat, 1, unit as nat);
        }
        return Some(i128::MAX);
    }
    let z: u128 = match size {
        Some(z) => z,
        None => 0,
    };
    if !negative && z >= k as u128 {
        shift_decimal(&mut num, (z - k as u128) as usize);
    } else if negative {
        assert(k + z == -shift);
        shift_decimal(&mut den, z as usize);
        proof {
            let p = power::pow(10, z as nat);
            assert(1 * p == p);
        }
        assert(den@ == power::pow(10, z as nat));
        shift_decimal(&mut den, k);
        proof {
            power::lemma_pow_adds(10, z as nat, k as nat);
            assert(den@ == power::pow(10, z as nat + k as nat));
            assert(shift < 0 ==> z as nat + k as nat == (-shift) as nat);
            assert(shift >= 0 ==> den@ == 1) by {
                reveal(power::pow);
            }
        }
    } else {
        shift_decimal(&mut den, (k as u128 - z) as usize);
        assert(k - z == -shift);
    }
    num.shift_left(1074);
    proof {
        assert(shift < 0 ==> den@ == power::pow(10, (-shift) as nat));
        assert(shift >= 0 ==> den@ == 1);
    }
    let ghost ticks = num@;
    let ghost over = den@;
    match rounding::round_quotient(num, den, 1300) {
        Some((m, s)) => Some(scale_ticks(m, s, unit)),
        None => {
            proof {
                lemma_huge(ticks, over, unit as nat);
            }
            Some(i128::MAX)
        },
    }
}

/// A fraction that is a whole number of nanoseconds, over a denominator that divides the unit, comes
/// out as that number.
pub proof fn lemma_scaled_exact(n: nat, d: nat, c: nat, unit: nat, ns: nat)
    requires
        d > 0,
        unit == d * c,
        n * c == ns,
        0 < ns < unit <= 1_000_000_000,
    ensures
        scaled(n, d, unit) == ns,
{
    let t = power2::pow2(1074) as int;
    let p = power2::pow2(53) as int;
    power2::lemma2_to64();
    power2::lemma2_to64_rest();
    power2::lemma_pow2_adds(64, 1010);
    power2::lemma_pow2_pos(1010);
    power2::lemma_pow2_strictly_increases(64, 1010);
    let big = power2::pow2(1010) as int;
    assert(n >= 1 && c >= 1) by (nonlinear_arith)
        requires
            n * c == ns,
            ns > 0,
            n >= 0,
            c >= 0,
    ;
    assert(d <= unit) by (nonlinear_arith)
        requires
            unit == d * c,
            c >= 1,
            d > 0,
    ;
    let first = (n * power2::pow2(1074)) as nat;
    assert(first >= t) by (nonlinear_arith)
        requires
            first == n * t,
            n >= 1,
            t > 0,
    ;
    assert(t == 0x1_0000_0000_0000_0000 * big);
    assert(p * d <= t) by (nonlinear_arith)
        requires
            p == 0x20_0000_0000_0000,
            d <= 1_000_000_000,
            t == 0x1_0000_0000_0000_0000 * big,
            big >= 0x1_0000_0000_0000_0000,
    ;
    rounding::lemma_relative_error(first, d);
    let x = rounding::to_53_bits(first, d) as int;
    let e = x * d - first;
    let xu = x * unit;
    let goal = ns * t;
    assert(xu - goal == e * c) by (nonlinear_arith)
        requires
            xu == x * unit,
            unit == d * c,
            goal == ns * t,
            n * c == ns,
            first == n * t,
            e == x * d - first,
    ;
    assert(goal == first * c) by (nonlinear_arith)
        requires
            goal == ns * t,
            n * c == ns,
            first == n * t,
    ;
    assert(-goal <= p * (e * c) <= goal) by (nonlinear_arith)
        requires
            -(first as int) <= p * e <= first,
            goal == first * c,
            c >= 1,
    ;
    assert(goal >= t) by (nonlinear_arith)
        requires
            goal == ns * t,
            ns >= 1,
            t > 0,
    ;
    assert(p * (xu - goal) >= -goal && p * (xu - goal) <= goal);
    assert(xu * 2 >= goal && xu <= 2 * goal) by (nonlinear_arith)
        requires
            -goal <= p * (xu - goal) <= goal,
            p == 0x20_0000_0000_0000,
            goal > 0,
    ;
    assert(xu >= p * 1) by (nonlinear_arith)
        requires
            xu * 2 >= goal,
            goal >= t,
            p == 0x20_0000_0000_0000,
            t == 0x1_0000_0000_0000_0000 * big,
            big >= 0x1_0000_0000_0000_0000,
    ;
    rounding::lemma_relative_error(xu as nat, 1);
    let y = rounding::to_53_bits(xu as nat, 1) as int;
    assert(-3 * goal <= p * (y - goal) <= 3 * goal) by (nonlinear_arith)
        requires
            -goal <= p * (xu - goal) <= goal,
            -xu <= p * (y * 1 - xu) <= xu,
            xu <= 2 * goal,
    ;
    assert(goal <= 1_000_000_000 * t) by (nonlinear_arith)
        requires
            goal == ns * t,
            ns <= 1_000_000_000,
            t > 0,
    ;
    assert(-t <= 4 * (y - goal) <= t) by (nonlinear_arith)
        requires
            -3 * goal <= p * (y - goal) <= 3 * goal,
            goal <= 1_000_000_000 * t,
            p == 0x20_0000_0000_0000,
            t > 0,
    ;
    power2::lemma_pow2_unfold(1075);
    let rest = 2 * y + t - ns * (2 * t);
    assert(ns * (2 * t) == 2 * goal) by (nonlinear_arith)
        requires
            goal == ns * t,
    ;
    vstd::arithmetic::div_mod::lemma_fundamental_div_mod_converse(
        2 * y + t,
        2 * t,
        ns as int,
        rest,
    );
}

/// Nothing behind the decimal point adds nothing.
pub proof fn lemma_scaled_zero(d: nat, unit: nat)
    requires
        d > 0,
    ensures
        scaled(0, d, unit) == 0,
{
    let u = power2::pow2(1074);
    assert(0 * u == 0 && 0 * unit == 0) by (nonlinear_arith);
    rounding::lemma_zero(d);
    rounding::lemma_zero(1);
    power2::lemma_pow2_unfold(1075);
    power2::lemma_pow2_pos(1074);
    vstd::arithmetic::div_mod::lemma_basic_div(u as int, power2::pow2(1075) as int);
}

/// A fraction comes out as the nearest whole number of nanoseconds, but for roundings of less than one
/// part in a million of a nanosecond.
pub proof fn lemma_scaled_is_nearest(n: nat, d: nat, unit: nat)
    requires
        0 < d,
        n < d,
        0 < unit <= 1_000_000_000,
    ensures
        ({
            let off = scaled(n, d, unit) * d - n * unit;
            -(1_000_001 * d) <= 2_000_000 * off <= 1_000_001 * d
        }),
{
    let t = power2::pow2(1074) as int;
    let e = power2::pow2(53) as int;
    let h = power2::pow2(52) as int;
    power2::lemma2_to64();
    power2::lemma2_to64_rest();
    power2::lemma_pow2_unfold(53);
    power2::lemma_pow2_unfold(1075);
    power2::lemma_pow2_adds(64, 1010);
    power2::lemma_pow2_strictly_increases(64, 1010);
    let big = power2::pow2(1010) as int;
    assert(t == 0x1_0000_0000_0000_0000 * big);
    let first = (n * power2::pow2(1074)) as nat;
    rounding::lemma_error(first, d);
    let x = rounding::to_53_bits(first, d) as int;
    let e1 = x * d - first;
    let xu = x * unit;
    rounding::lemma_error((x * unit) as nat, 1);
    let y = rounding::to_53_bits((x * unit) as nat, 1) as int;
    let e2 = y - xu;
    assert(e * (y * 1 - xu) == e * e2);
    let v = scaled(n, d, unit) as int;
    vstd::arithmetic::div_mod::lemma_fundamental_div_mod(2 * y + t, 2 * t);
    let rest = (2 * y + t) % (2 * t);
    assert((2 * t) * v + rest == 2 * y + t);
    assert(0 <= rest < 2 * t);
    let e3 = t - rest;
    assert(2 * (v * t) == 2 * y + e3) by (nonlinear_arith)
        requires
            (2 * t) * v + rest == 2 * y + t,
            e3 == t - rest,
    ;
    // sizes
    assert(0 <= first <= d * t) by (nonlinear_arith)
        requires
            first == n * t,
            0 <= n < d,
            t > 0,
    ;
    let dt = d * t;
    assert(h * d <= dt) by (nonlinear_arith)
        requires
            dt == d * t,
            h <= t,
            d > 0,
    ;
    assert(-(2 * dt) <= e * e1 <= 2 * dt);
    assert(0 <= x * d <= 2 * dt) by (nonlinear_arith)
        requires
            e1 == x * d - first,
            e * e1 <= 2 * dt,
            0 <= first <= dt,
            e >= 4,
            x >= 0,
            d > 0,
    ;
    assert(0 <= xu * d <= 2_000_000_000 * dt) by (nonlinear_arith)
        requires
            xu == x * unit,
            0 <= x * d <= 2 * dt,
            0 < unit <= 1_000_000_000,
    ;
    assert(-(xu * d) <= e * (e2 * d) <= xu * d) by (nonlinear_arith)
        requires
            -xu <= e * e2 <= xu,
            d > 0,
    ;
    // what is off, times the unit and doubled
    let off = v * d - n * unit;
    assert(2 * (off * t) == e3 * d + 2 * (e2 * d) + 2 * (e1 * unit)) by (nonlinear_arith)
        requires
            off == v * d - n * unit,
            2 * (v * t) == 2 * y + e3,
            e2 == y - xu,
            xu == x * unit,
            e1 == x * d - first,
            first == n * t,
    ;
    assert(-dt <= e3 * d <= dt) by (nonlinear_arith)
        requires
            -t <= e3 <= t,
            dt == d * t,
            d > 0,
    ;
    assert(-(2_000_000_000 * dt) <= e * (e1 * unit) <= 2_000_000_000 * dt) by (nonlinear_arith)
        requires
            -(2 * dt) <= e * e1 <= 2 * dt,
            0 < unit <= 1_000_000_000,
            dt >= 0,
    ;
    let small = 2 * (e2 * d) + 2 * (e1 * unit);
    assert(-(8_000_000_000 * dt) <= e * small <= 8_000_000_000 * dt);
    assert(-dt <= 1_000_000 * small <= dt) by (nonlinear_arith)
        requires
            -(8_000_000_000 * dt) <= e * small <= 8_000_000_000 * dt,
            e == 0x20_0000_0000_0000,
            dt >= 0,
    ;
    assert(-(1_000_001 * dt) <= 2_000_000 * (off * t) <= 1_000_001 * dt);
    assert(-(1_000_001 * d) <= 2_000_000 * off <= 1_000_001 * d) by (nonlinear_arith)
        requires
            -(1_000_001 * dt) <= 2_000_000 * (off * t) <= 1_000_001 * dt,
            dt == d * t,
            t > 0,
    ;
}

} // verus!
