//! Rounding to the 53-bit significands of binary64.
//!
//! Every binary64 number below the overflow threshold is a whole number of ticks of `2^-1074`, the
//! smallest positive one, so rounding is stated and computed with natural numbers.
use crate::natural::Natural;
use vstd::arithmetic::power2;
use vstd::prelude::*;

verus! {

/// The quotient rounded to the nearest integer, halves to the even one.
pub open spec fn half_even(n: nat, d: nat) -> nat {
    let q = n / d;
    let r = n % d;
    if 2 * r > d || (2 * r == d && q % 2 == 1) {
        q + 1
    } else {
        q
    }
}

/// `n / d` needs at most 53 bits above its `s` lowest ones.
pub open spec fn fits(n: nat, d: nat, s: nat) -> bool {
    n < power2::pow2(53 + s) * d
}

/// `s` is the least number of low bits of `n / d` beyond which 53 bits are enough.
pub open spec fn is_grain(n: nat, d: nat, s: nat) -> bool {
    fits(n, d, s) && (s == 0 || !fits(n, d, (s - 1) as nat))
}

/// The number of low bits of `n / d` that a 53-bit significand cannot hold.
pub open spec fn grain(n: nat, d: nat) -> nat {
    choose|s: nat| is_grain(n, d, s)
}

/// The number of ticks nearest to `n / d` ticks that a 53-bit significand can hold, halves to the
/// even significand.
pub open spec fn to_53_bits(n: nat, d: nat) -> nat {
    half_even(n, d * power2::pow2(grain(n, d))) * power2::pow2(grain(n, d))
}

/// `ticks` as a whole number, halves away from zero.
pub open spec fn nearest_whole(ticks: nat) -> nat {
    (2 * ticks + power2::pow2(1074)) / power2::pow2(1075)
}

proof fn lemma_fits_monotone(n: nat, d: nat, s: nat, t: nat)
    requires
        fits(n, d, s),
        s <= t,
    ensures
        fits(n, d, t),
{
    if s < t {
        power2::lemma_pow2_strictly_increases(53 + s, 53 + t);
    }
    let a = power2::pow2(53 + s);
    let b = power2::pow2(53 + t);
    assert(a * d <= b * d) by (nonlinear_arith)
        requires
            a <= b,
    ;
}

pub proof fn lemma_grain_unique(n: nat, d: nat, s: nat)
    requires
        is_grain(n, d, s),
    ensures
        grain(n, d) == s,
{
    let t = grain(n, d);
    assert(is_grain(n, d, t));
    if t < s {
        lemma_fits_monotone(n, d, t, (s - 1) as nat);
    } else if s < t {
        lemma_fits_monotone(n, d, s, (t - 1) as nat);
    }
}

proof fn lemma_least(n: nat, d: nat, s: nat)
    requires
        fits(n, d, s),
    ensures
        exists|t: nat| is_grain(n, d, t),
    decreases s,
{
    if s > 0 && fits(n, d, (s - 1) as nat) {
        lemma_least(n, d, (s - 1) as nat);
    } else {
        assert(is_grain(n, d, s));
    }
}

proof fn lemma_pow2_exceeds(n: nat)
    ensures
        n < power2::pow2(n),
    decreases n,
{
    if n == 0 {
        power2::lemma_pow2_pos(0);
    } else {
        lemma_pow2_exceeds((n - 1) as nat);
        power2::lemma_pow2_unfold(n);
    }
}

proof fn lemma_grain(n: nat, d: nat)
    requires
        d > 0,
    ensures
        is_grain(n, d, grain(n, d)),
{
    lemma_pow2_exceeds(n);
    power2::lemma_pow2_strictly_increases(n, 53 + n);
    let p = power2::pow2(53 + n);
    assert(p * d >= p) by (nonlinear_arith)
        requires
            d >= 1,
    ;
    lemma_least(n, d, n);
}

/// Rounding moves `n / d` by at most half.
proof fn lemma_half_even_bounds(n: nat, d: nat)
    requires
        d > 0,
    ensures
        -(d as int) <= 2 * (half_even(n, d) * d - n) <= d,
        half_even(n, d) >= n / d,
{
    let q = n / d;
    let r = n % d;
    assert(n == q * d + r && 0 <= r < d) by (nonlinear_arith)
        requires
            d > 0,
            q == n / d,
            r == n % d,
    ;
    assert((q + 1) * d == q * d + d) by (nonlinear_arith);
}

/// Taking common factors out of numerator and denominator changes nothing.
proof fn lemma_half_even_cancel(n: nat, d: nat, c: nat)
    requires
        d > 0,
        c > 0,
    ensures
        half_even(n * c, d * c) == half_even(n, d),
{
    let q = n / d;
    let r = n % d;
    vstd::arithmetic::div_mod::lemma_fundamental_div_mod(n as int, d as int);
    assert(d * c > 0 && n * c == q * (d * c) + r * c && r * c < d * c) by (nonlinear_arith)
        requires
            n == d * q + r,
            0 <= r < d,
            c > 0,
    ;
    assert(r * c >= 0) by (nonlinear_arith);
    vstd::arithmetic::div_mod::lemma_fundamental_div_mod_converse(
        (n * c) as int,
        (d * c) as int,
        q as int,
        (r * c) as int,
    );
    assert((2 * r > d) == (2 * (r * c) > d * c) && (2 * r == d) == (2 * (r * c) == d * c))
        by (nonlinear_arith)
        requires
            c > 0,
    ;
}

/// Whole quotients are kept.
pub proof fn lemma_half_even_exact(q: nat, d: nat)
    requires
        d > 0,
    ensures
        half_even(q * d, d) == q,
{
    assert(q * d == q * d + 0);
    vstd::arithmetic::div_mod::lemma_fundamental_div_mod_converse(
        (q * d) as int,
        d as int,
        q as int,
        0,
    );
}

/// Nothing rounds to nothing.
pub proof fn lemma_zero(d: nat)
    requires
        d > 0,
    ensures
        to_53_bits(0, d) == 0,
{
    let p = power2::pow2(53);
    power2::lemma_pow2_pos(53);
    power2::lemma2_to64();
    assert(p * d > 0) by (nonlinear_arith)
        requires
            p > 0,
            d > 0,
    ;
    assert(is_grain(0, d, 0));
    lemma_grain_unique(0, d, 0);
    assert(0 * d == 0) by (nonlinear_arith);
    lemma_half_even_exact(0, d);
    assert(d * 1 == d);
}

/// A number of at least `2^k` ticks, `k` beyond 53, is at least that after rounding.
pub proof fn lemma_keeps_size(n: nat, d: nat, k: nat)
    requires
        d > 0,
        k >= 53,
        n >= power2::pow2(k) * d,
    ensures
        to_53_bits(n, d) >= power2::pow2(k),
{
    lemma_grain(n, d);
    let s = grain(n, d);
    let p = power2::pow2(s);
    power2::lemma_pow2_pos(s);
    if 53 + s <= k {
        if 53 + s < k {
            power2::lemma_pow2_strictly_increases(53 + s, k);
        }
        let a = power2::pow2(53 + s);
        let b = power2::pow2(k);
        assert(a * d <= b * d) by (nonlinear_arith)
            requires
                a <= b,
        ;
        assert(false);
    }
    if 52 + s > k {
        power2::lemma_pow2_strictly_increases(k, 52 + s);
    }
    let c = power2::pow2(52);
    power2::lemma_pow2_adds(52, s);
    assert(d * p > 0) by (nonlinear_arith)
        requires
            d > 0,
            p > 0,
    ;
    assert(c * (d * p) == (c * p) * d) by (nonlinear_arith);
    vstd::arithmetic::div_mod::lemma_div_is_ordered((c * (d * p)) as int, n as int, (d * p) as int);
    vstd::arithmetic::div_mod::lemma_div_multiples_vanish(c as int, (d * p) as int);
    assert((d * p) * c == c * (d * p)) by (nonlinear_arith);
    lemma_half_even_bounds(n, d * p);
    let h = half_even(n, d * p);
    assert(h * p >= c * p) by (nonlinear_arith)
        requires
            h >= c,
    ;
}

/// Rounding to 53 bits moves `n / d` by at most one part in `2^53`.
pub proof fn lemma_relative_error(n: nat, d: nat)
    requires
        d > 0,
        n >= power2::pow2(53) * d,
    ensures
        -(n as int) <= power2::pow2(53) * (to_53_bits(n, d) * d - n) <= n,
{
    lemma_grain(n, d);
    let s = grain(n, d);
    let p = power2::pow2(s);
    power2::lemma_pow2_pos(s);
    assert(s > 0);
    assert(d * p > 0) by (nonlinear_arith)
        requires
            d > 0,
            p > 0,
    ;
    lemma_half_even_bounds(n, d * p);
    let h = half_even(n, d * p);
    assert(h * (d * p) == (h * p) * d) by (nonlinear_arith);
    let c = power2::pow2(52);
    power2::lemma_pow2_adds(52, s);
    power2::lemma_pow2_unfold(53);
    assert(n >= (c * p) * d);
    let e = 2 * ((h * p) * d - n);
    assert(c * e <= c * (d * p) && -(c * (d * p)) <= c * e) by (nonlinear_arith)
        requires
            -(d * p) <= e <= d * p,
            c >= 0,
    ;
    assert(c * (d * p) == (c * p) * d) by (nonlinear_arith);
    assert(c * e == (2 * c) * ((h * p) * d - n)) by (nonlinear_arith)
        requires
            e == 2 * ((h * p) * d - n),
    ;
}

/// Rounding `a * 2^s` keeps the 53 highest bits of `a`.
pub proof fn lemma_shifted(a: nat, s: nat, t: nat)
    requires
        is_grain(a, 1, t),
    ensures
        to_53_bits(a * power2::pow2(s), 1) == half_even(a, power2::pow2(t)) * power2::pow2(s + t),
{
    let ps = power2::pow2(s);
    let pt = power2::pow2(t);
    power2::lemma_pow2_pos(s);
    power2::lemma_pow2_pos(t);
    power2::lemma_pow2_adds(s, t);
    let n = a * ps;
    if t > 0 {
        power2::lemma_pow2_adds(53 + t, s);
        power2::lemma_pow2_adds((52 + t) as nat, s);
        let hi = power2::pow2(53 + t);
        let lo = power2::pow2((52 + t) as nat);
        assert(n < hi * ps && n >= lo * ps) by (nonlinear_arith)
            requires
                n == a * ps,
                ps > 0,
                lo <= a < hi,
        ;
        assert(53 + (s + t) == 53 + t + s);
        assert(53 + (s + t - 1) == 52 + t + s);
        assert(is_grain(n, 1, s + t));
        lemma_grain_unique(n, 1, s + t);
        lemma_half_even_cancel(a, pt, ps);
        assert(pt * ps == 1 * (ps * pt)) by (nonlinear_arith);
    } else {
        assert(pt == 1) by {
            power2::lemma2_to64();
        }
        lemma_half_even_exact(a, 1);
        assert(a * 1 == a);
        lemma_grain(n, 1);
        let g = grain(n, 1);
        let p53 = power2::pow2(53);
        power2::lemma_pow2_adds(53, s);
        assert(a * ps < p53 * ps) by (nonlinear_arith)
            requires
                a < p53,
                ps > 0,
        ;
        if g > s {
            lemma_fits_monotone(n, 1, s, (g - 1) as nat);
        }
        let pg = power2::pow2(g);
        let rest = power2::pow2((s - g) as nat);
        power2::lemma_pow2_adds((s - g) as nat, g);
        power2::lemma_pow2_pos(g);
        assert(a * (rest * pg) == (a * rest) * pg) by (nonlinear_arith);
        lemma_half_even_exact(a * rest, pg);
        assert(1 * pg == pg);
    }
}

/// What was rounded is kept by rounding.
pub proof fn lemma_rounds_once(n: nat, d: nat)
    requires
        d > 0,
    ensures
        to_53_bits(to_53_bits(n, d), 1) == to_53_bits(n, d),
{
    lemma_grain(n, d);
    let s = grain(n, d);
    let p = power2::pow2(s);
    power2::lemma_pow2_pos(s);
    power2::lemma_pow2_adds(53, s);
    power2::lemma2_to64();
    power2::lemma2_to64_rest();
    let top = power2::pow2(53);
    let u = d * p;
    assert(u > 0) by (nonlinear_arith)
        requires
            d > 0,
            p > 0,
            u == d * p,
    ;
    assert((top * p) * d == top * u) by (nonlinear_arith)
        requires
            u == d * p,
    ;
    let m = half_even(n, u);
    lemma_half_even_bounds(n, u);
    assert(m <= top) by (nonlinear_arith)
        requires
            2 * (m * u - n) <= u,
            n < top * u,
            u > 0,
    ;
    if m < top {
        assert(m * 1 == m);
        assert(is_grain(m, 1, 0));
        lemma_shifted(m, s, 0);
        lemma_half_even_exact(m, 1);
    } else {
        let half = power2::pow2(52);
        power2::lemma_pow2_unfold(53);
        power2::lemma_pow2_unfold(s + 1);
        assert(half * 1 == half);
        assert(is_grain(half, 1, 0));
        lemma_shifted(half, s + 1, 0);
        lemma_half_even_exact(half, 1);
        assert(half * (2 * p) == (2 * half) * p) by (nonlinear_arith);
    }
}

/// `n / d` ticks to 53 bits, as a significand and the number of bits it is shifted by: at most
/// `limit` of them; `None` where the value is beyond that.
pub fn round_quotient(n: Natural, d: Natural, limit: u32) -> (r: Option<(u64, u32)>)
    requires
        d@ > 0,
        limit < 0x1_0000,
    ensures
        (match r {
            Some((m, s)) => {
                &&& to_53_bits(n@, d@) == m * power2::pow2(s as nat)
                &&& m <= 0x20_0000_0000_0000
                &&& s == 0 || m >= 0x10_0000_0000_0000
                &&& s <= limit
            },
            None => n@ >= power2::pow2(limit as nat) * d@,
        }),
{
    let ghost n0 = n@;
    let ghost d0 = d@;
    let mut rest = n;
    let mut whole = d;
    whole.shift_left(53);
    let mut s: u32 = 0;
    assert(power2::pow2(53) * d0 == d0 * power2::pow2(53)) by (nonlinear_arith);
    loop
        invariant
            n0 == n@,
            d0 == d@,
            rest@ == n0,
            d0 > 0,
            s <= limit,
            limit < 0x1_0000,
            whole@ == power2::pow2((53 + s) as nat) * d0,
            s == 0 || !fits(n0, d0, (s - 1) as nat),
        ensures
            is_grain(n0, d0, s as nat),
            s <= limit,
            rest@ == n0,
            whole@ == power2::pow2((53 + s) as nat) * d0,
        decreases limit - s,
    {
        if rest.minus(&whole).is_none() {
            break;
        }
        assert(!fits(n0, d0, s as nat));
        if s == limit {
            proof {
                power2::lemma_pow2_strictly_increases(limit as nat, (53 + limit) as nat);
                let a = power2::pow2(limit as nat);
                let b = power2::pow2((53 + limit) as nat);
                assert(a * d0 <= b * d0) by (nonlinear_arith)
                    requires
                        a <= b,
                ;
            }
            return None;
        }
        whole.mul_add(2, 0);
        proof {
            power2::lemma_pow2_unfold((53 + s + 1) as nat);
            let p = power2::pow2((53 + s) as nat);
            assert(p * d0 * 2 == (2 * p) * d0) by (nonlinear_arith);
        }
        s = s + 1;
    }
    proof {
        lemma_grain_unique(n0, d0, s as nat);
    }
    let ghost w = whole@;
    let mut q: u64 = 0;
    let mut i: u32 = 0;
    proof {
        power2::lemma2_to64();
        assert(n0 * 1 == n0);
        assert(0 * w == 0) by (nonlinear_arith);
    }
    while i < 53
        invariant
            i <= 53,
            whole@ == w,
            rest@ < w,
            q < power2::pow2(i as nat),
            n0 * power2::pow2(i as nat) == q * w + rest@,
        decreases 53 - i,
    {
        let ghost before = rest@;
        let ghost q0 = q;
        rest.mul_add(2, 0);
        proof {
            power2::lemma_pow2_unfold((i + 1) as nat);
            power2::lemma_pow2_strictly_increases(i as nat, 53);
            power2::lemma2_to64();
            power2::lemma2_to64_rest();
            let p = power2::pow2(i as nat);
            assert(n0 * (2 * p) == 2 * (n0 * p)) by (nonlinear_arith);
            assert((2 * q0) * w == 2 * (q0 * w)) by (nonlinear_arith);
            assert((2 * q0 + 1) * w == 2 * (q0 * w) + w) by (nonlinear_arith);
        }
        match rest.minus(&whole) {
            Some(less) => {
                rest = less;
                q = 2 * q + 1;
            },
            None => {
                q = 2 * q;
            },
        }
        i = i + 1;
    }
    let ghost p53 = power2::pow2(53);
    let ghost dp = d0 * power2::pow2(s as nat);
    let ghost left = rest@;
    let ghost r = n0 - q * dp;
    proof {
        power2::lemma2_to64();
        power2::lemma2_to64_rest();
        power2::lemma_pow2_pos(s as nat);
        power2::lemma_pow2_adds(53, s as nat);
        let ps = power2::pow2(s as nat);
        assert(w == p53 * dp) by (nonlinear_arith)
            requires
                w == (p53 * ps) * d0,
                dp == d0 * ps,
        ;
        assert(n0 * p53 == q * (p53 * dp) + left);
        assert(left == p53 * r) by (nonlinear_arith)
            requires
                n0 * p53 == q * (p53 * dp) + left,
                r == n0 - q * dp,
        ;
        assert(0 <= r < dp) by (nonlinear_arith)
            requires
                left == p53 * r,
                0 <= left < p53 * dp,
                p53 > 0,
        ;
        assert(q * dp == dp * q) by (nonlinear_arith);
        vstd::arithmetic::div_mod::lemma_fundamental_div_mod_converse(
            n0 as int,
            dp as int,
            q as int,
            r,
        );
        assert((2 * left > w) == (2 * r > dp) && (2 * left == w) == (2 * r == dp)) by (
        nonlinear_arith)
            requires
                left == p53 * r,
                w == p53 * dp,
                p53 > 0,
        ;
    }
    rest.mul_add(2, 0);
    let up: bool = match rest.minus(&whole) {
        Some(over) => {
            if Natural::new(0).minus(&over).is_some() {
                q % 2 == 1
            } else {
                true
            }
        },
        None => false,
    };
    let m: u64 = if up {
        q + 1
    } else {
        q
    };
    proof {
        if s > 0 {
            power2::lemma_pow2_adds(52, s as nat);
            let ps = power2::pow2(s as nat);
            let p52 = power2::pow2(52);
            assert(n0 >= p52 * dp) by (nonlinear_arith)
                requires
                    n0 >= (p52 * ps) * d0,
                    dp == d0 * ps,
            ;
            assert(q >= p52) by (nonlinear_arith)
                requires
                    n0 >= p52 * dp,
                    n0 == q * dp + r,
                    0 <= r < dp,
            ;
        }
    }
    Some((m, s))
}

/// `sig * 2^e` ticks as a whole number, halves away from zero, of at most `cap`.
pub fn whole_ticks(sig: u128, e: u32, cap: u128) -> (r: u128)
    requires
        sig <= 0x20_0000_0000_0000 <= cap,
        e < 0x1_0000,
    ensures
        ({
            let v = nearest_whole((sig * power2::pow2(e as nat)) as nat);
            r == if v <= cap {
                v
            } else {
                cap as nat
            }
        }),
{
    let ghost ticks = sig * power2::pow2(e as nat);
    if e >= 1074 {
        let mut v: u128 = sig;
        let mut i: u32 = 1074;
        proof {
            assert(sig * power2::pow2(0) == sig) by {
                power2::lemma2_to64();
            }
            power2::lemma_pow2_adds((e - 1074) as nat, 1074);
            power2::lemma_pow2_unfold(1075);
            power2::lemma_pow2_pos(1074);
            let g = power2::pow2((e - 1074) as nat);
            let h = power2::pow2(1074);
            assert(2 * ticks + h == (sig * g) * (2 * h) + h) by (nonlinear_arith)
                requires
                    ticks == sig * (g * h),
            ;
            vstd::arithmetic::div_mod::lemma_fundamental_div_mod_converse(
                (2 * ticks + h) as int,
                (2 * h) as int,
                (sig * g) as int,
                h as int,
            );
            assert(nearest_whole(ticks as nat) == sig * g);
        }
        while i < e
            invariant
                1074 <= i <= e,
                v <= cap,
                v == sig * power2::pow2((i - 1074) as nat),
                nearest_whole(ticks as nat) == sig * power2::pow2((e - 1074) as nat),
                ticks == sig * power2::pow2(e as nat),
            decreases e - i,
        {
            proof {
                power2::lemma_pow2_unfold((i + 1 - 1074) as nat);
                let p = power2::pow2((i - 1074) as nat);
                assert(sig * (2 * p) == 2 * (sig * p)) by (nonlinear_arith);
            }
            if v > cap / 2 {
                proof {
                    if i + 1 < e {
                        power2::lemma_pow2_strictly_increases(
                            (i + 1 - 1074) as nat,
                            (e - 1074) as nat,
                        );
                    }
                    let lo = power2::pow2((i + 1 - 1074) as nat);
                    let hi = power2::pow2((e - 1074) as nat);
                    assert(sig * lo <= sig * hi) by (nonlinear_arith)
                        requires
                            lo <= hi,
                    ;
                }
                return cap;
            }
            v = v * 2;
            i = i + 1;
        }
        v
    } else {
        let k: u32 = 1074 - e;
        let ghost h = power2::pow2(e as nat);
        let ghost g = power2::pow2(k as nat);
        proof {
            power2::lemma_pow2_adds(e as nat, k as nat);
            power2::lemma_pow2_unfold(1075);
            power2::lemma_pow2_pos(e as nat);
            power2::lemma_pow2_pos(k as nat);
            assert(2 * ticks + h * g == (2 * sig + g) * h) by (nonlinear_arith)
                requires
                    ticks == sig * h,
            ;
            assert(2 * (h * g) == (2 * g) * h) by (nonlinear_arith);
            vstd::arithmetic::div_mod::lemma_div_denominator(
                ((2 * sig + g) * h) as int,
                h as int,
                (2 * g) as int,
            );
            vstd::arithmetic::div_mod::lemma_div_multiples_vanish((2 * sig + g) as int, h as int);
            assert(h * (2 * sig + g) == (2 * sig + g) * h) by (nonlinear_arith);
            assert(h * (2 * g) == (2 * g) * h) by (nonlinear_arith);
            assert(nearest_whole(ticks as nat) == (2 * sig + g) / (2 * g as int));
        }
        if k > 60 {
            proof {
                power2::lemma_pow2_strictly_increases(60, k as nat);
                power2::lemma2_to64_rest();
                vstd::arithmetic::div_mod::lemma_basic_div((2 * sig + g) as int, (2 * g) as int);
            }
            0
        } else {
            let mut half: u128 = 1;
            let mut i: u32 = 0;
            proof {
                power2::lemma2_to64();
            }
            while i < k
                invariant
                    i <= k <= 60,
                    half == power2::pow2(i as nat),
                decreases k - i,
            {
                proof {
                    power2::lemma_pow2_unfold((i + 1) as nat);
                    power2::lemma_pow2_strictly_increases(i as nat, 61);
                    power2::lemma2_to64();
                    power2::lemma2_to64_rest();
                }
                half = half * 2;
                i = i + 1;
            }
            proof {
                power2::lemma_pow2_strictly_increases(k as nat, 61);
                power2::lemma2_to64_rest();
            }
            let w: u128 = (2 * sig + half) / (2 * half);
            proof {
                assert(w <= sig) by (nonlinear_arith)
                    requires
                        w == (2 * sig + half) / (2 * half) as int,
                        half > 0,
                        sig >= 0,
                ;
            }
            w
        }
    }
}

/// A rounded significand has at most 53 bits, or is the first number of 54.
proof fn lemma_within_grain(n: nat, d: nat)
    requires
        d > 0,
    ensures
        to_53_bits(n, d) <= power2::pow2(53 + grain(n, d)),
{
    lemma_grain(n, d);
    let s = grain(n, d);
    let p = power2::pow2(s);
    let c = power2::pow2(53);
    power2::lemma_pow2_pos(s);
    power2::lemma_pow2_adds(53, s);
    let q = n / (d * p);
    assert(d * p > 0) by (nonlinear_arith)
        requires
            d > 0,
            p > 0,
    ;
    assert((c * p) * d == c * (d * p)) by (nonlinear_arith);
    vstd::arithmetic::div_mod::lemma_fundamental_div_mod(n as int, (d * p) as int);
    assert(q < c) by (nonlinear_arith)
        requires
            (d * p) * q <= n,
            n < c * (d * p),
            d * p > 0,
    ;
    let h = half_even(n, d * p);
    assert(h * p <= c * p) by (nonlinear_arith)
        requires
            h <= c,
    ;
}

/// A number below `2^k` ticks, `k` at least 53, is at most that after rounding.
pub proof fn lemma_stays_below(n: nat, d: nat, k: nat)
    requires
        d > 0,
        k >= 53,
        n < power2::pow2(k) * d,
    ensures
        to_53_bits(n, d) <= power2::pow2(k),
{
    lemma_grain(n, d);
    lemma_within_grain(n, d);
    let s = grain(n, d);
    if 53 + s > k {
        let a = power2::pow2(k);
        let b = power2::pow2((52 + s) as nat);
        if k < 52 + s {
            power2::lemma_pow2_strictly_increases(k, (52 + s) as nat);
        }
        assert(b * d >= a * d) by (nonlinear_arith)
            requires
                b >= a,
        ;
        assert(53 + (s - 1) as nat == 52 + s);
        assert(false);
    } else if 53 + s < k {
        power2::lemma_pow2_strictly_increases(53 + s, k);
    }
}

/// Rounding keeps the order.
pub proof fn lemma_monotone(n: nat, m: nat, d: nat)
    requires
        d > 0,
        n <= m,
    ensures
        to_53_bits(n, d) <= to_53_bits(m, d),
{
    lemma_grain(n, d);
    lemma_grain(m, d);
    let s = grain(n, d);
    let t = grain(m, d);
    if t < s {
        lemma_fits_monotone(m, d, t, (s - 1) as nat);
        assert(fits(n, d, (s - 1) as nat));
        assert(false);
    } else if s < t {
        lemma_within_grain(n, d);
        let k = (52 + t) as nat;
        assert(53 + (t - 1) as nat == k);
        lemma_keeps_size(m, d, k);
        if 53 + s < k {
            power2::lemma_pow2_strictly_increases(53 + s, k);
        }
    } else {
        let p = power2::pow2(s);
        power2::lemma_pow2_pos(s);
        let g = d * p;
        assert(g > 0) by (nonlinear_arith)
            requires
                g == d * p,
                d > 0,
                p > 0,
        ;
        vstd::arithmetic::div_mod::lemma_div_is_ordered(n as int, m as int, g as int);
        vstd::arithmetic::div_mod::lemma_fundamental_div_mod(n as int, g as int);
        vstd::arithmetic::div_mod::lemma_fundamental_div_mod(m as int, g as int);
        let a = half_even(n, g);
        let b = half_even(m, g);
        assert(a <= b);
        assert(a * p <= b * p) by (nonlinear_arith)
            requires
                a <= b,
        ;
    }
}

/// Rounding moves `n / d` by at most one part in `2^53` and half a tick, and a whole number of ticks by
/// at most one part in `2^53`.
pub proof fn lemma_error(n: nat, d: nat)
    requires
        d > 0,
    ensures
        ({
            let moved = power2::pow2(53) * (to_53_bits(n, d) * d - n);
            &&& -(n + power2::pow2(52) * d) <= moved <= n + power2::pow2(52) * d
            &&& d == 1 ==> -(n as int) <= moved <= n
        }),
{
    let c = power2::pow2(53);
    let h = power2::pow2(52);
    power2::lemma_pow2_unfold(53);
    power2::lemma_pow2_pos(52);
    assert(h * d >= 0) by (nonlinear_arith);
    if n >= c * d {
        lemma_relative_error(n, d);
    } else {
        power2::lemma2_to64();
        assert(power2::pow2(53 + 0) == c);
        assert(is_grain(n, d, 0));
        lemma_grain_unique(n, d, 0);
        assert(d * 1 == d);
        lemma_half_even_bounds(n, d);
        let t = half_even(n, d);
        let one = power2::pow2(0);
        assert(to_53_bits(n, d) == t * one);
        assert(t * one == t) by (nonlinear_arith)
            requires
                one == 1,
        ;
        let e = t * d - n;
        assert(power2::pow2(53) * (to_53_bits(n, d) * d - n) == c * e);
        assert(c * e == h * (2 * e)) by (nonlinear_arith)
            requires
                c == 2 * h,
        ;
        assert(-(h * d) <= h * (2 * e) <= h * d) by (nonlinear_arith)
            requires
                -(d as int) <= 2 * e <= d,
                h >= 0,
        ;
        if d == 1 {
            lemma_half_even_exact(n, 1);
            assert(n * 1 == n);
            assert(t == n);
            assert(t * d == t);
            assert(c * e == 0) by (nonlinear_arith)
                requires
                    e == 0,
            ;
        }
    }
}

/// A whole number of ticks is the nearest one to itself, and else the nearest is half a one off at most.
pub proof fn lemma_nearest_whole(ticks: nat)
    ensures
        ({
            let off = 2 * (nearest_whole(ticks) * power2::pow2(1074) - ticks);
            -(power2::pow2(1074) as int) < off <= power2::pow2(1074)
        }),
{
    let t = power2::pow2(1074) as int;
    power2::lemma_pow2_unfold(1075);
    power2::lemma_pow2_pos(1074);
    vstd::arithmetic::div_mod::lemma_fundamental_div_mod(2 * ticks + t, 2 * t);
    let v = nearest_whole(ticks) as int;
    assert((2 * t) * v == 2 * (v * t)) by (nonlinear_arith);
}

} // verus!
