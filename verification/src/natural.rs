//! Natural numbers of any size.
use vstd::arithmetic::power;
use vstd::arithmetic::power2;
use vstd::prelude::*;

verus! {

/// The base in which the limbs of a `Natural` are written.
pub const BASE: u64 = 0x1_0000_0000;

/// The limb of weight `BASE^i`.
pub open spec fn limb(s: Seq<u32>, i: int) -> nat {
    if 0 <= i < s.len() {
        s[i] as nat
    } else {
        0
    }
}

/// What the `i` lowest limbs stand for.
pub open spec fn low(s: Seq<u32>, i: nat) -> nat
    decreases i,
{
    if i == 0 {
        0
    } else {
        (low(s, (i - 1) as nat) + limb(s, i - 1) * power::pow(BASE as int, (i - 1) as nat)) as nat
    }
}

/// A natural number, as limbs from the least significant one up.
pub struct Natural {
    pub limbs: Vec<u32>,
}

impl View for Natural {
    type V = nat;

    open spec fn view(&self) -> nat {
        low(self.limbs@, self.limbs@.len())
    }
}

/// Limbs above the highest one add nothing.
proof fn lemma_low_above(s: Seq<u32>, i: nat)
    requires
        i >= s.len(),
    ensures
        low(s, i) == low(s, s.len()),
    decreases i,
{
    if i > s.len() {
        lemma_low_above(s, (i - 1) as nat);
        assert(limb(s, i - 1) == 0);
        assert(0 * power::pow(BASE as int, (i - 1) as nat) == 0) by (nonlinear_arith);
    }
}

/// The `i` lowest limbs do not depend on the limbs above them.
proof fn lemma_low_prefix(s: Seq<u32>, t: Seq<u32>, i: nat)
    requires
        forall|k: int| 0 <= k < i ==> limb(s, k) == limb(t, k),
    ensures
        low(s, i) == low(t, i),
    decreases i,
{
    if i > 0 {
        lemma_low_prefix(s, t, (i - 1) as nat);
    }
}

/// Adding a limb on top adds it at its weight.
proof fn lemma_low_push(s: Seq<u32>, x: u32)
    ensures
        low(s.push(x), s.len() + 1) == low(s, s.len()) + x * power::pow(BASE as int, s.len()),
{
    lemma_low_prefix(s.push(x), s, s.len());
    assert(limb(s.push(x), s.len() as int) == x);
    power::lemma_pow_positive(BASE as int, s.len());
    assert(x * power::pow(BASE as int, s.len()) >= 0) by (nonlinear_arith)
        requires
            power::pow(BASE as int, s.len()) > 0,
    ;
}

/// `i` limbs stand for less than `BASE^i`.
proof fn lemma_low_bound(s: Seq<u32>, i: nat)
    ensures
        low(s, i) < power::pow(BASE as int, i),
    decreases i,
{
    reveal(power::pow);
    if i > 0 {
        lemma_low_bound(s, (i - 1) as nat);
        let p = power::pow(BASE as int, (i - 1) as nat);
        power::lemma_pow_positive(BASE as int, (i - 1) as nat);
        let d = limb(s, i - 1);
        assert(0 <= d * p <= (BASE - 1) * p) by (nonlinear_arith)
            requires
                0 <= d <= BASE - 1,
                p > 0,
        ;
        assert((BASE - 1) * p + p == BASE * p) by (nonlinear_arith);
    }
}

impl Natural {
    /// The natural number `n`.
    pub fn new(n: u32) -> (r: Natural)
        ensures
            r@ == n,
    {
        let mut limbs: Vec<u32> = Vec::new();
        limbs.push(n);
        reveal(power::pow);
        assert(limbs@[0] == n);
        assert(low(limbs@, 1) == low(limbs@, 0) + limb(limbs@, 0) * power::pow(BASE as int, 0));
        Natural { limbs }
    }

    /// The natural number `n`.
    pub fn from_u128(n: u128) -> (r: Natural)
        ensures
            r@ == n,
        decreases n,
    {
        if n < 0x10000 {
            Natural::new(n as u32)
        } else {
            let mut r = Natural::from_u128(n / 0x10000);
            r.mul_add(0x10000, (n % 0x10000) as u32);
            r
        }
    }

    /// The sum.
    pub fn plus(&self, other: &Natural) -> (r: Natural)
        ensures
            r@ == self@ + other@,
    {
        let n: usize = if self.limbs.len() < other.limbs.len() {
            other.limbs.len()
        } else {
            self.limbs.len()
        };
        let ghost s = self.limbs@;
        let ghost t = other.limbs@;
        let mut out: Vec<u32> = Vec::new();
        let mut carry: u64 = 0;
        let mut i: usize = 0;
        proof {
            assert(0 * power::pow(BASE as int, 0) == 0) by (nonlinear_arith);
        }
        while i < n
            invariant
                i <= n,
                s == self.limbs@,
                t == other.limbs@,
                out@.len() == i,
                carry <= 1,
                low(out@, i as nat) + carry * power::pow(BASE as int, i as nat) == low(s, i as nat)
                    + low(t, i as nat),
            decreases n - i,
        {
            let x: u64 = if i < self.limbs.len() {
                self.limbs[i] as u64
            } else {
                0
            };
            let y: u64 = if i < other.limbs.len() {
                other.limbs[i] as u64
            } else {
                0
            };
            let ghost p = power::pow(BASE as int, i as nat);
            let sum: u64 = x + y + carry;
            let (digit, next): (u32, u64) = if sum < BASE {
                (sum as u32, 0)
            } else {
                ((sum - BASE) as u32, 1)
            };
            proof {
                lemma_low_push(out@, digit);
                reveal(power::pow);
                power::lemma_pow_positive(BASE as int, i as nat);
                assert(power::pow(BASE as int, (i + 1) as nat) == BASE * p);
                assert(digit == x + y + carry - next * BASE);
                assert(limb(s, i as int) == x && limb(t, i as int) == y);
                assert(x * p >= 0 && y * p >= 0) by (nonlinear_arith)
                    requires
                        p > 0,
                ;
                assert(digit * p == x * p + y * p + carry * p - next * (BASE * p))
                    by (nonlinear_arith)
                    requires
                        digit == x + y + carry - next * BASE,
                ;
            }
            out.push(digit);
            carry = next;
            i = i + 1;
        }
        proof {
            lemma_low_above(s, n as nat);
            lemma_low_above(t, n as nat);
            lemma_low_push(out@, carry as u32);
        }
        out.push(carry as u32);
        Natural { limbs: out }
    }

    /// Multiplies by `2^k`.
    pub fn shift_left(&mut self, k: u32)
        ensures
            final(self)@ == old(self)@ * power2::pow2(k as nat),
    {
        let mut i: u32 = 0;
        let ghost start = self@;
        proof {
            power2::lemma2_to64();
            assert(start * 1 == start);
        }
        while i < k
            invariant
                i <= k,
                self@ == start * power2::pow2(i as nat),
            decreases k - i,
        {
            let ghost p = power2::pow2(i as nat);
            if k - i >= 31 {
                self.mul_add(0x8000_0000, 0);
                proof {
                    power2::lemma_pow2_adds(i as nat, 31);
                    power2::lemma2_to64();
                    assert(start * p * 0x8000_0000 == start * (p * 0x8000_0000)) by (nonlinear_arith);
                }
                i = i + 31;
            } else {
                self.mul_add(2, 0);
                proof {
                    power2::lemma_pow2_unfold((i + 1) as nat);
                    assert(start * p * 2 == start * (2 * p)) by (nonlinear_arith);
                }
                i = i + 1;
            }
        }
    }

    /// Multiplies by `m` and adds `a`.
    pub fn mul_add(&mut self, m: u32, a: u32)
        ensures
            final(self)@ == old(self)@ * m + a,
    {
        let n: usize = self.limbs.len();
        let ghost s = self.limbs@;
        let mut out: Vec<u32> = Vec::new();
        let mut carry: u64 = a as u64;
        let mut i: usize = 0;
        proof {
            reveal(power::pow);
            assert(carry * power::pow(BASE as int, 0) == carry);
            assert(0 * m == 0) by (nonlinear_arith);
            assert(low(s, 0) == 0 && low(out@, 0) == 0);
        }
        while i < n
            invariant
                i <= n,
                n == s.len(),
                self.limbs@ == s,
                out@.len() == i,
                carry < BASE,
                low(out@, i as nat) + carry * power::pow(BASE as int, i as nat) == low(s, i as nat) * m + a,
            decreases n - i,
        {
            let t: u64 = self.limbs[i] as u64;
            let ghost p = power::pow(BASE as int, i as nat);
            assert(t * m + carry <= 0xffff_ffffu64 * 0xffff_ffffu64 + 0xffff_ffffu64)
                by (nonlinear_arith)
                requires
                    t <= 0xffff_ffffu64,
                    m <= 0xffff_ffffu32,
                    carry <= 0xffff_ffffu64,
            ;
            let x: u64 = t * (m as u64) + carry;
            let digit: u32 = (x % BASE) as u32;
            let up: u64 = x / BASE;
            proof {
                lemma_low_push(out@, digit);
                reveal(power::pow);
                assert(power::pow(BASE as int, (i + 1) as nat) == BASE * p);
                assert(x == up * BASE + digit);
                assert(low(s, (i + 1) as nat) == low(s, i as nat) + t * p) by {
                    power::lemma_pow_positive(BASE as int, i as nat);
                    assert(t * p >= 0) by (nonlinear_arith)
                        requires
                            p > 0,
                    ;
                }
                let l = low(s, i as nat) as int;
                assert((l + t * p) * m + a == l * m + a - carry * p + (t * m + carry) * p)
                    by (nonlinear_arith);
                assert((up * BASE + digit) * p == digit * p + up * (BASE * p)) by (nonlinear_arith);
            }
            out.push(digit);
            carry = up;
            i = i + 1;
        }
        proof {
            lemma_low_push(out@, carry as u32);
        }
        out.push(carry as u32);
        self.limbs = out;
    }

    /// The difference, where `other` is not the greater one.
    pub fn minus(&self, other: &Natural) -> (r: Option<Natural>)
        ensures
            (match r {
                Some(d) => self@ >= other@ && d@ == self@ - other@,
                None => self@ < other@,
            }),
    {
        let n: usize = if self.limbs.len() < other.limbs.len() {
            other.limbs.len()
        } else {
            self.limbs.len()
        };
        let ghost s = self.limbs@;
        let ghost t = other.limbs@;
        let mut out: Vec<u32> = Vec::new();
        let mut borrow: u64 = 0;
        let mut i: usize = 0;
        proof {
            assert(0 * power::pow(BASE as int, 0) == 0) by (nonlinear_arith);
        }
        while i < n
            invariant
                i <= n,
                s == self.limbs@,
                t == other.limbs@,
                out@.len() == i,
                borrow <= 1,
                low(out@, i as nat) - borrow * power::pow(BASE as int, i as nat) == low(s, i as nat) - low(
                    t,
                    i as nat,
                ),
            decreases n - i,
        {
            let x: u64 = if i < self.limbs.len() {
                self.limbs[i] as u64
            } else {
                0
            };
            let y: u64 = if i < other.limbs.len() {
                other.limbs[i] as u64
            } else {
                0
            };
            let ghost p = power::pow(BASE as int, i as nat);
            let taken: u64 = y + borrow;
            let (digit, next): (u32, u64) = if x >= taken {
                ((x - taken) as u32, 0)
            } else {
                ((x + BASE - taken) as u32, 1)
            };
            proof {
                lemma_low_push(out@, digit);
                reveal(power::pow);
                power::lemma_pow_positive(BASE as int, i as nat);
                assert(power::pow(BASE as int, (i + 1) as nat) == BASE * p);
                assert(digit == x - y - borrow + next * BASE);
                assert(limb(s, i as int) == x && limb(t, i as int) == y);
                assert(x * p >= 0 && y * p >= 0) by (nonlinear_arith)
                    requires
                        p > 0,
                ;
                assert(digit * p == x * p - y * p - borrow * p + next * (BASE * p))
                    by (nonlinear_arith)
                    requires
                        digit == x - y - borrow + next * BASE,
                ;
            }
            out.push(digit);
            borrow = next;
            i = i + 1;
        }
        proof {
            lemma_low_above(s, n as nat);
            lemma_low_above(t, n as nat);
            lemma_low_bound(out@, n as nat);
            assert(borrow == 0 ==> borrow * power::pow(BASE as int, n as nat) == 0) by (nonlinear_arith);
            assert(borrow == 1 ==> borrow * power::pow(BASE as int, n as nat) == power::pow(BASE as int, n as nat))
                by (nonlinear_arith);
        }
        if borrow == 0 {
            Some(Natural { limbs: out })
        } else {
            None
        }
    }
}

} // verus!
