//! Decimal numerals: reading and writing integers.
use crate::text::{chars_of, text_of};
use vstd::arithmetic::power;
use vstd::prelude::*;

verus! {

/// Whether `c` is one of the ten ASCII digits.
pub open spec fn is_digit(c: char) -> bool {
    '0' <= c <= '9'
}

/// Whether `s` holds digits only.
pub open spec fn all_digits(s: Seq<char>) -> bool {
    forall|i: int| 0 <= i < s.len() ==> is_digit(#[trigger] s[i])
}

/// The number that the digit `c` stands for.
pub open spec fn digit_value(c: char) -> nat
    recommends
        is_digit(c),
{
    (c as int - '0' as int) as nat
}

/// The digit that stands for `d`.
pub open spec fn digit_char(d: nat) -> char
    recommends
        d < 10,
{
    ('0' as int + d) as char
}

/// The number that a row of digits stands for, most significant digit first.
pub open spec fn digits_value(s: Seq<char>) -> nat
    decreases s.len(),
{
    if s.len() == 0 {
        0
    } else {
        digits_value(s.drop_last()) * 10 + digit_value(s.last())
    }
}

/// The digits of `n`, without leading zeros.
pub open spec fn digits_of(n: nat) -> Seq<char>
    decreases n,
{
    if n < 10 {
        seq![digit_char(n)]
    } else {
        digits_of(n / 10).push(digit_char(n % 10))
    }
}

/// The decimal numeral of `n`.
pub open spec fn numeral(n: int) -> Seq<char> {
    if n < 0 {
        seq!['-'] + digits_of((-n) as nat)
    } else {
        digits_of(n as nat)
    }
}

/// What a signed numeral stands for: an optional sign, then at least one digit.
pub open spec fn signed_value(s: Seq<char>) -> Option<int> {
    let signed = s.len() > 0 && (s[0] == '-' || s[0] == '+');
    let digits = if signed {
        s.drop_first()
    } else {
        s
    };
    if digits.len() > 0 && all_digits(digits) {
        Some(
            if signed && s[0] == '-' {
                -(digits_value(digits) as int)
            } else {
                digits_value(digits) as int
            },
        )
    } else {
        None
    }
}

/// The numeral `s` as a 128-bit integer, where it is one and fits.
pub open spec fn i128_value(s: Seq<char>) -> Option<int> {
    match signed_value(s) {
        Some(v) => if i128::MIN <= v <= i128::MAX {
            Some(v)
        } else {
            None
        },
        None => None,
    }
}

/// The digits of a number are digits, there is at least one, and they stand for the number.
pub proof fn lemma_digits_round_trip(n: nat)
    ensures
        digits_of(n).len() > 0,
        all_digits(digits_of(n)),
        digits_value(digits_of(n)) == n,
    decreases n,
{
    if n < 10 {
        assert(digits_of(n).drop_last() =~= Seq::<char>::empty());
        assert(digits_value(Seq::<char>::empty()) == 0);
    } else {
        lemma_digits_round_trip(n / 10);
        assert(digits_of(n).drop_last() =~= digits_of(n / 10));
    }
}

/// Reading back the numeral of an integer gives the integer.
pub proof fn lemma_numeral_round_trip(n: int)
    ensures
        signed_value(numeral(n)) == Some(n),
{
    if n < 0 {
        lemma_digits_round_trip((-n) as nat);
        assert(numeral(n).drop_first() =~= digits_of((-n) as nat));
    } else {
        lemma_digits_round_trip(n as nat);
        assert(is_digit(numeral(n)[0]));
    }
}

/// More digits never stand for less.
pub proof fn lemma_digits_value_monotone(s: Seq<char>, i: int)
    requires
        0 <= i <= s.len(),
    ensures
        digits_value(s.take(i)) <= digits_value(s),
    decreases s.len() - i,
{
    if i == s.len() {
        assert(s.take(i) =~= s);
    } else {
        lemma_digits_value_monotone(s, i + 1);
        assert(s.take(i + 1).drop_last() =~= s.take(i));
    }
}

/// `k` digits stand for less than `10^k`.
pub proof fn lemma_digits_value_bound(s: Seq<char>)
    requires
        all_digits(s),
    ensures
        digits_value(s) < power::pow(10, s.len()),
    decreases s.len(),
{
    reveal(power::pow);
    if s.len() > 0 {
        assert(all_digits(s.drop_last()));
        lemma_digits_value_bound(s.drop_last());
        assert(is_digit(s.last()));
        let p = power::pow(10, (s.len() - 1) as nat);
        assert(power::pow(10, s.len()) == 10 * p);
    }
}

/// `n` in decimal, filled up with zeros in front to `width` digits.
pub open spec fn padded(n: nat, width: nat) -> Seq<char>
    decreases width,
{
    if width == 0 {
        Seq::empty()
    } else {
        padded(n / 10, (width - 1) as nat).push(digit_char(n % 10))
    }
}

/// `s` without zeros at its end.
pub open spec fn without_final_zeros(s: Seq<char>) -> Seq<char>
    decreases s.len(),
{
    if s.len() > 0 && s.last() == '0' {
        without_final_zeros(s.drop_last())
    } else {
        s
    }
}

/// A filled-up number keeps its width, consists of digits and stands for the number.
pub proof fn lemma_padded(n: nat, width: nat)
    requires
        n < power::pow(10, width),
    ensures
        padded(n, width).len() == width,
        all_digits(padded(n, width)),
        digits_value(padded(n, width)) == n,
    decreases width,
{
    reveal(power::pow);
    if width > 0 {
        let p = power::pow(10, (width - 1) as nat);
        assert(power::pow(10, width) == 10 * p);
        lemma_padded(n / 10, (width - 1) as nat);
        assert(padded(n, width).drop_last() =~= padded(n / 10, (width - 1) as nat));
    }
}

/// Zeros taken off the end are factors of ten.
pub proof fn lemma_final_zeros(s: Seq<char>)
    requires
        all_digits(s),
    ensures
        without_final_zeros(s).len() <= s.len(),
        all_digits(without_final_zeros(s)),
        digits_value(s) == digits_value(without_final_zeros(s)) * power::pow(
            10,
            (s.len() - without_final_zeros(s).len()) as nat,
        ),
    decreases s.len(),
{
    reveal(power::pow);
    let t = without_final_zeros(s);
    if s.len() > 0 && s.last() == '0' {
        lemma_final_zeros(s.drop_last());
        let k = (s.len() - 1 - t.len()) as nat;
        let v = digits_value(t) as int;
        assert(power::pow(10, (k + 1) as nat) == 10 * power::pow(10, k));
        let p = power::pow(10, k);
        assert(v * p * 10 == v * (10 * p)) by (nonlinear_arith);
    } else {
        assert(digits_value(s) * 1 == digits_value(s));
    }
}

/// Whether `c` is a digit.
pub fn digit(c: char) -> (r: bool)
    ensures
        r == is_digit(c),
{
    '0' <= c && c <= '9'
}

/// The number that the digit `c` stands for.
pub fn digit_number(c: char) -> (r: u8)
    requires
        is_digit(c),
    ensures
        r == digit_value(c),
        r < 10,
{
    ((c as u32) - ('0' as u32)) as u8
}

/// The digit that stands for `d`.
pub fn digit_of_number(d: u8) -> (r: char)
    requires
        d < 10,
    ensures
        r == digit_char(d as nat),
{
    match d {
        0 => '0',
        1 => '1',
        2 => '2',
        3 => '3',
        4 => '4',
        5 => '5',
        6 => '6',
        7 => '7',
        8 => '8',
        _ => '9',
    }
}

/// What the digits `x[from..to]` stand for, where it is at most `u128::MAX`.
pub fn read_digits(x: &Vec<char>, from: usize, to: usize) -> (r: Option<u128>)
    requires
        from <= to <= x@.len(),
        all_digits(x@.subrange(from as int, to as int)),
    ensures
        (match r {
            Some(v) => v == digits_value(x@.subrange(from as int, to as int)),
            None => digits_value(x@.subrange(from as int, to as int)) > u128::MAX,
        }),
{
    let ghost s = x@.subrange(from as int, to as int);
    let mut i: usize = from;
    let mut v: u128 = 0;
    assert(s.take(0) =~= Seq::<char>::empty());
    while i < to
        invariant
            from <= i <= to <= x@.len(),
            s == x@.subrange(from as int, to as int),
            all_digits(s),
            v == digits_value(s.take(i - from)),
        decreases to - i,
    {
        let ghost k = i - from;
        proof {
            assert(s[k] == x@[i as int]);
            assert(is_digit(s[k]));
            assert(s.take(k + 1).drop_last() =~= s.take(k));
            assert(s.take(k + 1).last() == s[k]);
            lemma_digits_value_monotone(s, k + 1);
        }
        let d: u8 = digit_number(x[i]);
        match v.checked_mul(10) {
            Some(w) => match w.checked_add(d as u128) {
                Some(z) => {
                    v = z;
                },
                None => {
                    return None;
                },
            },
            None => {
                return None;
            },
        }
        i = i + 1;
    }
    assert(s.take(to - from) =~= s);
    Some(v)
}

/// Whether `x[from..to]` holds digits only.
pub fn only_digits(x: &Vec<char>, from: usize, to: usize) -> (r: bool)
    requires
        from <= to <= x@.len(),
    ensures
        r == all_digits(x@.subrange(from as int, to as int)),
{
    let ghost s = x@.subrange(from as int, to as int);
    let mut i: usize = from;
    while i < to
        invariant
            from <= i <= to <= x@.len(),
            s == x@.subrange(from as int, to as int),
            forall|k: int| 0 <= k < i - from ==> is_digit(#[trigger] s[k]),
        decreases to - i,
    {
        if !digit(x[i]) {
            assert(!is_digit(s[i - from]));
            return false;
        }
        assert(s[i - from] == x@[i as int]);
        i = i + 1;
    }
    true
}

/// Reads a signed numeral: `None` where it is none or does not fit 128 bits.
pub fn parse_i128(s: &str) -> (r: Option<i128>)
    ensures
        (match r {
            Some(v) => i128_value(s@) == Some(v as int),
            None => i128_value(s@) is None,
        }),
{
    let x = chars_of(s);
    if x.len() == 0 {
        return None;
    }
    let signed: bool = x[0] == '-' || x[0] == '+';
    let from: usize = if signed {
        1
    } else {
        0
    };
    let ghost digits = x@.subrange(from as int, x@.len() as int);
    assert(digits =~= if signed {
        s@.drop_first()
    } else {
        s@
    });
    if from == x.len() {
        return None;
    }
    if !only_digits(&x, from, x.len()) {
        return None;
    }
    let magnitude: u128 = match read_digits(&x, from, x.len()) {
        Some(m) => m,
        None => {
            return None;
        },
    };
    if signed && x[0] == '-' {
        if magnitude <= i128::MAX as u128 {
            Some(-(magnitude as i128))
        } else if magnitude == i128::MAX as u128 + 1 {
            Some(i128::MIN)
        } else {
            None
        }
    } else if magnitude <= i128::MAX as u128 {
        Some(magnitude as i128)
    } else {
        None
    }
}

/// Appends the digits of `n` to `out`.
fn push_digits(out: &mut String, n: u128)
    ensures
        final(out)@ == old(out)@ + digits_of(n as nat),
    decreases n,
{
    if n >= 10 {
        push_digits(out, n / 10);
    }
    out.push(digit_of_number((n % 10) as u8));
    assert(out@ =~= old(out)@ + digits_of(n as nat));
}

/// Appends `n`, filled up with zeros in front to `width` digits, to `out`.
fn push_padded(out: &mut Vec<char>, n: u128, width: usize)
    ensures
        final(out)@ == old(out)@ + padded(n as nat, width as nat),
    decreases width,
{
    if width > 0 {
        push_padded(out, n / 10, width - 1);
        out.push(digit_of_number((n % 10) as u8));
    }
    assert(out@ =~= old(out)@ + padded(n as nat, width as nat));
}

/// The digits of the fraction `n / 10^width`, without zeros at the end.
pub fn fraction_text(n: u128, width: usize) -> (r: String)
    ensures
        r@ == without_final_zeros(padded(n as nat, width as nat)),
{
    let mut digits: Vec<char> = Vec::new();
    push_padded(&mut digits, n, width);
    let ghost all = padded(n as nat, width as nat);
    assert(digits@ =~= all);
    let mut to: usize = digits.len();
    assert(all.take(to as int) =~= all);
    while to > 0 && digits[to - 1] == '0'
        invariant
            to <= digits@.len(),
            digits@ == all,
            without_final_zeros(all) == without_final_zeros(all.take(to as int)),
        decreases to,
    {
        assert(all.take(to as int).drop_last() =~= all.take(to - 1));
        to = to - 1;
    }
    assert(without_final_zeros(all) == all.take(to as int));
    assert(all.take(to as int) =~= digits@.subrange(0, to as int));
    text_of(&digits, 0, to)
}

/// The numeral of `n`.
pub fn u128_text(n: u128) -> (r: String)
    ensures
        r@ == digits_of(n as nat),
{
    let mut out = String::new();
    push_digits(&mut out, n);
    assert(out@ =~= digits_of(n as nat));
    out
}

/// The numeral of `n`.
pub fn i128_text(n: i128) -> (r: String)
    ensures
        r@ == numeral(n as int),
{
    let mut out = String::new();
    if n < 0 {
        out.push('-');
        let magnitude: u128 = (-(n + 1)) as u128 + 1;
        push_digits(&mut out, magnitude);
        assert(out@ =~= numeral(n as int));
    } else {
        push_digits(&mut out, n as u128);
        assert(out@ =~= numeral(n as int));
    }
    out
}

/// What a row of digits after an optional sign cannot be read as a 128-bit integer for, from its `i`-th
/// digit on: the first character that is no digit, or the first digit that makes the number too large
/// or too small. A row that ends too early is missing a digit.
pub open spec fn stumble(digits: Seq<char>, negative: bool, i: int) -> Seq<char>
    decreases digits.len() - i,
{
    if i < 0 || i >= digits.len() {
        "invalid digit found in string"@
    } else if !is_digit(digits[i]) {
        "invalid digit found in string"@
    } else if negative && digits_value(digits.take(i + 1)) > i128::MAX + 1 {
        "number too small to fit in target type"@
    } else if !negative && digits_value(digits.take(i + 1)) > i128::MAX {
        "number too large to fit in target type"@
    } else {
        stumble(digits, negative, i + 1)
    }
}

/// Why a text is not the numeral of a 128-bit integer.
pub open spec fn failure(s: Seq<char>) -> Seq<char> {
    if s.len() == 0 {
        "cannot parse integer from empty string"@
    } else if s[0] == '-' || s[0] == '+' {
        stumble(s.drop_first(), s[0] == '-', 0)
    } else {
        stumble(s, false, 0)
    }
}

/// Why a text is not the numeral of a 128-bit integer.
pub fn explain_failure(s: &str) -> (r: &'static str)
    ensures
        r@ == failure(s@),
{
    let x = chars_of(s);
    if x.len() == 0 {
        return "cannot parse integer from empty string";
    }
    let negative: bool = x[0] == '-';
    let from: usize = if negative || x[0] == '+' {
        1
    } else {
        0
    };
    let limit: u128 = if negative {
        i128::MAX as u128 + 1
    } else {
        i128::MAX as u128
    };
    let ghost digits = x@.subrange(from as int, x@.len() as int);
    assert(digits =~= if from == 1 {
        s@.drop_first()
    } else {
        s@
    });
    let mut i: usize = from;
    let mut v: u128 = 0;
    assert(digits.take(0) =~= Seq::<char>::empty());
    while i < x.len()
        invariant
            from <= i <= x@.len(),
            digits == x@.subrange(from as int, x@.len() as int),
            v == digits_value(digits.take(i - from)),
            v <= limit,
            limit == if negative {
                i128::MAX + 1
            } else {
                i128::MAX as int
            },
            failure(s@) == stumble(digits, negative, i - from),
        decreases x@.len() - i,
    {
        let ghost k = i - from;
        assert(digits[k] == x@[i as int]);
        if !digit(x[i]) {
            return "invalid digit found in string";
        }
        proof {
            assert(digits.take(k + 1).drop_last() =~= digits.take(k));
            assert(digits.take(k + 1).last() == digits[k]);
        }
        let d: u8 = digit_number(x[i]);
        if v > (limit - d as u128) / 10 {
            return if negative {
                "number too small to fit in target type"
            } else {
                "number too large to fit in target type"
            };
        }
        v = v * 10 + d as u128;
        i = i + 1;
    }
    "invalid digit found in string"
}

} // verus!
