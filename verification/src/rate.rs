//! Bandwidth limits: a decimal number followed by the unit `MB`, `KB` or `B`.
//!
//! The number is read with the precision of IEEE 754 binary64: the decimal value is
//! rounded to the nearest number with a 53-bit significand (ties to even), scaled by the
//! unit, cut to an integer and clamped to 64 bits. Everything is computed on integers.

use vstd::prelude::*;

use crate::text;

verus! {

// ---------- powers ----------

/// Two to the power `n`.
pub open spec fn two_to(n: nat) -> nat
    decreases n,
{
    if n == 0 {
        1
    } else {
        2 * two_to((n - 1) as nat)
    }
}

/// Ten to the power `n`.
pub open spec fn ten_to(n: nat) -> nat
    decreases n,
{
    if n == 0 {
        1
    } else {
        10 * ten_to((n - 1) as nat)
    }
}

proof fn lemma_powers_positive(n: nat)
    ensures
        two_to(n) >= 1,
        ten_to(n) >= 1,
    decreases n,
{
    if n > 0 {
        lemma_powers_positive((n - 1) as nat);
    }
}

proof fn lemma_ten_to_add(a: nat, b: nat)
    ensures
        ten_to(a + b) == ten_to(a) * ten_to(b),
    decreases a,
{
    if a > 0 {
        lemma_ten_to_add((a - 1) as nat, b);
        let x = ten_to((a - 1) as nat);
        let y = ten_to(b);
        assert(a + b - 1 == (a - 1) + b);
        assert(ten_to(a + b) == 10 * ten_to(((a - 1) + b) as nat));
        assert(10 * (x * y) == (10 * x) * y) by (nonlinear_arith);
    } else {
        assert(ten_to(0) == 1);
    }
}

proof fn lemma_two_to_add(a: nat, b: nat)
    ensures
        two_to(a + b) == two_to(a) * two_to(b),
    decreases a,
{
    if a > 0 {
        lemma_two_to_add((a - 1) as nat, b);
        let x = two_to((a - 1) as nat);
        let y = two_to(b);
        assert(two_to(a + b) == 2 * two_to(((a - 1) + b) as nat));
        assert(2 * (x * y) == (2 * x) * y) by (nonlinear_arith);
    } else {
        assert(two_to(0) == 1);
    }
}

// ---------- the number as written ----------

/// A number as it is written down.
pub enum Number {
    /// The digits with the decimal point behind the first `point` of them, where `point`
    /// may also lie before the first or behind the last digit.
    Finite { negative: bool, digits: Seq<char>, point: int },
    Infinite { negative: bool },
    NotANumber,
}

/// Whether a text begins with a sign, and which.
pub open spec fn signed_negative(s: Seq<char>) -> bool {
    s.len() > 0 && s[0] == '-'
}

/// The text without its sign.
pub open spec fn unsigned_part(s: Seq<char>) -> Seq<char> {
    if s.len() > 0 && (s[0] == '-' || s[0] == '+') {
        s.skip(1)
    } else {
        s
    }
}

/// The position of the first `e` or `E`, or the length.
pub open spec fn exponent_mark(s: Seq<char>) -> int
    decreases s.len(),
{
    if s.len() == 0 || s[0] == 'e' || s[0] == 'E' {
        0
    } else {
        1 + exponent_mark(s.skip(1))
    }
}

/// The value of a signed string of digits, such as an exponent.
pub open spec fn signed_value(s: Seq<char>) -> Option<int> {
    let d = unsigned_part(s);
    if d.len() > 0 && text::all_digits(d) {
        Some(
            if signed_negative(s) {
                -(text::digits_value(d) as int)
            } else {
                text::digits_value(d) as int
            },
        )
    } else {
        None
    }
}

/// A decimal number without sign: digits with at most one point and at least one digit,
/// and an optional exponent.
pub open spec fn unsigned_number(t: Seq<char>, negative: bool) -> Option<Number> {
    let e = exponent_mark(t);
    let mantissa = t.take(e);
    let p = text::find_char(mantissa, '.');
    let whole = mantissa.take(p);
    let fraction = if p < mantissa.len() {
        mantissa.skip(p + 1)
    } else {
        Seq::empty()
    };
    let exponent = if e < t.len() {
        signed_value(t.skip(e + 1))
    } else {
        Some(0int)
    };
    if text::all_digits(whole) && text::all_digits(fraction) && whole.len() + fraction.len() > 0
        && exponent is Some {
        Some(
            Number::Finite {
                negative,
                digits: whole + fraction,
                point: whole.len() + exponent->0,
            },
        )
    } else {
        None
    }
}

/// The number that a text denotes: an optional sign, then `inf`, `infinity` or `nan` in
/// any case, or a decimal number.
pub open spec fn number(s: Seq<char>) -> Option<Number> {
    let t = unsigned_part(s);
    let negative = signed_negative(s);
    if text::eq_ignore_case(t, seq!['i', 'n', 'f']) || text::eq_ignore_case(
        t,
        seq!['i', 'n', 'f', 'i', 'n', 'i', 't', 'y'],
    ) {
        Some(Number::Infinite { negative })
    } else if text::eq_ignore_case(t, seq!['n', 'a', 'n']) {
        Some(Number::NotANumber)
    } else {
        unsigned_number(t, negative)
    }
}

// ---------- rounding ----------

/// The digits before the decimal point.
pub open spec fn whole_digits(digits: Seq<char>, point: int) -> Seq<char> {
    if point <= 0 {
        Seq::empty()
    } else if point <= digits.len() {
        digits.take(point)
    } else {
        digits + Seq::new((point - digits.len()) as nat, |i: int| '0')
    }
}

/// The digits behind the decimal point.
pub open spec fn fraction_digits(digits: Seq<char>, point: int) -> Seq<char> {
    if point <= 0 {
        Seq::new((-point) as nat, |i: int| '0') + digits
    } else if point <= digits.len() {
        digits.skip(point)
    } else {
        Seq::empty()
    }
}

/// The quotient `a / b` rounded to the nearest integer, ties to the even one.
pub open spec fn half_even(a: nat, b: nat) -> nat {
    let q = a / b;
    let r = a % b;
    if 2 * r < b || (2 * r == b && q % 2 == 0) {
        q
    } else {
        q + 1
    }
}

/// Whether `num / den` times two to the power `t` has its leading bit at position 63.
pub open spec fn leading_bit(num: nat, den: nat, t: nat) -> bool {
    0x8000_0000_0000_0000 * den <= num * two_to(t) < 0x1_0000_0000_0000_0000 * den
}

/// The binary64 number nearest to `num / den`, times `unit`, cut to an integer. The
/// leading 53 of 64 bits are kept, so the last eleven are rounded away.
pub open spec fn rounded_product(num: nat, den: nat, unit: nat) -> nat {
    let t = choose|t: nat| leading_bit(num, den, t);
    (half_even(num * two_to(t), den * 2048) * 2048 * unit) / two_to(t)
}

/// `num / den` in binary64, times `unit`, as a 64-bit integer that saturates. The range of
/// binary64 exponents plays no part: what lies beyond it is cut to zero or saturates.
pub open spec fn saturated_product(num: nat, den: nat, unit: nat) -> u64 {
    if num == 0 {
        0
    } else if num >= 0x1_0000_0000_0000_0000 * den || rounded_product(num, den, unit)
        > u64::MAX {
        u64::MAX
    } else {
        rounded_product(num, den, unit) as u64
    }
}

/// The number of bytes that a number of units amounts to.
pub open spec fn bytes_of(n: Number, unit: nat) -> u64 {
    match n {
        Number::NotANumber => 0,
        Number::Infinite { negative } => if negative {
            0
        } else {
            u64::MAX
        },
        Number::Finite { negative, digits, point } => if negative {
            0
        } else {
            let whole = whole_digits(digits, point);
            let fraction = fraction_digits(digits, point);
            saturated_product(
                text::digits_value(whole + fraction),
                ten_to(fraction.len()),
                unit,
            )
        },
    }
}

/// The leading-bit position determines the shift.
proof fn lemma_shift_unique(num: nat, den: nat, s: nat, t: nat)
    requires
        leading_bit(num, den, s),
        leading_bit(num, den, t),
        den > 0,
    ensures
        s == t,
{
    if s != t {
        let lo = if s < t { s } else { t };
        let hi = if s < t { t } else { s };
        lemma_two_to_add((hi - lo - 1) as nat, (lo + 1) as nat);
        lemma_powers_positive((hi - lo - 1) as nat);
        assert((hi - lo - 1) + (lo + 1) == hi);
        let k = two_to((hi - lo - 1) as nat);
        let p = two_to(lo);
        assert(two_to((lo + 1) as nat) == 2 * p);
        assert(two_to(hi) == k * (2 * p));
        assert(num * (k * (2 * p)) >= 2 * (num * p)) by (nonlinear_arith)
            requires
                k >= 1,
                num >= 0,
                p >= 0,
        ;
    }
}

/// Below two to the power 64 there is a shift that brings the leading bit in place.
proof fn lemma_shift_exists(num: nat, den: nat, t: nat)
    requires
        num > 0,
        den > 0,
        num * two_to(t) < 0x1_0000_0000_0000_0000 * den,
    ensures
        exists|u: nat| leading_bit(num, den, u),
    decreases 0x1_0000_0000_0000_0000 * den - num * two_to(t),
{
    if 0x8000_0000_0000_0000 * den <= num * two_to(t) {
        assert(leading_bit(num, den, t));
    } else {
        let p = two_to(t);
        lemma_powers_positive(t);
        assert(two_to((t + 1) as nat) == 2 * p);
        assert(num * (2 * p) == 2 * (num * p)) by (nonlinear_arith);
        assert(num * p >= 1) by (nonlinear_arith)
            requires
                num >= 1,
                p >= 1,
        ;
        lemma_shift_exists(num, den, t + 1);
    }
}

/// A value below two to the power -24, in units of at most two to the power 20, is cut to
/// zero.
proof fn lemma_small_is_zero(num: nat, den: nat, unit: nat)
    requires
        num > 0,
        den > 0,
        num * 0x100_0000 < den,
        unit <= 0x10_0000,
    ensures
        saturated_product(num, den, unit) == 0,
{
    assert(two_to(0) == 1);
    assert(num * 1 < 0x1_0000_0000_0000_0000 * den);
    lemma_shift_exists(num, den, 0);
    let t = choose|t: nat| leading_bit(num, den, t);
    let p = two_to(t);
    let n = half_even(num * p, den * 2048);
    // The rounded significand is at most two to the power 53.
    let a = num * p;
    let b = den * 2048;
    assert(n <= 0x20_0000_0000_0000) by {
        assert(a / b <= 0x1f_ffff_ffff_ffff) by (nonlinear_arith)
            requires
                a < 0x1_0000_0000_0000_0000 * den,
                b == den * 2048,
                den > 0,
        ;
    }
    // The shift is at least 87 positions.
    assert(p >= 0x8000_0000_0000_0000 * 0x100_0000) by (nonlinear_arith)
        requires
            0x8000_0000_0000_0000 * den <= num * p,
            num * 0x100_0000 < den,
            num > 0,
            p >= 0,
    ;
    let product = n * 2048 * unit;
    assert(product <= 0x1_0000_0000_0000_0000 * 0x10_0000) by (nonlinear_arith)
        requires
            product == n * 2048 * unit,
            n <= 0x20_0000_0000_0000,
            unit <= 0x10_0000,
    ;
    assert(product < p);
    assert(product / p == 0) by (nonlinear_arith)
        requires
            product < p,
            product >= 0,
    ;
}

// ---------- digits ----------

/// The number that a sequence of digit values denotes.
spec fn value(d: Seq<u8>) -> nat
    decreases d.len(),
{
    if d.len() == 0 {
        0
    } else {
        value(d.drop_last()) * 10 + d.last() as nat
    }
}

spec fn decimal_digits(d: Seq<u8>) -> bool {
    forall|i: int| 0 <= i < d.len() ==> #[trigger] d[i] < 10
}

proof fn lemma_value_concat(a: Seq<u8>, b: Seq<u8>)
    ensures
        value(a + b) == value(a) * ten_to(b.len()) + value(b),
    decreases b.len(),
{
    if b.len() == 0 {
        assert(a + b == a);
        assert(ten_to(0) == 1);
    } else {
        let c = b.drop_last();
        lemma_value_concat(a, c);
        assert((a + b).drop_last() == a + c);
        let x = value(a);
        let y = ten_to(c.len());
        assert(ten_to(b.len()) == 10 * y);
        assert((x * y) * 10 == x * (10 * y)) by (nonlinear_arith);
    }
}

proof fn lemma_value_bound(d: Seq<u8>)
    requires
        decimal_digits(d),
    ensures
        value(d) < ten_to(d.len()),
    decreases d.len(),
{
    if d.len() > 0 {
        assert(decimal_digits(d.drop_last())) by {
            assert forall|i: int| 0 <= i < d.len() - 1 implies #[trigger] d.drop_last()[i] < 10 by {
                assert(d[i] < 10);
            }
        }
        lemma_value_bound(d.drop_last());
        assert(d.last() < 10);
    } else {
        assert(ten_to(0) == 1);
    }
}

/// The digit values of a string of digits denote the same number.
proof fn lemma_value_of_chars(s: Seq<char>, d: Seq<u8>)
    requires
        s.len() == d.len(),
        forall|i: int| 0 <= i < s.len() ==> #[trigger] d[i] == text::digit_value(s[i]),
    ensures
        value(d) == text::digits_value(s),
    decreases s.len(),
{
    if s.len() > 0 {
        assert forall|i: int| 0 <= i < s.len() - 1 implies #[trigger] d.drop_last()[i]
            == text::digit_value(s.drop_last()[i]) by {
            assert(d[i] == text::digit_value(s[i]));
        }
        lemma_value_of_chars(s.drop_last(), d.drop_last());
        assert(d[d.len() - 1] == text::digit_value(s[s.len() - 1]));
    }
}

proof fn lemma_digits_value_concat(a: Seq<char>, b: Seq<char>)
    ensures
        text::digits_value(a + b) == text::digits_value(a) * ten_to(b.len())
            + text::digits_value(b),
    decreases b.len(),
{
    if b.len() == 0 {
        assert(a + b == a);
        assert(ten_to(0) == 1);
    } else {
        let c = b.drop_last();
        lemma_digits_value_concat(a, c);
        assert((a + b).drop_last() == a + c);
        let x = text::digits_value(a);
        let y = ten_to(c.len());
        assert(ten_to(b.len()) == 10 * y);
        assert((x * y) * 10 == x * (10 * y)) by (nonlinear_arith);
    }
}

proof fn lemma_digits_value_bound(s: Seq<char>)
    requires
        text::all_digits(s),
    ensures
        text::digits_value(s) < ten_to(s.len()),
    decreases s.len(),
{
    if s.len() > 0 {
        assert(text::all_digits(s.drop_last())) by {
            assert forall|i: int| 0 <= i < s.len() - 1 implies text::is_digit(
                #[trigger] s.drop_last()[i],
            ) by {
                assert(text::is_digit(s[i]));
            }
        }
        lemma_digits_value_bound(s.drop_last());
        assert(text::is_digit(s[s.len() - 1]));
    } else {
        assert(ten_to(0) == 1);
    }
}

proof fn lemma_zeros_value(s: Seq<char>)
    requires
        forall|i: int| 0 <= i < s.len() ==> #[trigger] s[i] == '0',
    ensures
        text::digits_value(s) == 0,
    decreases s.len(),
{
    if s.len() > 0 {
        assert(s[s.len() - 1] == '0');
        assert forall|i: int| 0 <= i < s.len() - 1 implies #[trigger] s.drop_last()[i] == '0' by {
            assert(s[i] == '0');
        }
        lemma_zeros_value(s.drop_last());
    }
}

/// Doubles the fraction that the digits behind the point denote and returns the digit that
/// moves in front of the point.
fn double_fraction(d: &mut Vec<u8>) -> (carry: u8)
    requires
        decimal_digits(old(d)@),
    ensures
        final(d)@.len() == old(d)@.len(),
        decimal_digits(final(d)@),
        carry <= 1,
        carry as nat * ten_to(old(d)@.len()) + value(final(d)@) == 2 * value(old(d)@),
{
    let ghost start = d@;
    let n = d.len();
    let mut i: usize = n;
    let mut carry: u8 = 0;
    assert(start.skip(n as int) == Seq::<u8>::empty());
    assert(d@.skip(n as int) == Seq::<u8>::empty());
    while i > 0
        invariant
            i <= n,
            n == d@.len(),
            n == start.len(),
            decimal_digits(start),
            decimal_digits(d@),
            carry <= 1,
            forall|j: int| 0 <= j < i ==> d@[j] == start[j],
            carry as nat * ten_to((n - i) as nat) + value(d@.skip(i as int)) == 2 * value(
                start.skip(i as int),
            ),
        decreases i,
    {
        let ghost before = d@;
        let ghost c0 = carry as nat;
        i = i - 1;
        let x = d[i];
        assert(x == start[i as int] && x < 10);
        let y = 2 * x + carry;
        d.set(i, y % 10);
        carry = y / 10;
        proof {
            let tail = before.skip(i + 1);
            let old_tail = start.skip(i + 1);
            let m = ten_to((n - i - 1) as nat);
            assert(d@.skip(i as int) == seq![(y % 10) as u8] + tail);
            assert(start.skip(i as int) == seq![x] + old_tail);
            lemma_value_concat(seq![(y % 10) as u8], tail);
            lemma_value_concat(seq![x], old_tail);
            assert(seq![x].drop_last() == Seq::<u8>::empty());
            assert(value(seq![x].drop_last()) == 0);
            assert(value(seq![x]) == x);
            assert(seq![(y % 10) as u8].drop_last() == Seq::<u8>::empty());
            assert(value(seq![(y % 10) as u8].drop_last()) == 0);
            assert(value(seq![(y % 10) as u8]) == y % 10);
            assert(ten_to((n - i) as nat) == 10 * m);
            let c1 = carry as nat;
            let z = (y % 10) as nat;
            let vt = value(tail);
            let vo = value(old_tail);
            assert(c1 * 10 + z == 2 * x + c0);
            assert(c1 * (10 * m) + (z * m + vt) == 2 * (x * m + vo)) by (nonlinear_arith)
                requires
                    c1 * 10 + z == 2 * x + c0,
                    c0 * m + vt == 2 * vo,
            ;
        }
    }
    proof {
        assert(start.skip(0) == start);
        assert(d@.skip(0) == d@);
    }
    carry
}

/// Whether any digit differs from zero.
fn any_nonzero(d: &Vec<u8>) -> (r: bool)
    requires
        decimal_digits(d@),
    ensures
        r == (value(d@) > 0),
{
    let mut i: usize = 0;
    assert(d@.take(0) == Seq::<u8>::empty());
    while i < d.len()
        invariant
            i <= d@.len(),
            value(d@.take(i as int)) == 0,
        decreases d@.len() - i,
    {
        assert(d@.take(i + 1).drop_last() == d@.take(i as int));
        if d[i] != 0 {
            proof {
                lemma_value_concat(d@.take(i + 1), d@.skip(i + 1));
                assert(d@.take(i + 1) + d@.skip(i + 1) == d@);
                lemma_powers_positive(d@.skip(i + 1).len());
                let x = value(d@.take(i + 1));
                let y = ten_to(d@.skip(i + 1).len());
                assert(x >= 1);
                assert(x * y >= 1) by (nonlinear_arith)
                    requires
                        x >= 1,
                        y >= 1,
                ;
            }
            return true;
        }
        i = i + 1;
    }
    assert(d@.take(i as int) == d@);
    false
}

proof fn lemma_half_even(q: nat, v: nat, den: nat, hi: nat, low: nat)
    requires
        v < den,
        q == hi * 2048 + low,
        low < 2048,
    ensures
        half_even(q * den + v, den * 2048) == if low < 1024 || (low == 1024 && v == 0 && hi % 2
            == 0) {
            hi
        } else {
            hi + 1
        },
{
    let a = q * den + v;
    let b = den * 2048;
    let r = low * den + v;
    assert(a == hi * b + r) by (nonlinear_arith)
        requires
            a == q * den + v,
            b == den * 2048,
            r == low * den + v,
            q == hi * 2048 + low,
    ;
    assert(r < b) by (nonlinear_arith)
        requires
            r == low * den + v,
            v < den,
            low <= 2047,
            b == den * 2048,
    ;
    vstd::arithmetic::div_mod::lemma_fundamental_div_mod_converse(
        a as int,
        b as int,
        hi as int,
        r as int,
    );
    assert((2 * r < b) == (low < 1024)) by (nonlinear_arith)
        requires
            r == low * den + v,
            v < den,
            b == den * 2048,
    ;
    assert((2 * r == b) == (low == 1024 && v == 0)) by (nonlinear_arith)
        requires
            r == low * den + v,
            v < den,
            b == den * 2048,
    ;
}

proof fn lemma_two_to_88()
    ensures
        two_to(88) == 0x100_0000_0000_0000_0000_0000,
{
    reveal_with_fuel(two_to, 89);
}

/// Doubles a number, given by its part before the point and the digits behind it, until its
/// leading bit stands at position 63, but at most 88 times. Returns the part before the
/// point, how often it was doubled, and two to that power.
fn shift_up(whole: u128, f: &mut Vec<u8>) -> (r: (u128, u32, u128))
    requires
        whole < 0x1_0000_0000_0000_0000,
        decimal_digits(old(f)@),
    ensures
        final(f)@.len() == old(f)@.len(),
        decimal_digits(final(f)@),
        r.0 < 0x1_0000_0000_0000_0000,
        r.1 <= 88,
        r.2 == two_to(r.1 as nat),
        r.0 >= 0x8000_0000_0000_0000 || r.1 == 88,
        r.0 as nat * ten_to(old(f)@.len()) + value(final(f)@) == (whole as nat * ten_to(
            old(f)@.len(),
        ) + value(old(f)@)) * two_to(r.1 as nat),
{
    let ghost den = ten_to(f@.len());
    let ghost num = whole as nat * den + value(f@);
    let mut q: u128 = whole;
    let mut scale: u128 = 1;
    let mut t: u32 = 0;
    proof {
        assert(two_to(0) == 1);
        lemma_two_to_88();
    }
    while q < 0x8000_0000_0000_0000 && t < 88
        invariant
            q < 0x1_0000_0000_0000_0000,
            t <= 88,
            scale == two_to(t as nat),
            t < 88 ==> scale <= 0x80_0000_0000_0000_0000_0000,
            two_to(88) == 0x100_0000_0000_0000_0000_0000,
            decimal_digits(f@),
            f@.len() == old(f)@.len(),
            den == ten_to(old(f)@.len()),
            q as nat * den + value(f@) == num * two_to(t as nat),
        decreases 88 - t,
    {
        let ghost v0 = value(f@);
        let ghost q0 = q as nat;
        let ghost p0 = two_to(t as nat);
        let c = double_fraction(f);
        q = 2 * q + c as u128;
        scale = 2 * scale;
        t = t + 1;
        proof {
            let c1 = c as nat;
            let v1 = value(f@);
            assert(two_to(t as nat) == 2 * p0);
            assert((2 * q0 + c1) * den + v1 == num * (2 * p0)) by (nonlinear_arith)
                requires
                    q0 * den + v0 == num * p0,
                    c1 * den + v1 == 2 * v0,
            ;
            if t < 88 {
                lemma_two_to_add((88 - t) as nat, t as nat);
                lemma_powers_positive((87 - t) as nat);
                assert(two_to((88 - t) as nat) == 2 * two_to((87 - t) as nat));
                let k = two_to((88 - t) as nat);
                let p = two_to(t as nat);
                assert(2 * p <= k * p) by (nonlinear_arith)
                    requires
                        k >= 2,
                        p >= 0,
                ;
            }
        }
    }
    (q, t, scale)
}

/// What [`rounded_product`] is once the leading bit stands in place.
proof fn lemma_rounded_product(
    num: nat,
    den: nat,
    q: nat,
    v: nat,
    t: nat,
    hi: nat,
    low: nat,
    unit: nat,
)
    requires
        v < den,
        q * den + v == num * two_to(t),
        0x8000_0000_0000_0000 <= q <= 0xffff_ffff_ffff_ffff,
        q == hi * 2048 + low,
        low < 2048,
    ensures
        rounded_product(num, den, unit) == ((if low < 1024 || (low == 1024 && v == 0 && hi % 2
            == 0) {
            hi
        } else {
            hi + 1
        }) * 2048 * unit) / two_to(t),
{
    let p = two_to(t);
    lemma_half_even(q, v, den, hi, low);
    assert(0x8000_0000_0000_0000 * den <= num * p) by (nonlinear_arith)
        requires
            q * den + v == num * p,
            q >= 0x8000_0000_0000_0000,
    ;
    assert(num * p < 0x1_0000_0000_0000_0000 * den) by (nonlinear_arith)
        requires
            q * den + v == num * p,
            v < den,
            q <= 0xffff_ffff_ffff_ffff,
    ;
    assert(leading_bit(num, den, t));
    let s = choose|s: nat| leading_bit(num, den, s);
    lemma_shift_unique(num, den, s, t);
}

/// [`saturated_product`] of a number given by its part before the point and the digits
/// behind it.
fn product_of_parts(whole: u128, fraction: Vec<u8>, unit: u64) -> (r: u64)
    requires
        whole < 0x1_0000_0000_0000_0000,
        decimal_digits(fraction@),
        unit <= 0x10_0000,
    ensures
        r == saturated_product(
            whole as nat * ten_to(fraction@.len()) + value(fraction@),
            ten_to(fraction@.len()),
            unit as nat,
        ),
{
    let ghost den = ten_to(fraction@.len());
    let ghost num = whole as nat * den + value(fraction@);
    let mut f = fraction;
    proof {
        lemma_powers_positive(f@.len());
        lemma_value_bound(f@);
        assert(num < 0x1_0000_0000_0000_0000 * den) by (nonlinear_arith)
            requires
                num == whole as nat * den + value(fraction@),
                value(fraction@) < den,
                whole <= 0xffff_ffff_ffff_ffff,
        ;
        assert(num == 0 <==> whole == 0 && value(fraction@) == 0) by (nonlinear_arith)
            requires
                num == whole as nat * den + value(fraction@),
                den >= 1,
        ;
    }
    if whole == 0 && !any_nonzero(&f) {
        return 0;
    }
    let (q, t, scale) = shift_up(whole, &mut f);
    let ghost p = two_to(t as nat);
    let ghost v = value(f@);
    proof {
        lemma_value_bound(f@);
        lemma_two_to_88();
        lemma_powers_positive(t as nat);
    }
    if q < 0x8000_0000_0000_0000 {
        proof {
            assert(num * 0x100_0000 < den) by (nonlinear_arith)
                requires
                    q as nat * den + v == num * p,
                    p == 0x100_0000_0000_0000_0000_0000,
                    v < den,
                    q + 1 <= 0x8000_0000_0000_0000,
                    num > 0,
            ;
            lemma_small_is_zero(num, den, unit as nat);
        }
        return 0;
    }
    let hi = q / 2048;
    let low = q % 2048;
    let mut n: u128 = hi;
    if low > 1024 || (low == 1024 && (hi % 2 == 1 || any_nonzero(&f))) {
        n = hi + 1;
    }
    proof {
        lemma_rounded_product(
            num,
            den,
            q as nat,
            v,
            t as nat,
            hi as nat,
            low as nat,
            unit as nat,
        );
        assert(n <= 0x20_0000_0000_0000);
        assert(n * 2048 * unit <= 0x10_0000_0000_0000_0000_0000) by (nonlinear_arith)
            requires
                n <= 0x20_0000_0000_0000,
                unit <= 0x10_0000,
        ;
    }
    let product = n * 2048 * (unit as u128);
    let result = product / scale;
    assert(result == rounded_product(num, den, unit as nat));
    if result > 0xffff_ffff_ffff_ffff {
        u64::MAX
    } else {
        result as u64
    }
}

// ---------- reading ----------

/// A number that has been read. The point is exact as long as it is within [`FAR`] of the
/// first digit; beyond that only its side is kept.
enum Reading {
    Finite { negative: bool, digits: Vec<char>, point: i128 },
    Infinite { negative: bool },
    NotANumber,
}

const FAR: i128 = 1_000_000_000_000_000_000_000_000_000_000;

spec fn same_place(a: int, b: int) -> bool {
    ||| a == b
    ||| a > FAR && b > FAR
    ||| a < -FAR && b < -FAR
}

impl Reading {
    spec fn reads(self, n: Number) -> bool {
        match (self, n) {
            (
                Reading::Finite { negative, digits, point },
                Number::Finite { negative: ng, digits: ds, point: pt },
            ) => negative == ng && digits@ == ds && same_place(point as int, pt)
                && text::all_digits(ds) && ds.len() > 0,
            (Reading::Infinite { negative }, Number::Infinite { negative: ng }) => negative == ng,
            (Reading::NotANumber, Number::NotANumber) => true,
            _ => false,
        }
    }
}

proof fn lemma_exponent_mark(s: Seq<char>, k: int)
    requires
        0 <= k <= s.len(),
        forall|i: int| 0 <= i < k ==> s[i] != 'e' && s[i] != 'E',
        k == s.len() || s[k] == 'e' || s[k] == 'E',
    ensures
        exponent_mark(s) == k,
    decreases s.len(),
{
    if k > 0 {
        assert forall|i: int| 0 <= i < k - 1 implies s.skip(1)[i] != 'e' && s.skip(1)[i]
            != 'E' by {
            assert(s[i + 1] != 'e' && s[i + 1] != 'E');
        }
        lemma_exponent_mark(s.skip(1), k - 1);
    }
}

/// Reads a signed string of digits; a value beyond [`FAR`] keeps only its side.
fn read_exponent(cs: &Vec<char>, from: usize) -> (r: Option<i128>)
    requires
        from <= cs@.len(),
    ensures
        r is Some <==> signed_value(cs@.skip(from as int)) is Some,
        r matches Some(v) ==> {
            let w = signed_value(cs@.skip(from as int))->0;
            &&& v == w || (v > 10 * FAR && w > 10 * FAR) || (v < -10 * FAR && w < -10 * FAR)
            &&& -200 * FAR <= v <= 200 * FAR
        },
{
    let ghost s = cs@.skip(from as int);
    let n = cs.len();
    let mut start: usize = from;
    let mut negative = false;
    if from < n {
        assert(s[0] == cs@[from as int]);
        if cs[from] == '-' {
            negative = true;
            start = from + 1;
        } else if cs[from] == '+' {
            start = from + 1;
        }
    }
    let ghost d = unsigned_part(s);
    assert(d == cs@.skip(start as int));
    if start == n {
        return None;
    }
    let mut i: usize = start;
    let mut v: i128 = 0;
    assert(d.take(0) == Seq::<char>::empty());
    while i < n
        invariant
            start <= i <= n,
            n == cs@.len(),
            d == cs@.skip(start as int),
            s == cs@.skip(from as int),
            d == unsigned_part(s),
            forall|j: int| 0 <= j < i - start ==> text::is_digit(#[trigger] d[j]),
            v == text::digits_value(d.take(i - start)) || (v > 10 * FAR && text::digits_value(
                d.take(i - start),
            ) > 10 * FAR),
            0 <= v <= 200 * FAR,
        decreases n - i,
    {
        let c = cs[i];
        assert(d[i - start] == c);
        if !('0' <= c && c <= '9') {
            return None;
        }
        proof {
            assert(d.take(i - start + 1).drop_last() == d.take(i - start));
        }
        if v <= 10 * FAR {
            v = v * 10 + (c as u32 - 48) as i128;
        }
        i = i + 1;
    }
    assert(d.take(n - start) == d);
    if negative {
        Some(-v)
    } else {
        Some(v)
    }
}

/// Copies the characters from `from` up to `to` where all of them are digits.
fn copy_digits(cs: &Vec<char>, from: usize, to: usize, out: &mut Vec<char>) -> (r: bool)
    requires
        from <= to <= cs@.len(),
    ensures
        r == text::all_digits(cs@.subrange(from as int, to as int)),
        r ==> final(out)@ == old(out)@ + cs@.subrange(from as int, to as int),
{
    let mut i: usize = from;
    let ghost part = cs@.subrange(from as int, to as int);
    assert(part.take(0) == Seq::<char>::empty());
    assert(out@ + part.take(0) == out@);
    while i < to
        invariant
            from <= i <= to <= cs@.len(),
            part == cs@.subrange(from as int, to as int),
            forall|j: int| 0 <= j < i - from ==> text::is_digit(#[trigger] part[j]),
            out@ == old(out)@ + part.take(i - from),
        decreases to - i,
    {
        let c = cs[i];
        assert(part[i - from] == c);
        if !('0' <= c && c <= '9') {
            return false;
        }
        out.push(c);
        assert(part.take(i - from + 1) == part.take(i - from).push(c));
        assert(old(out)@ + part.take(i - from).push(c) == (old(out)@ + part.take(i - from)).push(c));
        i = i + 1;
    }
    assert(part.take(to - from) == part);
    true
}

/// Reads an unsigned decimal number from position `from` on.
fn read_unsigned(cs: &Vec<char>, from: usize, negative: bool) -> (r: Option<Reading>)
    requires
        from <= cs@.len(),
    ensures
        r is Some <==> unsigned_number(cs@.skip(from as int), negative) is Some,
        r matches Some(v) ==> v.reads(unsigned_number(cs@.skip(from as int), negative)->0),
{
    let ghost t = cs@.skip(from as int);
    let n = cs.len();
    let mut e: usize = from;
    while e < n && cs[e] != 'e' && cs[e] != 'E'
        invariant
            from <= e <= n,
            n == cs@.len(),
            forall|i: int| from <= i < e ==> cs@[i] != 'e' && cs@[i] != 'E',
        decreases n - e,
    {
        e = e + 1;
    }
    proof {
        lemma_exponent_mark(t, e - from);
    }
    let ghost mantissa = t.take(e - from);
    let mut p: usize = from;
    while p < e && cs[p] != '.'
        invariant
            from <= p <= e <= n,
            n == cs@.len(),
            forall|i: int| from <= i < p ==> cs@[i] != '.',
        decreases e - p,
    {
        p = p + 1;
    }
    proof {
        text::lemma_find_char(mantissa, '.', p - from);
        assert(mantissa.take(p - from) == cs@.subrange(from as int, p as int));
    }
    let mut digits: Vec<char> = Vec::new();
    let ghost whole = cs@.subrange(from as int, p as int);
    if !copy_digits(cs, from, p, &mut digits) {
        return None;
    }
    assert(digits@ == whole);
    let ghost fraction = if p < e {
        cs@.subrange(p + 1, e as int)
    } else {
        Seq::empty()
    };
    if p < e {
        assert(mantissa.skip(p - from + 1) == fraction);
        if !copy_digits(cs, p + 1, e, &mut digits) {
            return None;
        }
    } else {
        assert(whole + fraction == whole);
    }
    assert(digits@ == whole + fraction);
    if digits.len() == 0 {
        return None;
    }
    let mut exponent: i128 = 0;
    if e < n {
        assert(t.skip(e - from + 1) == cs@.skip(e + 1));
        match read_exponent(cs, e + 1) {
            Some(v) => {
                exponent = v;
            },
            None => {
                return None;
            },
        }
    }
    let point: i128 = (p - from) as i128 + exponent;
    assert(text::all_digits(digits@)) by {
        assert forall|i: int| 0 <= i < digits@.len() implies text::is_digit(
            #[trigger] digits@[i],
        ) by {
            if i < whole.len() {
                assert(digits@[i] == whole[i]);
            } else {
                assert(digits@[i] == fraction[i - whole.len()]);
            }
        }
    }
    Some(Reading::Finite { negative, digits, point })
}

/// Reads a number, as [`number`] says.
fn read_number(s: &str) -> (r: Option<Reading>)
    ensures
        r is Some <==> number(s@) is Some,
        r matches Some(v) ==> v.reads(number(s@)->0),
{
    let cs = text::to_chars(s);
    let n = cs.len();
    let mut start: usize = 0;
    let mut negative = false;
    if n > 0 {
        if cs[0] == '-' {
            negative = true;
            start = 1;
        } else if cs[0] == '+' {
            start = 1;
        }
    }
    let ghost t = unsigned_part(s@);
    assert(t == s@.skip(start as int));
    let rest = s.substring_char(start, n);
    assert(rest@ == t);
    let body = text::to_chars(rest);
    let inf = vec!['i', 'n', 'f'];
    let infinity = vec!['i', 'n', 'f', 'i', 'n', 'i', 't', 'y'];
    let nan = vec!['n', 'a', 'n'];
    assert(inf@ == seq!['i', 'n', 'f']);
    assert(infinity@ == seq!['i', 'n', 'f', 'i', 'n', 'i', 't', 'y']);
    assert(nan@ == seq!['n', 'a', 'n']);
    if text::chars_eq_ignore_case(&body, &inf) || text::chars_eq_ignore_case(&body, &infinity) {
        Some(Reading::Infinite { negative })
    } else if text::chars_eq_ignore_case(&body, &nan) {
        Some(Reading::NotANumber)
    } else {
        assert(cs@.skip(start as int) == t);
        read_unsigned(&cs, start, negative)
    }
}

// ---------- evaluation ----------

/// A string of digits whose digit at index `z` is not zero denotes at least the
/// corresponding power of ten.
proof fn lemma_digits_value_lower(s: Seq<char>, z: int)
    requires
        0 <= z < s.len(),
        text::all_digits(s),
        s[z] != '0',
    ensures
        text::digits_value(s) >= ten_to((s.len() - z - 1) as nat),
    decreases s.len(),
{
    let c = s.drop_last();
    if z == s.len() - 1 {
        assert(text::is_digit(s[z]));
        assert(ten_to(0) == 1);
    } else {
        assert(text::all_digits(c)) by {
            assert forall|i: int| 0 <= i < c.len() implies text::is_digit(#[trigger] c[i]) by {
                assert(text::is_digit(s[i]));
            }
        }
        lemma_digits_value_lower(c, z);
        assert(ten_to((s.len() - z - 1) as nat) == 10 * ten_to((c.len() - z - 1) as nat));
    }
}

proof fn lemma_ten_to_values()
    ensures
        ten_to(8) == 100_000_000,
        ten_to(20) == 100_000_000_000_000_000_000,
{
    reveal_with_fuel(ten_to, 21);
}

proof fn lemma_ten_to_monotonic(a: nat, b: nat)
    requires
        a <= b,
    ensures
        ten_to(a) <= ten_to(b),
{
    lemma_ten_to_add((b - a) as nat, a);
    lemma_powers_positive((b - a) as nat);
    let k = ten_to((b - a) as nat);
    let x = ten_to(a);
    assert(x <= k * x) by (nonlinear_arith)
        requires
            k >= 1,
            x >= 0,
    ;
}

/// More than twenty digits before the point, the first of them not zero, exceed 64 bits.
proof fn lemma_large_saturates(digits: Seq<char>, point: int, z: int, unit: nat)
    requires
        text::all_digits(digits),
        0 <= z < digits.len(),
        digits[z] != '0',
        point > z + 20,
    ensures
        saturated_product(
            text::digits_value(whole_digits(digits, point) + fraction_digits(digits, point)),
            ten_to(fraction_digits(digits, point).len()),
            unit,
        ) == u64::MAX,
{
    let whole = whole_digits(digits, point);
    let fraction = fraction_digits(digits, point);
    let all = whole + fraction;
    assert forall|i: int| 0 <= i < all.len() implies text::is_digit(#[trigger] all[i]) by {
        if i < digits.len() {
            assert(all[i] == digits[i]);
        } else {
            assert(all[i] == '0');
        }
    }
    assert(all[z] == digits[z]);
    lemma_digits_value_lower(all, z);
    let f = fraction.len();
    assert(all.len() == point + f);
    lemma_ten_to_monotonic(20 + f, (all.len() - z - 1) as nat);
    lemma_ten_to_add(20, f);
    lemma_ten_to_values();
    lemma_powers_positive(f);
    let den = ten_to(f);
    assert(text::digits_value(all) >= 100_000_000_000_000_000_000 * den);
}

/// Eight or more zeros behind the point are too small to count.
proof fn lemma_far_right_is_zero(digits: Seq<char>, point: int, z: int, unit: nat)
    requires
        text::all_digits(digits),
        0 <= z < digits.len(),
        digits[z] != '0',
        point < -7,
        unit <= 0x10_0000,
    ensures
        saturated_product(
            text::digits_value(whole_digits(digits, point) + fraction_digits(digits, point)),
            ten_to(fraction_digits(digits, point).len()),
            unit,
        ) == 0,
{
    let fraction = fraction_digits(digits, point);
    let zeros = Seq::new((-point) as nat, |i: int| '0');
    assert(whole_digits(digits, point) + fraction == fraction);
    lemma_digits_value_concat(zeros, digits);
    lemma_zeros_value(zeros);
    lemma_digits_value_bound(digits);
    lemma_digits_value_lower(digits, z);
    lemma_powers_positive((digits.len() - z - 1) as nat);
    let num = text::digits_value(digits);
    assert(text::digits_value(fraction) == num) by {
        let x = ten_to(digits.len());
        assert(0 * x == 0) by (nonlinear_arith);
    }
    lemma_ten_to_add((-point) as nat, digits.len());
    lemma_ten_to_monotonic(8, (-point) as nat);
    lemma_ten_to_values();
    lemma_powers_positive(digits.len());
    let a = ten_to((-point) as nat);
    let b = ten_to(digits.len());
    assert(num * 0x100_0000 < a * b) by (nonlinear_arith)
        requires
            num < b,
            a >= 100_000_000,
    ;
    lemma_small_is_zero(num, a * b, unit);
}

/// The value of the digits before the point, where the first `z` of them are zero and at
/// most twenty follow.
fn whole_value(digits: &Vec<char>, point: i128, z: usize) -> (r: u128)
    requires
        text::all_digits(digits@),
        z < digits@.len(),
        forall|i: int| 0 <= i < z ==> digits@[i] == '0',
        z < point <= z + 20,
    ensures
        r == text::digits_value(whole_digits(digits@, point as int)),
        r < 100_000_000_000_000_000_000,
{
    let ghost w = whole_digits(digits@, point as int);
    let mut i: i128 = z as i128;
    let mut v: u128 = 0;
    proof {
        assert(w.len() == point);
        assert forall|j: int| 0 <= j < z implies #[trigger] w.take(z as int)[j] == '0' by {
            assert(w[j] == digits@[j]);
        }
        lemma_zeros_value(w.take(z as int));
        lemma_ten_to_values();
        assert(ten_to(0) == 1);
    }
    while i < point
        invariant
            z <= i <= point <= z + 20,
            z < digits@.len(),
            text::all_digits(digits@),
            w == whole_digits(digits@, point as int),
            w.len() == point,
            v == text::digits_value(w.take(i as int)),
            v < ten_to((i - z) as nat),
            ten_to(20) == 100_000_000_000_000_000_000,
        decreases point - i,
    {
        let mut c: char = '0';
        if i < digits.len() as i128 {
            c = digits[i as usize];
        }
        proof {
            assert(w[i as int] == c);
            if i < digits@.len() {
                assert(text::is_digit(digits@[i as int]));
            }
            assert(w.take(i + 1).drop_last() == w.take(i as int));
            assert(ten_to((i + 1 - z) as nat) == 10 * ten_to((i - z) as nat));
            lemma_ten_to_monotonic((i + 1 - z) as nat, 20);
        }
        v = v * 10 + (c as u32 - 48) as u128;
        i = i + 1;
    }
    proof {
        assert(w.take(point as int) == w);
        lemma_ten_to_monotonic((point - z) as nat, 20);
    }
    v
}

/// The values of the digits behind the point.
fn fraction_values(digits: &Vec<char>, point: i128) -> (r: Vec<u8>)
    requires
        text::all_digits(digits@),
        -7 <= point,
    ensures
        decimal_digits(r@),
        r@.len() == fraction_digits(digits@, point as int).len(),
        value(r@) == text::digits_value(fraction_digits(digits@, point as int)),
{
    let ghost f = fraction_digits(digits@, point as int);
    let mut out: Vec<u8> = Vec::new();
    let n = digits.len();
    if point > n as i128 {
        assert(f == Seq::<char>::empty());
        return out;
    }
    let mut zeros: i128 = if point < 0 {
        -point
    } else {
        0
    };
    let ghost pad = if point < 0 {
        -point
    } else {
        0
    };
    while zeros > 0
        invariant
            0 <= zeros <= pad,
            pad <= 7,
            out@.len() == pad - zeros,
            forall|j: int| 0 <= j < out@.len() ==> #[trigger] out@[j] == 0,
        decreases zeros,
    {
        out.push(0);
        zeros = zeros - 1;
    }
    let first: usize = if point > 0 {
        point as usize
    } else {
        0
    };
    let mut i: usize = first;
    assert(forall|j: int| 0 <= j < pad ==> f[j] == '0');
    assert(forall|j: int| first <= j < n ==> f[pad + j - first] == digits@[j]);
    while i < n
        invariant
            first <= i <= n,
            n == digits@.len(),
            text::all_digits(digits@),
            out@.len() == pad + (i - first),
            f.len() == pad + (n - first),
            0 <= pad <= 7,
            forall|j: int| 0 <= j < pad ==> f[j] == '0',
            forall|j: int| first <= j < n ==> f[pad + j - first] == digits@[j],
            forall|j: int|
                0 <= j < out@.len() ==> #[trigger] out@[j] == text::digit_value(f[j]) && out@[j]
                    < 10,
        decreases n - i,
    {
        let c = digits[i];
        assert(text::is_digit(digits@[i as int]));
        assert(f[pad + i - first] == c);
        out.push((c as u32 - 48) as u8);
        i = i + 1;
    }
    proof {
        lemma_value_of_chars(f, out@);
    }
    out
}

/// Computes [`bytes_of`] of a number that has been read.
fn bytes_of_reading(x: Reading, unit: u64, n: Ghost<Number>) -> (r: u64)
    requires
        x.reads(n@),
        unit <= 0x10_0000,
    ensures
        r == bytes_of(n@, unit as nat),
{
    match x {
        Reading::NotANumber => 0,
        Reading::Infinite { negative } => if negative {
            0
        } else {
            u64::MAX
        },
        Reading::Finite { negative, digits, point } => {
            if negative {
                return 0;
            }
            let ghost pt = n@->point;
            let ghost whole = whole_digits(digits@, pt);
            let ghost fraction = fraction_digits(digits@, pt);
            let len = digits.len();
            let mut z: usize = 0;
            while z < len && digits[z] == '0'
                invariant
                    z <= len,
                    len == digits@.len(),
                    forall|i: int| 0 <= i < z ==> digits@[i] == '0',
                decreases len - z,
            {
                z = z + 1;
            }
            if z == len {
                proof {
                    let all = whole + fraction;
                    assert forall|i: int| 0 <= i < all.len() implies #[trigger] all[i] == '0' by {
                    }
                    lemma_zeros_value(all);
                }
                return 0;
            }
            if point > z as i128 + 20 {
                proof {
                    lemma_large_saturates(digits@, pt, z as int, unit as nat);
                }
                return u64::MAX;
            }
            if point < -7 {
                proof {
                    lemma_far_right_is_zero(digits@, pt, z as int, unit as nat);
                }
                return 0;
            }
            assert(pt == point);
            let mut w: u128 = 0;
            if point > z as i128 {
                w = whole_value(&digits, point, z);
            } else {
                proof {
                    assert forall|i: int| 0 <= i < whole.len() implies #[trigger] whole[i]
                        == '0' by {}
                    lemma_zeros_value(whole);
                }
            }
            let f = fraction_values(&digits, point);
            proof {
                lemma_digits_value_concat(whole, fraction);
                lemma_powers_positive(fraction.len());
            }
            if w >= 0x1_0000_0000_0000_0000 {
                proof {
                    let den = ten_to(fraction.len());
                    assert(w as nat * den >= 0x1_0000_0000_0000_0000 * den) by (nonlinear_arith)
                        requires
                            w >= 0x1_0000_0000_0000_0000,
                    ;
                }
                return u64::MAX;
            }
            product_of_parts(w, f, unit)
        },
    }
}

// ---------- limits ----------

/// Why a text is no number.
#[derive(Debug, Clone, Copy, PartialEq, Eq, Structural)]
pub enum NumberError {
    /// There is nothing in it.
    Empty,
    /// It does not have the form of a number.
    Invalid,
}

impl NumberError {
    /// The message for the user.
    pub open spec fn text(self) -> Seq<char> {
        match self {
            NumberError::Empty => "cannot parse float from empty string"@,
            NumberError::Invalid => "invalid float literal"@,
        }
    }

    /// Renders the error for the user.
    pub fn message(&self) -> (r: String)
        ensures
            r@ == self.text(),
            self is Empty ==> r@ == "cannot parse float from empty string"@,
            self is Invalid ==> r@ == "invalid float literal"@,
    {
        match self {
            NumberError::Empty => "cannot parse float from empty string".to_string(),
            NumberError::Invalid => "invalid float literal".to_string(),
        }
    }
}

/// Why a bandwidth limit is refused.
#[derive(Debug)]
pub enum RateError {
    /// The text does not end with `MB`, `KB` or `B`.
    InvalidUnit,
    /// What stands before the unit is no number, and why it is none.
    InvalidNumber(String, NumberError),
}

/// What a [`RateError`] holds.
pub enum RateErrorView {
    InvalidUnit,
    InvalidNumber(Seq<char>, NumberError),
}

impl View for RateError {
    type V = RateErrorView;

    open spec fn view(&self) -> RateErrorView {
        match self {
            RateError::InvalidUnit => RateErrorView::InvalidUnit,
            RateError::InvalidNumber(n, e) => RateErrorView::InvalidNumber(n@, *e),
        }
    }
}

impl RateError {
    /// The message for the user.
    pub open spec fn text(self) -> Seq<char> {
        match self {
            RateError::InvalidUnit => "Invalid bandwidth unit. Use MB, KB, or B"@,
            RateError::InvalidNumber(n, _) => "Invalid bandwidth number: "@ + n@,
        }
    }

    /// Renders the error for the user.
    pub fn message(&self) -> (r: String)
        ensures
            r@ == self.text(),
            self is InvalidUnit ==> r@ == "Invalid bandwidth unit. Use MB, KB, or B"@,
            self matches RateError::InvalidNumber(n, _) ==> r@ == "Invalid bandwidth number: "@
                + n@,
    {
        match self {
            RateError::InvalidUnit => "Invalid bandwidth unit. Use MB, KB, or B".to_string(),
            RateError::InvalidNumber(n, _) => {
                let mut m = "Invalid bandwidth number: ".to_string();
                m.append(n.as_str());
                m
            },
        }
    }

    /// The error below this one, where there is one.
    pub fn cause(&self) -> (r: Option<NumberError>)
        ensures
            r == (match self@ {
                RateErrorView::InvalidUnit => None,
                RateErrorView::InvalidNumber(_, e) => Some(e),
            }),
            self is InvalidUnit ==> r is None,
            self matches RateError::InvalidNumber(_, e) ==> r == Some(*e),
    {
        match self {
            RateError::InvalidUnit => None,
            RateError::InvalidNumber(_, e) => Some(*e),
        }
    }
}

/// The unit of a limit, with the number of characters that it takes: two for `MB` and
/// `KB`, one for `B`.
pub open spec fn unit_of(s: Seq<char>) -> Option<(int, nat)> {
    if seq!['M', 'B'].is_suffix_of(s) {
        Some((2int, 0x10_0000nat))
    } else if seq!['K', 'B'].is_suffix_of(s) {
        Some((2int, 1024nat))
    } else if seq!['B'].is_suffix_of(s) {
        Some((1int, 1nat))
    } else {
        None
    }
}

/// What a bandwidth limit means: bytes per second, or why it is refused. White space
/// around the limit and around the number is ignored, and an empty limit is zero.
pub open spec fn rate_of(limit: Seq<char>) -> Result<u64, RateErrorView> {
    let s = text::trimmed(limit);
    if s.len() == 0 {
        Ok(0)
    } else if unit_of(s) is None {
        Err(RateErrorView::InvalidUnit)
    } else {
        let (width, unit) = unit_of(s)->0;
        let before = s.take(s.len() - width);
        match number(text::trimmed(before)) {
            Some(n) => Ok(bytes_of(n, unit)),
            None => Err(
                RateErrorView::InvalidNumber(
                    before,
                    if text::trimmed(before).len() == 0 {
                        NumberError::Empty
                    } else {
                        NumberError::Invalid
                    },
                ),
            ),
        }
    }
}

/// Parse bandwidth limit string like "1MB", "500KB" into bytes per second
pub fn parse_bandwidth_limit(s: &str) -> (r: Result<u64, RateError>)
    ensures
        match (r, rate_of(s@)) {
            (Ok(v), Ok(w)) => v == w,
            (Err(e), Err(w)) => e@ == w,
            _ => false,
        },
{
    let t = text::trim(s);
    if t.is_empty() {
        return Ok(0);
    }
    let n = t.unicode_len();
    proof {
        reveal_strlit("MB");
        reveal_strlit("KB");
        reveal_strlit("B");
        assert("MB"@ == seq!['M', 'B']);
        assert("KB"@ == seq!['K', 'B']);
        assert("B"@ == seq!['B']);
    }
    let mut width: usize = 2;
    let mut unit: u64 = 0x10_0000;
    if text::ends_with(t, "MB") {
    } else if text::ends_with(t, "KB") {
        unit = 1024;
    } else if text::ends_with(t, "B") {
        width = 1;
        unit = 1;
    } else {
        return Err(RateError::InvalidUnit);
    }
    let before = t.substring_char(0, n - width);
    assert(before@ == t@.take(n - width));
    let digits = text::trim(before);
    match read_number(digits) {
        Some(x) => {
            let ghost v = number(text::trimmed(before@))->0;
            Ok(bytes_of_reading(x, unit, Ghost(v)))
        },
        None => {
            let why = if digits.is_empty() {
                NumberError::Empty
            } else {
                NumberError::Invalid
            };
            Err(RateError::InvalidNumber(before.to_string(), why))
        },
    }
}

// ---------- laws ----------

proof fn lemma_whole_product(num: nat, unit: nat)
    requires
        num < 0x20_0000_0000_0000,
    ensures
        saturated_product(num, 1, unit) == if num * unit > u64::MAX {
            u64::MAX
        } else {
            (num * unit) as u64
        },
{
    if num == 0 {
        assert(0 * unit == 0) by (nonlinear_arith);
    } else {
        assert(two_to(0) == 1);
        lemma_shift_exists(num, 1, 0);
        let t = choose|t: nat| leading_bit(num, 1, t);
        let p = two_to(t);
        assert(two_to(11) == 2048) by {
            reveal_with_fuel(two_to, 12);
        }
        assert(t >= 11) by {
            if t < 11 {
                lemma_two_to_add((11 - t) as nat, t);
                lemma_powers_positive((10 - t) as nat);
                assert(two_to((11 - t) as nat) == 2 * two_to((10 - t) as nat));
                let k = two_to((11 - t) as nat);
                assert(2 * p <= 2048) by (nonlinear_arith)
                    requires
                        k * p == 2048,
                        k >= 2,
                        p >= 0,
                ;
                assert(num * p < 0x8000_0000_0000_0000) by (nonlinear_arith)
                    requires
                        num < 0x20_0000_0000_0000,
                        p <= 1024,
                ;
            }
        }
        let h = two_to((t - 11) as nat);
        lemma_two_to_add((t - 11) as nat, 11);
        assert((t - 11) + 11 == t);
        assert(p == h * 2048);
        lemma_powers_positive((t - 11) as nat);
        let a = num * p;
        let q = num * h;
        assert(a == q * 2048 + 0) by (nonlinear_arith)
            requires
                a == num * p,
                q == num * h,
                p == h * 2048,
        ;
        assert(half_even(a, 2048) == q);
        assert(q * 2048 * unit == (num * unit) * p) by (nonlinear_arith)
            requires
                q == num * h,
                p == h * 2048,
        ;
        lemma_powers_positive(t);
        vstd::arithmetic::div_mod::lemma_div_multiples_vanish((num * unit) as int, p as int);
        assert((num * unit) * p == p * (num * unit)) by (nonlinear_arith);
        assert(num * two_to(t) == a);
        assert(1 * 2048nat == 2048);
        assert(rounded_product(num, 1, unit) == num * unit);
    }
}

proof fn lemma_trimmed_same(s: Seq<char>)
    requires
        s.len() > 0,
        !text::is_space(s[0]),
        !text::is_space(s.last()),
    ensures
        text::trimmed(s) == s,
{
}

/// A limit that is a whole number below two to the power 53 is exact: `"500KB"` is
/// 500 times 1024 bytes, and so on for every such number and each unit, up to the
/// largest 64-bit number.
pub proof fn whole_limits_are_exact(d: Seq<char>, suffix: Seq<char>)
    requires
        d.len() > 0,
        text::all_digits(d),
        text::digits_value(d) < 0x20_0000_0000_0000,
        suffix == seq!['M', 'B'] || suffix == seq!['K', 'B'] || suffix == seq!['B'],
    ensures
        rate_of(d + suffix) == Ok::<u64, RateErrorView>(
            {
                let unit = if suffix == seq!['M', 'B'] {
                    0x10_0000nat
                } else if suffix == seq!['K', 'B'] {
                    1024nat
                } else {
                    1nat
                };
                let product = text::digits_value(d) * unit;
                if product > u64::MAX {
                    u64::MAX
                } else {
                    product as u64
                }
            },
        ),
{
    let s = d + suffix;
    let n = d.len() as int;
    assert(text::is_digit(d[0]));
    assert(text::is_digit(d[n - 1]));
    assert(s[0] == d[0]);
    assert(s.last() == 'B');
    lemma_trimmed_same(s);
    lemma_trimmed_same(d);
    assert(s.take(n) == d);
    if suffix == seq!['M', 'B'] {
        assert(s.skip(n) == suffix);
        assert(suffix[0] == 'M');
    } else if suffix == seq!['K', 'B'] {
        assert(s.skip(n) == suffix);
        assert(suffix[0] == 'K');
        assert(s[n] == 'K');
        assert(!seq!['M', 'B'].is_suffix_of(s)) by {
            assert(s.subrange(s.len() - 2, s.len() as int)[0] == 'K');
            assert(seq!['M', 'B'][0] == 'M');
        }
    } else {
        assert(suffix.len() == 1);
        assert(s[n - 1] == d[n - 1]);
        assert(!seq!['M', 'B'].is_suffix_of(s)) by {
            assert(s.subrange(s.len() - 2, s.len() as int)[0] == d[n - 1]);
            assert(seq!['M', 'B'][0] == 'M');
        }
        assert(!seq!['K', 'B'].is_suffix_of(s)) by {
            assert(s.subrange(s.len() - 2, s.len() as int)[0] == d[n - 1]);
            assert(seq!['K', 'B'][0] == 'K');
        }
        assert(s.subrange(s.len() - 1, s.len() as int) == suffix);
    }
    assert(unit_of(s).unwrap().0 == suffix.len());
    // The digits are read as they stand.
    assert forall|i: int| 0 <= i < n implies d[i] != 'e' && d[i] != 'E' && d[i] != '.' by {
        assert(text::is_digit(d[i]));
    }
    lemma_exponent_mark(d, n);
    assert(d.take(n) == d);
    text::lemma_find_char(d, '.', n);
    assert(text::all_digits(Seq::<char>::empty()));
    assert(d + Seq::<char>::empty() == d);
    assert(number(d) == Some(Number::Finite { negative: false, digits: d, point: n })) by {
        assert(!text::eq_ignore_case(d, seq!['i', 'n', 'f'])) by {
            assert(text::ascii_lower(d[0]) == d[0]);
            assert(text::ascii_lower(seq!['i', 'n', 'f'][0]) == 'i');
        }
        assert(!text::eq_ignore_case(d, seq!['i', 'n', 'f', 'i', 'n', 'i', 't', 'y'])) by {
            assert(text::ascii_lower(d[0]) == d[0]);
            assert(text::ascii_lower(seq!['i', 'n', 'f', 'i', 'n', 'i', 't', 'y'][0]) == 'i');
        }
        assert(!text::eq_ignore_case(d, seq!['n', 'a', 'n'])) by {
            assert(text::ascii_lower(d[0]) == d[0]);
            assert(text::ascii_lower(seq!['n', 'a', 'n'][0]) == 'n');
        }
    }
    assert(whole_digits(d, n) + fraction_digits(d, n) == d);
    assert(fraction_digits(d, n).len() == 0);
    assert(ten_to(0) == 1);
    lemma_whole_product(text::digits_value(d), unit_of(s).unwrap().1);
}

/// A decimal number is read with its sign, its point and its exponent. Each of these may be
/// missing, and so may the digits on one side of the point.
pub proof fn decimal_numbers_are_read(
    sign: Seq<char>,
    whole: Seq<char>,
    fraction: Seq<char>,
    mantissa: Seq<char>,
    exponent_sign: Seq<char>,
    exponent: Seq<char>,
    mark: char,
)
    requires
        sign == Seq::<char>::empty() || sign == seq!['+'] || sign == seq!['-'],
        text::all_digits(whole),
        text::all_digits(fraction),
        whole.len() + fraction.len() > 0,
        mantissa == whole + seq!['.'] + fraction || (fraction.len() == 0 && mantissa == whole),
        exponent_sign == Seq::<char>::empty() || exponent_sign == seq!['+'] || exponent_sign
            == seq!['-'],
        exponent.len() > 0,
        text::all_digits(exponent),
        mark == 'e' || mark == 'E',
    ensures
        number(sign + mantissa) == Some(
            Number::Finite {
                negative: sign == seq!['-'],
                digits: whole + fraction,
                point: whole.len() as int,
            },
        ),
        number(sign + (mantissa + seq![mark] + exponent_sign + exponent)) == Some(
            Number::Finite {
                negative: sign == seq!['-'],
                digits: whole + fraction,
                point: whole.len() + (if exponent_sign == seq!['-'] {
                    -(text::digits_value(exponent) as int)
                } else {
                    text::digits_value(exponent) as int
                }),
            },
        ),
{
    lemma_mantissa_first(whole, fraction, mantissa);
    let negative = sign == seq!['-'];
    let none = Seq::<char>::empty();
    assert(mantissa + none == mantissa);
    lemma_sign_read(sign, mantissa);
    lemma_unsigned_read(whole, fraction, mantissa, none, negative);
    let x = exponent_sign + exponent;
    let behind = seq![mark] + x;
    let t = mantissa + seq![mark] + exponent_sign + exponent;
    assert(t == mantissa + behind);
    assert(t[0] == mantissa[0]);
    lemma_sign_read(sign, t);
    lemma_unsigned_read(whole, fraction, mantissa, behind, negative);
    assert(behind.skip(1) == x);
    lemma_signed_value(exponent_sign, exponent);
}

proof fn lemma_signed_value(sign: Seq<char>, digits: Seq<char>)
    requires
        sign == Seq::<char>::empty() || sign == seq!['+'] || sign == seq!['-'],
        digits.len() > 0,
        text::all_digits(digits),
    ensures
        signed_value(sign + digits) == Some(
            if sign == seq!['-'] {
                -(text::digits_value(digits) as int)
            } else {
                text::digits_value(digits) as int
            },
        ),
{
    let s = sign + digits;
    assert(text::is_digit(digits[0]));
    assert(seq!['+'][0] == '+' && seq!['-'][0] == '-');
    if sign.len() == 0 {
        assert(s == digits);
    } else {
        assert(s[0] == sign[0]);
        assert(s.skip(1) == digits);
    }
}

/// A mantissa with an exponent behind it, or with nothing, is read.
proof fn lemma_unsigned_read(
    whole: Seq<char>,
    fraction: Seq<char>,
    mantissa: Seq<char>,
    behind: Seq<char>,
    negative: bool,
)
    requires
        text::all_digits(whole),
        text::all_digits(fraction),
        whole.len() + fraction.len() > 0,
        mantissa == whole + seq!['.'] + fraction || (fraction.len() == 0 && mantissa == whole),
        behind.len() > 0 ==> behind[0] == 'e' || behind[0] == 'E',
    ensures
        ({
            let x = if behind.len() > 0 {
                signed_value(behind.skip(1))
            } else {
                Some(0int)
            };
            x is Some ==> unsigned_number(mantissa + behind, negative) == Some(
                Number::Finite {
                    negative,
                    digits: whole + fraction,
                    point: whole.len() + x.unwrap(),
                },
            )
        }),
{
    let t = mantissa + behind;
    lemma_mantissa_read(whole, fraction, mantissa, behind);
    if behind.len() > 0 {
        assert(t.skip(mantissa.len() + 1 as int) == behind.skip(1));
    }
}

proof fn lemma_mantissa_first(whole: Seq<char>, fraction: Seq<char>, mantissa: Seq<char>)
    requires
        text::all_digits(whole),
        whole.len() + fraction.len() > 0,
        mantissa == whole + seq!['.'] + fraction || (fraction.len() == 0 && mantissa == whole),
    ensures
        mantissa.len() > 0,
        text::is_digit(mantissa[0]) || mantissa[0] == '.',
{
    if whole.len() > 0 {
        assert(mantissa[0] == whole[0]);
    }
}

/// What begins with a digit or a point is read behind its sign.
proof fn lemma_sign_read(sign: Seq<char>, t: Seq<char>)
    requires
        sign == Seq::<char>::empty() || sign == seq!['+'] || sign == seq!['-'],
        t.len() > 0,
        text::is_digit(t[0]) || t[0] == '.',
    ensures
        number(sign + t) == unsigned_number(t, sign == seq!['-']),
{
    let s = sign + t;
    assert(seq!['+'][0] == '+' && seq!['-'][0] == '-');
    if sign.len() == 0 {
        assert(s == t);
    } else {
        assert(s[0] == sign[0]);
        assert(s.skip(1) == t);
    }
    assert(unsigned_part(s) == t);
    assert(text::ascii_lower(t[0]) == t[0]);
    assert(!text::eq_ignore_case(t, seq!['i', 'n', 'f'])) by {
        assert(text::ascii_lower(seq!['i', 'n', 'f'][0]) == 'i');
    }
    assert(!text::eq_ignore_case(t, seq!['i', 'n', 'f', 'i', 'n', 'i', 't', 'y'])) by {
        assert(text::ascii_lower(seq!['i', 'n', 'f', 'i', 'n', 'i', 't', 'y'][0]) == 'i');
    }
    assert(!text::eq_ignore_case(t, seq!['n', 'a', 'n'])) by {
        assert(text::ascii_lower(seq!['n', 'a', 'n'][0]) == 'n');
    }
}

/// The parts of a mantissa are found.
proof fn lemma_mantissa_read(
    whole: Seq<char>,
    fraction: Seq<char>,
    mantissa: Seq<char>,
    behind: Seq<char>,
)
    requires
        text::all_digits(whole),
        text::all_digits(fraction),
        mantissa == whole + seq!['.'] + fraction || (fraction.len() == 0 && mantissa == whole),
        behind.len() > 0 ==> behind[0] == 'e' || behind[0] == 'E',
    ensures
        ({
            let t = mantissa + behind;
            let p = text::find_char(mantissa, '.');
            &&& exponent_mark(t) == mantissa.len()
            &&& t.take(mantissa.len() as int) == mantissa
            &&& p == whole.len()
            &&& mantissa.take(p) == whole
            &&& p < mantissa.len() ==> mantissa.skip(p + 1) == fraction
            &&& p >= mantissa.len() ==> fraction == Seq::<char>::empty()
        }),
{
    let t = mantissa + behind;
    let n = mantissa.len() as int;
    let w = whole.len() as int;
    assert forall|i: int| 0 <= i < n implies t[i] != 'e' && t[i] != 'E' by {
        assert(t[i] == mantissa[i]);
        if i < w {
            assert(text::is_digit(whole[i]));
        } else if i > w {
            assert(text::is_digit(fraction[i - w - 1]));
        }
    }
    if behind.len() > 0 {
        assert(t[n] == behind[0]);
    }
    lemma_exponent_mark(t, n);
    assert(t.take(n) == mantissa);
    assert forall|i: int| 0 <= i < w implies mantissa[i] != '.' by {
        assert(text::is_digit(whole[i]));
    }
    if w < n {
        assert(mantissa[w] == '.');
        assert(mantissa.skip(w + 1) == fraction);
    }
    text::lemma_find_char(mantissa, '.', w);
    assert(mantissa.take(w) == whole);
    if w >= n {
        assert(fraction == Seq::<char>::empty());
    }
}

/// The words for infinity and for no number are read in any case.
pub proof fn special_numbers_are_read(sign: Seq<char>, word: Seq<char>)
    requires
        sign == Seq::<char>::empty() || sign == seq!['+'] || sign == seq!['-'],
    ensures
        text::eq_ignore_case(word, seq!['i', 'n', 'f']) || text::eq_ignore_case(
            word,
            seq!['i', 'n', 'f', 'i', 'n', 'i', 't', 'y'],
        ) ==> number(sign + word) == Some(Number::Infinite { negative: sign == seq!['-'] }),
        text::eq_ignore_case(word, seq!['n', 'a', 'n']) ==> number(sign + word) == Some(
            Number::NotANumber,
        ),
{
    let s = sign + word;
    assert(seq!['+'][0] == '+' && seq!['-'][0] == '-');
    let inf = seq!['i', 'n', 'f'];
    let infinity = seq!['i', 'n', 'f', 'i', 'n', 'i', 't', 'y'];
    let nan = seq!['n', 'a', 'n'];
    assert(text::ascii_lower(inf[0]) == 'i' && text::ascii_lower(infinity[0]) == 'i'
        && text::ascii_lower(nan[0]) == 'n');
    if text::eq_ignore_case(word, inf) || text::eq_ignore_case(word, infinity)
        || text::eq_ignore_case(word, nan) {
        assert(text::ascii_lower(word[0]) == 'i' || text::ascii_lower(word[0]) == 'n');
        if sign.len() == 0 {
            assert(s == word);
        } else {
            assert(s[0] == sign[0]);
            assert(s.skip(1) == word);
        }
        assert(unsigned_part(s) == word);
    }
}

/// A text that is none of these words and holds anything but digits, signs, points and the
/// marks of an exponent is no number, and neither is the empty one.
pub proof fn other_texts_are_no_numbers(s: Seq<char>, i: int)
    requires
        s.len() == 0 || (0 <= i < s.len() && !('0' <= s[i] <= '9') && s[i] != '.' && s[i] != '+'
            && s[i] != '-' && s[i] != 'e' && s[i] != 'E'),
        forall|word: Seq<char>|
            #![trigger word.len()]
            (word == s || (s.len() > 0 && word == s.skip(1))) ==> !text::eq_ignore_case(
                word,
                seq!['i', 'n', 'f'],
            ) && !text::eq_ignore_case(word, seq!['i', 'n', 'f', 'i', 'n', 'i', 't', 'y'])
                && !text::eq_ignore_case(word, seq!['n', 'a', 'n']),
    ensures
        number(s) is None,
{
    let t = unsigned_part(s);
    assert(t.len() <= s.len());
    if number(s) is Some {
        let e = exponent_mark(t);
        lemma_exponent_mark_bounds(t);
        let mantissa = t.take(e);
        let p = text::find_char(mantissa, '.');
        lemma_find_char_bounds(mantissa, '.');
        let k = if t.len() < s.len() {
            i - 1
        } else {
            i
        };
        if s.len() == 0 {
            assert(t.len() == 0);
            assert(mantissa.len() == 0);
        } else {
            assert(0 <= k < t.len() && t[k] == s[i]);
            if k < p {
                assert(text::is_digit(mantissa.take(p)[k]));
            } else if k < e && k > p {
                assert(text::is_digit(mantissa.skip(p + 1)[k - p - 1]));
            } else if k > e {
                let x = t.skip(e + 1);
                let d = unsigned_part(x);
                assert(x[k - e - 1] == t[k]);
                if d.len() < x.len() {
                    assert(k - e - 1 > 0);
                    assert(text::is_digit(d[k - e - 2]));
                } else {
                    assert(text::is_digit(d[k - e - 1]));
                }
            }
        }
    }
}

proof fn lemma_exponent_mark_bounds(s: Seq<char>)
    ensures
        0 <= exponent_mark(s) <= s.len(),
        exponent_mark(s) < s.len() ==> s[exponent_mark(s)] == 'e' || s[exponent_mark(s)] == 'E',
    decreases s.len(),
{
    if s.len() > 0 && s[0] != 'e' && s[0] != 'E' {
        lemma_exponent_mark_bounds(s.skip(1));
    }
}

proof fn lemma_find_char_bounds(s: Seq<char>, c: char)
    ensures
        0 <= text::find_char(s, c) <= s.len(),
        text::find_char(s, c) < s.len() ==> s[text::find_char(s, c)] == c,
    decreases s.len(),
{
    if s.len() > 0 && s[0] != c {
        lemma_find_char_bounds(s.skip(1), c);
    }
}

/// Rounding goes to the nearest multiple, and to an even one where two are as near.
pub proof fn rounding_is_to_the_nearest(a: nat, b: nat, m: nat)
    requires
        b > 0,
    ensures
        ({
            let q = half_even(a, b);
            let off = if q * b >= a {
                q * b - a
            } else {
                a - q * b
            };
            let other = if m * b >= a {
                m * b - a
            } else {
                a - m * b
            };
            &&& 2 * off <= b
            &&& off <= other
            &&& m != q && other == off ==> q % 2 == 0
        }),
{
    let q = half_even(a, b);
    let f = a / b;
    let r = a % b;
    assert(a == f * b + r && 0 <= r < b) by (nonlinear_arith)
        requires
            b > 0,
            f == a / b,
            r == a % b,
    ;
    assert((f + 1) * b == f * b + b) by (nonlinear_arith);
    if m < f {
        assert(m * b <= f * b - b) by (nonlinear_arith)
            requires
                m + 1 <= f,
                b > 0,
        ;
    } else if m > f + 1 {
        assert(m * b >= f * b + 2 * b) by (nonlinear_arith)
            requires
                m >= f + 2,
                b > 0,
        ;
    }
}

/// What the digits before and behind the point amount to.
proof fn lemma_placed_digits(digits: Seq<char>, point: int)
    ensures
        ({
            let all = whole_digits(digits, point) + fraction_digits(digits, point);
            let den = ten_to(fraction_digits(digits, point).len());
            if point >= digits.len() {
                text::digits_value(all) == text::digits_value(digits) * ten_to(
                    (point - digits.len()) as nat,
                ) && den == 1
            } else {
                text::digits_value(all) == text::digits_value(digits) && den == ten_to(
                    (digits.len() - point) as nat,
                )
            }
        }),
{
    let whole = whole_digits(digits, point);
    let fraction = fraction_digits(digits, point);
    assert(ten_to(0) == 1);
    if point > digits.len() {
        let zeros = Seq::new((point - digits.len()) as nat, |i: int| '0');
        lemma_zeros_value(zeros);
        lemma_digits_value_concat(digits, zeros);
        assert(whole + fraction == digits + zeros);
    } else if point > 0 {
        assert(whole + fraction == digits);
        if point == digits.len() {
            assert(text::digits_value(digits) * 1 == text::digits_value(digits));
        }
    } else {
        let zeros = Seq::new((-point) as nat, |i: int| '0');
        lemma_zeros_value(zeros);
        lemma_digits_value_concat(zeros, digits);
        assert(0 * ten_to(digits.len()) == 0);
        assert(whole + fraction == zeros + digits);
        if digits.len() == 0 && point == 0 {
            assert(fraction.len() == 0);
        }
    }
}

/// Rounding to 53 bits changes a value by at most one part in two to the power 53.
proof fn lemma_rounding_is_close(num: nat, den: nat, unit: nat)
    requires
        num > 0,
        den > 0,
        num < 0x1_0000_0000_0000_0000 * den,
    ensures
        ({
            let r = rounded_product(num, den, unit);
            &&& r * den * 0x20_0000_0000_0000 <= num * unit * 0x20_0000_0000_0001
            &&& unit > 0 ==> (r + 1) * den * 0x20_0000_0000_0000 > num * unit
                * 0x1f_ffff_ffff_ffff
        }),
{
    assert(two_to(0) == 1);
    lemma_shift_exists(num, den, 0);
    let t = choose|t: nat| leading_bit(num, den, t);
    let p = two_to(t);
    lemma_powers_positive(t);
    let a = num * p;
    let b = den * 2048;
    let q = half_even(a, b);
    let x = q * 2048 * unit;
    let r = x / p;
    assert(r == rounded_product(num, den, unit));
    rounding_is_to_the_nearest(a, b, 0);
    let c = q * b;
    // The multiple that was chosen is close to the value.
    assert(c * 0x20_0000_0000_0000 <= a * 0x20_0000_0000_0001);
    assert(c * 0x20_0000_0000_0000 >= a * 0x1f_ffff_ffff_ffff);
    assert(r * p <= x < (r + 1) * p) by (nonlinear_arith)
        requires
            r == x / p,
            p >= 1,
    ;
    // Both sides are multiplied by the power of two that was taken in.
    let big = 0x20_0000_0000_0000nat;
    assert(x * den == c * unit) by (nonlinear_arith)
        requires
            x == q * 2048 * unit,
            c == q * b,
            b == den * 2048,
    ;
    assert((r * den * big) * p <= (c * unit) * big) by (nonlinear_arith)
        requires
            r * p <= x,
            x * den == c * unit,
    ;
    assert((c * unit) * big <= (a * (big + 1)) * unit) by (nonlinear_arith)
        requires
            c * big <= a * (big + 1),
    ;
    assert((a * (big + 1)) * unit == (num * unit * (big + 1)) * p) by (nonlinear_arith)
        requires
            a == num * p,
    ;
    assert(r * den * big <= num * unit * (big + 1)) by (nonlinear_arith)
        requires
            (r * den * big) * p <= (num * unit * (big + 1)) * p,
            p >= 1,
    ;
    if unit > 0 {
        assert(((r + 1) * den * big) * p > (c * unit) * big) by (nonlinear_arith)
            requires
                (r + 1) * p > x,
                x * den == c * unit,
                den > 0,
                big > 0,
        ;
        assert((c * unit) * big >= (a * (big - 1)) * unit) by (nonlinear_arith)
            requires
                c * big >= a * (big - 1),
        ;
        assert((a * (big - 1)) * unit == (num * unit * (big - 1)) * p) by (nonlinear_arith)
            requires
                a == num * p,
        ;
        assert((r + 1) * den * big > num * unit * (big - 1)) by (nonlinear_arith)
            requires
                ((r + 1) * den * big) * p > (num * unit * (big - 1)) * p,
                p >= 1,
        ;
    }
}

/// A number of units amounts to that many bytes, up to the largest 64-bit number. The error is
/// at most one part in two to the power 53, besides what is cut to an integer. A number below
/// zero counts as zero, and so does what is no number.
pub proof fn limits_are_close(digits: Seq<char>, point: int, unit: nat)
    requires
        unit > 0,
    ensures
        ({
            let r = bytes_of(Number::Finite { negative: false, digits, point }, unit);
            let n = digits.len() as int;
            let num = text::digits_value(digits) * ten_to(
                if point >= n {
                    (point - n) as nat
                } else {
                    0
                },
            );
            let den = ten_to(
                if point >= n {
                    0
                } else {
                    (n - point) as nat
                },
            );
            &&& r * den * 0x20_0000_0000_0000 <= num * unit * 0x20_0000_0000_0001
            &&& r < u64::MAX ==> (r + 1) * den * 0x20_0000_0000_0000 > num * unit
                * 0x1f_ffff_ffff_ffff
        }),
        bytes_of(Number::Finite { negative: true, digits, point }, unit) == 0,
        bytes_of(Number::Infinite { negative: false }, unit) == u64::MAX,
        bytes_of(Number::Infinite { negative: true }, unit) == 0,
        bytes_of(Number::NotANumber, unit) == 0,
{
    let n = digits.len() as int;
    assert(ten_to(0) == 1);
    lemma_placed_digits(digits, point);
    let whole = whole_digits(digits, point);
    let fraction = fraction_digits(digits, point);
    let num = text::digits_value(whole + fraction);
    let den = ten_to(fraction.len());
    lemma_powers_positive(fraction.len());
    let r = bytes_of(Number::Finite { negative: false, digits, point }, unit);
    assert(r == saturated_product(num, den, unit));
    assert(text::digits_value(digits) * 1 == text::digits_value(digits));
    let big = 0x20_0000_0000_0000nat;
    if num == 0 {
        assert(0 * den * big == 0);
        assert(0 * unit * (big + 1) == 0);
        assert(0 * unit * (big - 1) == 0);
        assert(1 * den * big > 0);
    } else if num >= 0x1_0000_0000_0000_0000 * den {
        assert(u64::MAX * den * big <= num * unit * (big + 1)) by (nonlinear_arith)
            requires
                num >= 0x1_0000_0000_0000_0000 * den,
                unit >= 1,
                big == 0x20_0000_0000_0000nat,
        ;
    } else {
        lemma_rounding_is_close(num, den, unit);
        let x = rounded_product(num, den, unit);
        if x > u64::MAX {
            assert(u64::MAX * den * big <= x * den * big) by (nonlinear_arith)
                requires
                    u64::MAX <= x,
            ;
        }
    }
}

/// A limit is a number and a unit. White space around either of them is ignored.
pub proof fn limits_have_a_number_and_a_unit(
    a: Seq<char>,
    num: Seq<char>,
    b: Seq<char>,
    suffix: Seq<char>,
    c: Seq<char>,
)
    requires
        forall|i: int| 0 <= i < a.len() ==> text::is_space(#[trigger] a[i]),
        forall|i: int| 0 <= i < b.len() ==> text::is_space(#[trigger] b[i]),
        forall|i: int| 0 <= i < c.len() ==> text::is_space(#[trigger] c[i]),
        num.len() > 0,
        !text::is_space(num[0]),
        !text::is_space(num.last()),
        suffix == seq!['M', 'B'] || suffix == seq!['K', 'B'] || (suffix == seq!['B'] && (b.len() > 0
            || (num.last() != 'M' && num.last() != 'K'))),
    ensures
        ({
            let unit = if suffix == seq!['M', 'B'] {
                0x10_0000nat
            } else if suffix == seq!['K', 'B'] {
                1024nat
            } else {
                1nat
            };
            rate_of(a + (num + b + suffix) + c) == match number(num) {
                Some(n) => Ok::<u64, RateErrorView>(bytes_of(n, unit)),
                None => Err(RateErrorView::InvalidNumber(num + b, NumberError::Invalid)),
            }
        }),
{
    let s = num + b + suffix;
    let front = num + b;
    assert(suffix.len() > 0);
    assert(suffix.last() == 'B');
    assert(s[0] == num[0]);
    assert(s.last() == 'B');
    text::only_white_space_is_cut(a, s, c);
    text::only_white_space_is_cut(Seq::empty(), num, b);
    assert(Seq::<char>::empty() + num + b == front);
    let n = front.len() as int;
    assert(s.take(n) == front);
    assert(s.subrange(n, s.len() as int) == suffix);
    lemma_unit_found(front, suffix);
}

proof fn lemma_unit_found(front: Seq<char>, suffix: Seq<char>)
    requires
        suffix == seq!['M', 'B'] || suffix == seq!['K', 'B'] || (suffix == seq!['B'] && (front.len()
            == 0 || (front.last() != 'M' && front.last() != 'K'))),
    ensures
        unit_of(front + suffix) == Some(
            (
                suffix.len() as int,
                if suffix == seq!['M', 'B'] {
                    0x10_0000nat
                } else if suffix == seq!['K', 'B'] {
                    1024nat
                } else {
                    1nat
                },
            ),
        ),
{
    let s = front + suffix;
    let m = s.len() as int;
    let mb = seq!['M', 'B'];
    let kb = seq!['K', 'B'];
    let last = seq!['B'];
    assert(mb[0] == 'M' && kb[0] == 'K' && last[0] == 'B');
    assert(s.subrange(m - suffix.len(), m) == suffix);
    if suffix == mb {
        assert(mb.is_suffix_of(s));
    } else if suffix == kb {
        assert(s[m - 2] == 'K');
        assert(kb.is_suffix_of(s));
        if mb.is_suffix_of(s) {
            assert(s.subrange(m - 2, m)[0] == s[m - 2]);
        }
    } else {
        assert(last.len() == 1);
        assert(last.is_suffix_of(s));
        if front.len() > 0 {
            assert(s[m - 2] == front.last());
        }
        if mb.is_suffix_of(s) {
            assert(s.subrange(m - 2, m)[0] == s[m - 2]);
        }
        if kb.is_suffix_of(s) {
            assert(s.subrange(m - 2, m)[0] == s[m - 2]);
        }
    }
}

/// A limit of white space alone is none: zero. One that does not end in a unit is refused, and
/// so is a unit without a number.
pub proof fn other_limits_are_refused(a: Seq<char>, s: Seq<char>, c: Seq<char>)
    requires
        forall|i: int| 0 <= i < a.len() ==> text::is_space(#[trigger] a[i]),
        forall|i: int| 0 <= i < c.len() ==> text::is_space(#[trigger] c[i]),
        s.len() > 0,
        !text::is_space(s[0]),
        !text::is_space(s.last()),
    ensures
        rate_of(a) == Ok::<u64, RateErrorView>(0),
        s.last() != 'B' ==> rate_of(a + s + c) == Err::<u64, _>(RateErrorView::InvalidUnit),
        s == seq!['M', 'B'] || s == seq!['K', 'B'] || s == seq!['B'] ==> rate_of(a + s + c) == Err::<
            u64,
            _,
        >(RateErrorView::InvalidNumber(Seq::empty(), NumberError::Empty)),
{
    let none = Seq::<char>::empty();
    text::only_white_space_is_cut(a, none, none);
    assert(a + none + none == a);
    text::only_white_space_is_cut(a, s, c);
    let m = s.len() as int;
    assert(seq!['M', 'B'][1] == 'B' && seq!['K', 'B'][1] == 'B' && seq!['B'][0] == 'B');
    if s.last() != 'B' {
        if seq!['M', 'B'].is_suffix_of(s) {
            assert(s.subrange(m - 2, m)[1] == s[m - 1]);
        }
        if seq!['K', 'B'].is_suffix_of(s) {
            assert(s.subrange(m - 2, m)[1] == s[m - 1]);
        }
        if seq!['B'].is_suffix_of(s) {
            assert(s.subrange(m - 1, m)[0] == s[m - 1]);
        }
    } else if s == seq!['M', 'B'] || s == seq!['K', 'B'] || s == seq!['B'] {
        lemma_unit_found(none, s);
        assert(none + s == s);
        assert(s.take(0) == none);
        text::only_white_space_is_cut(none, none, none);
        assert(none + none + none == none);
        assert(!text::eq_ignore_case(none, seq!['i', 'n', 'f']));
        assert(!text::eq_ignore_case(none, seq!['i', 'n', 'f', 'i', 'n', 'i', 't', 'y']));
        assert(!text::eq_ignore_case(none, seq!['n', 'a', 'n']));
        assert(none.take(0) == none);
        lemma_exponent_mark(none, 0);
        text::lemma_find_char(none, '.', 0);
        assert(number(none) is None);
    }
}

/// A number of units is rounded to the nearest number of 53 bits, where its leading bit is one of
/// the 64 bits before a point that is moved `t` bits, then taken times the unit and cut to an
/// integer.
pub proof fn limits_have_53_bits(digits: Seq<char>, point: int, unit: nat, t: nat)
    requires
        ({
            let n = digits.len() as int;
            let num = text::digits_value(digits) * ten_to(
                if point >= n {
                    (point - n) as nat
                } else {
                    0
                },
            );
            let den = ten_to(
                if point >= n {
                    0
                } else {
                    (n - point) as nat
                },
            );
            &&& 0x8000_0000_0000_0000 * den <= num * two_to(t)
            &&& num * two_to(t) < 0x1_0000_0000_0000_0000 * den
        }),
        unit > 0,
    ensures
        ({
            let r = bytes_of(Number::Finite { negative: false, digits, point }, unit);
            let n = digits.len() as int;
            let num = text::digits_value(digits) * ten_to(
                if point >= n {
                    (point - n) as nat
                } else {
                    0
                },
            );
            let den = ten_to(
                if point >= n {
                    0
                } else {
                    (n - point) as nat
                },
            );
            let exact = half_even(num * two_to(t), den * 2048) * 2048 * unit;
            &&& r * two_to(t) <= exact
            &&& r < u64::MAX ==> exact < (r + 1) * two_to(t)
        }),
        two_to(0) == 1,
        two_to(t + 1) == 2 * two_to(t),
{
    assert(ten_to(0) == 1);
    lemma_placed_digits(digits, point);
    let whole = whole_digits(digits, point);
    let fraction = fraction_digits(digits, point);
    let num = text::digits_value(whole + fraction);
    let den = ten_to(fraction.len());
    assert(text::digits_value(digits) * 1 == text::digits_value(digits));
    lemma_powers_positive(fraction.len());
    lemma_powers_positive(t);
    assert(leading_bit(num, den, t));
    let u = choose|u: nat| leading_bit(num, den, u);
    lemma_shift_unique(num, den, t, u);
    let p = two_to(t);
    let exact = half_even(num * p, den * 2048) * 2048 * unit;
    let x = exact / p;
    assert(x == rounded_product(num, den, unit));
    assert(x * p <= exact < (x + 1) * p) by (nonlinear_arith)
        requires
            x == exact / p,
            p >= 1,
    ;
    assert(num > 0) by {
        if num == 0 {
            assert(0 * p == 0);
        }
    }
    assert(num < 0x1_0000_0000_0000_0000 * den) by {
        assert(num <= num * p) by (nonlinear_arith)
            requires
                p >= 1,
        ;
    }
    if x > u64::MAX {
        assert(u64::MAX * p <= x * p) by (nonlinear_arith)
            requires
                u64::MAX <= x,
        ;
    }
}

} // verus!
