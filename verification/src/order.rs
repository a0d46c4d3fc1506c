//! Decimals as the numbers that they denote.
//!
//! [`Decimal::lt`] is decided on the digits, and [`Decimal::normalize`] works
//! on them. Here both are related to arithmetic: scaled by a common power of
//! ten, two canonical decimals become integers, and the decimals are ordered
//! as those integers are; to normalize a decimal keeps its value.

use crate::number::{is_numeral, lemma_numeral_bounds, lemma_pow10_monotonic, lemma_pow10_positive,
    lemma_pow10_split, numeral_lt, numeral_of, numeral_value, pow10, strip_leading_zeros,
    strip_trailing_zeros, Decimal};
use vstd::prelude::*;

verus! {

/// `n` zero digits.
pub open spec fn zeros(n: nat) -> Seq<u8> {
    Seq::new(n, |i: int| 0u8)
}

/// The numeral `digits` with zeros after it, up to `n` digits.
pub open spec fn padded(digits: Seq<u8>, n: nat) -> Seq<u8> {
    digits + zeros((n - digits.len()) as nat)
}

/// A numeral that is empty or ends with a digit that is not zero.
pub open spec fn ends_nonzero(digits: Seq<u8>) -> bool {
    digits.len() > 0 ==> digits.last() != 0
}

impl Decimal {
    /// The smaller of the powers of ten of two decimals.
    pub open spec fn common_exponent(self, other: Decimal) -> int {
        if self.exponent <= other.exponent {
            self.exponent
        } else {
            other.exponent
        }
    }

    /// The absolute value of the decimal, in units of `10^base`, for a base
    /// that is at most the exponent.
    pub open spec fn magnitude(self, base: int) -> nat {
        numeral_value(self.digits) * pow10((self.exponent - base) as nat)
    }

    /// The value of the decimal, in units of `10^base`.
    pub open spec fn scaled(self, base: int) -> int {
        if self.negative {
            -(self.magnitude(base) as int)
        } else {
            self.magnitude(base) as int
        }
    }
}

/// Zeros after a numeral multiply its value by a power of ten.
proof fn lemma_value_padded(digits: Seq<u8>, k: nat)
    ensures
        numeral_value(digits + zeros(k)) == numeral_value(digits) * pow10(k),
    decreases k,
{
    if k == 0 {
        assert(digits + zeros(0) =~= digits);
        assert(numeral_value(digits) * 1 == numeral_value(digits));
    } else {
        lemma_value_padded(digits, (k - 1) as nat);
        let all = digits + zeros(k);
        assert(all.drop_last() =~= digits + zeros((k - 1) as nat));
        assert(all.last() == 0);
        let v = numeral_value(digits);
        let p = pow10((k - 1) as nat);
        assert(numeral_value(all) == (v * p) * 10);
        assert((v * p) * 10 == v * (10 * p)) by (nonlinear_arith);
    }
}

/// The value of a numeral, taken from its first digit.
proof fn lemma_value_from_front(digits: Seq<u8>)
    requires
        digits.len() > 0,
    ensures
        numeral_value(digits) == digits[0] * pow10((digits.len() - 1) as nat) + numeral_value(
            digits.drop_first(),
        ),
    decreases digits.len(),
{
    let n = digits.len();
    if n == 1 {
        assert(digits.drop_last() =~= Seq::<u8>::empty());
        assert(digits.drop_first() =~= Seq::<u8>::empty());
        assert(numeral_value(Seq::<u8>::empty()) == 0);
        assert(numeral_value(digits) == 0 * 10 + digits.last());
        assert(pow10(0) == 1);
        assert(digits[0] * 1 == digits[0] as int);
    } else {
        let init = digits.drop_last();
        lemma_value_from_front(init);
        assert(init[0] == digits[0]);
        assert(init.drop_first() =~= digits.drop_first().drop_last());
        assert(digits.drop_first().last() == digits.last());
        let d = digits[0] as int;
        let p = pow10((n - 2) as nat);
        let rest = numeral_value(init.drop_first());
        assert(pow10((n - 1) as nat) == 10 * p);
        assert(numeral_value(digits) == (d * p + rest) * 10 + digits.last());
        assert(numeral_value(digits.drop_first()) == rest * 10 + digits.last());
        assert((d * p + rest) * 10 == d * (10 * p) + rest * 10) by (nonlinear_arith);
    }
}

/// Numerals of one length are ordered as their values are.
proof fn lemma_order_of_equal_lengths(x: Seq<u8>, y: Seq<u8>)
    requires
        x.len() == y.len(),
        is_numeral(x),
        is_numeral(y),
    ensures
        numeral_lt(x, y) <==> numeral_value(x) < numeral_value(y),
        x == y <==> numeral_value(x) == numeral_value(y),
    decreases x.len(),
{
    if x.len() == 0 {
        assert(x =~= y);
    } else {
        let n = x.len();
        lemma_value_from_front(x);
        lemma_value_from_front(y);
        let (rx, ry) = (x.drop_first(), y.drop_first());
        lemma_order_of_equal_lengths(rx, ry);
        lemma_numeral_bounds(rx);
        lemma_numeral_bounds(ry);
        let p = pow10((n - 1) as nat);
        let (a, b) = (x[0] as int, y[0] as int);
        if a < b {
            assert(a * p + p <= b * p) by (nonlinear_arith)
                requires
                    a + 1 <= b,
                    p >= 0,
            ;
        } else if a > b {
            assert(b * p + p <= a * p) by (nonlinear_arith)
                requires
                    b + 1 <= a,
                    p >= 0,
            ;
        } else {
            if rx == ry {
                assert(x[0] == y[0]);
                assert(x =~= seq![x[0]] + rx);
                assert(y =~= seq![y[0]] + ry);
            }
        }
    }
}

/// No numeral comes before the zeros of its length.
proof fn lemma_nothing_before_zeros(x: Seq<u8>)
    ensures
        !numeral_lt(x, zeros(x.len())),
    decreases x.len(),
{
    if x.len() > 0 {
        lemma_nothing_before_zeros(x.drop_first());
        assert(zeros(x.len()).drop_first() =~= zeros((x.len() - 1) as nat));
    }
}

/// The zeros come before every numeral of their length that ends with
/// another digit.
proof fn lemma_zeros_before(y: Seq<u8>)
    requires
        y.len() > 0,
        y.last() != 0,
    ensures
        numeral_lt(zeros(y.len()), y),
    decreases y.len(),
{
    if y[0] == 0 {
        assert(y.len() > 1);
        assert(y.drop_first().last() == y.last());
        lemma_zeros_before(y.drop_first());
        assert(zeros(y.len()).drop_first() =~= zeros((y.len() - 1) as nat));
    }
}

/// Zeros after the shorter of two numerals, neither of which ends with a
/// zero, do not change their order.
proof fn lemma_order_padded(x: Seq<u8>, y: Seq<u8>, n: nat)
    requires
        ends_nonzero(x),
        ends_nonzero(y),
        x.len() <= n,
        y.len() <= n,
        x.len() == n || y.len() == n,
    ensures
        numeral_lt(x, y) <==> numeral_lt(padded(x, n), padded(y, n)),
        x == y <==> padded(x, n) == padded(y, n),
    decreases n,
{
    let (px, py) = (padded(x, n), padded(y, n));
    if x.len() == 0 {
        assert(px =~= zeros(n));
        if y.len() > 0 {
            assert(py =~= y);
            lemma_zeros_before(y);
            assert(px[n - 1] == 0);
        } else {
            assert(x =~= y);
        }
    } else if y.len() == 0 {
        assert(py =~= zeros(n));
        assert(px =~= x);
        lemma_nothing_before_zeros(x);
        assert(py[n - 1] == 0);
    } else {
        assert(px[0] == x[0] && py[0] == y[0]);
        if x[0] == y[0] {
            let (rx, ry) = (x.drop_first(), y.drop_first());
            if rx.len() > 0 {
                assert(rx.last() == x.last());
            }
            if ry.len() > 0 {
                assert(ry.last() == y.last());
            }
            lemma_order_padded(rx, ry, (n - 1) as nat);
            assert(px.drop_first() =~= padded(rx, (n - 1) as nat));
            assert(py.drop_first() =~= padded(ry, (n - 1) as nat));
            if rx == ry {
                assert(x =~= seq![x[0]] + rx);
                assert(y =~= seq![y[0]] + ry);
            }
            if px == py {
                assert(px.drop_first() == py.drop_first());
            }
        }
    }
}

/// The magnitudes of two canonical decimals that are not zero are ordered as
/// [`Decimal::magnitude_lt`] says, and are equal only for equal digits and
/// exponents.
proof fn lemma_magnitude_order(a: Decimal, b: Decimal)
    requires
        a.wf(),
        b.wf(),
        !a.is_zero(),
        !b.is_zero(),
    ensures
        a.magnitude_lt(b) <==> a.magnitude(a.common_exponent(b)) < b.magnitude(
            a.common_exponent(b),
        ),
        (a.digits == b.digits && a.exponent == b.exponent) <==> a.magnitude(a.common_exponent(b))
            == b.magnitude(a.common_exponent(b)),
{
    let base = a.common_exponent(b);
    let (sa, sb) = ((a.exponent - base) as nat, (b.exponent - base) as nat);
    let (la, lb) = (a.digits.len(), b.digits.len());
    let (va, vb) = (numeral_value(a.digits), numeral_value(b.digits));
    let (ma, mb) = (a.magnitude(base), b.magnitude(base));
    lemma_numeral_bounds(a.digits);
    lemma_numeral_bounds(b.digits);
    lemma_pow10_positive(sa);
    lemma_pow10_positive(sb);
    // 10^(top - base - 1) <= magnitude < 10^(top - base)
    lemma_pow10_split(la, sa);
    lemma_pow10_split((la - 1) as nat, sa);
    lemma_pow10_split(lb, sb);
    lemma_pow10_split((lb - 1) as nat, sb);
    assert(pow10((la - 1) as nat) * pow10(sa) <= ma < pow10(la) * pow10(sa)) by (nonlinear_arith)
        requires
            pow10((la - 1) as nat) <= va < pow10(la),
            pow10(sa) > 0,
            ma == va * pow10(sa),
    ;
    assert(pow10((lb - 1) as nat) * pow10(sb) <= mb < pow10(lb) * pow10(sb)) by (nonlinear_arith)
        requires
            pow10((lb - 1) as nat) <= vb < pow10(lb),
            pow10(sb) > 0,
            mb == vb * pow10(sb),
    ;
    if a.top() < b.top() {
        lemma_pow10_monotonic(la + sa, (lb - 1 + sb) as nat);
    } else if a.top() > b.top() {
        lemma_pow10_monotonic(lb + sb, (la - 1 + sa) as nat);
    } else {
        let n = if la >= lb { la } else { lb };
        assert(sa == n - la && sb == n - lb);
        lemma_value_padded(a.digits, sa);
        lemma_value_padded(b.digits, sb);
        let (pa, pb) = (padded(a.digits, n), padded(b.digits, n));
        assert(numeral_value(pa) == ma);
        assert(numeral_value(pb) == mb);
        assert(is_numeral(pa));
        assert(is_numeral(pb));
        lemma_order_of_equal_lengths(pa, pb);
        lemma_order_padded(a.digits, b.digits, n);
        if a.digits == b.digits {
            assert(a.exponent == b.exponent);
        }
    }
}

/// The order of canonical decimals is the order of their values, and equal
/// values have one representation: scaled by the smaller of their powers of
/// ten, `a` and `b` are integers, and `a` comes before `b`, or equals it,
/// exactly when those integers do.
pub proof fn law_order_is_numeric(a: Decimal, b: Decimal)
    requires
        a.wf(),
        b.wf(),
    ensures
        a.lt(b) <==> a.scaled(a.common_exponent(b)) < b.scaled(a.common_exponent(b)),
        a == b <==> a.scaled(a.common_exponent(b)) == b.scaled(a.common_exponent(b)),
{
    let base = a.common_exponent(b);
    lemma_pow10_positive((a.exponent - base) as nat);
    lemma_pow10_positive((b.exponent - base) as nat);
    lemma_numeral_bounds(a.digits);
    lemma_numeral_bounds(b.digits);
    let (ma, mb) = (a.magnitude(base), b.magnitude(base));
    if a.is_zero() {
        assert(numeral_value(a.digits) == 0);
        assert(ma == 0) by (nonlinear_arith)
            requires
                ma == 0 * pow10((a.exponent - base) as nat),
        ;
    } else {
        assert(ma > 0) by (nonlinear_arith)
            requires
                ma == numeral_value(a.digits) * pow10((a.exponent - base) as nat),
                numeral_value(a.digits) > 0,
                pow10((a.exponent - base) as nat) > 0,
        ;
    }
    if b.is_zero() {
        assert(numeral_value(b.digits) == 0);
        assert(mb == 0) by (nonlinear_arith)
            requires
                mb == 0 * pow10((b.exponent - base) as nat),
        ;
    } else {
        assert(mb > 0) by (nonlinear_arith)
            requires
                mb == numeral_value(b.digits) * pow10((b.exponent - base) as nat),
                numeral_value(b.digits) > 0,
                pow10((b.exponent - base) as nat) > 0,
        ;
    }
    if !a.is_zero() && !b.is_zero() {
        lemma_magnitude_order(a, b);
        lemma_magnitude_order(b, a);
        assert(b.common_exponent(a) == base);
    }
    if a.is_zero() && b.is_zero() {
        assert(a.digits =~= b.digits);
    }
}

/// Leading zeros do not count: stripped of them, a numeral has the same
/// value, and no leading zero.
proof fn lemma_strip_leading(digits: Seq<u8>)
    requires
        is_numeral(digits),
    ensures
        numeral_value(strip_leading_zeros(digits)) == numeral_value(digits),
        is_numeral(strip_leading_zeros(digits)),
        strip_leading_zeros(digits).len() > 0 ==> strip_leading_zeros(digits)[0] != 0,
    decreases digits.len(),
{
    if digits.len() > 0 && digits[0] == 0 {
        lemma_strip_leading(digits.drop_first());
        lemma_value_from_front(digits);
        assert(0 * pow10((digits.len() - 1) as nat) == 0);
    }
}

/// Each trailing zero counts for a factor of ten: stripped of them, a
/// numeral has its value divided by that power of ten, and no trailing zero.
proof fn lemma_strip_trailing(digits: Seq<u8>)
    requires
        is_numeral(digits),
    ensures
        numeral_value(digits) == numeral_value(strip_trailing_zeros(digits)) * pow10(
            (digits.len() - strip_trailing_zeros(digits).len()) as nat,
        ),
        strip_trailing_zeros(digits).len() <= digits.len(),
        is_numeral(strip_trailing_zeros(digits)),
        ends_nonzero(strip_trailing_zeros(digits)),
        strip_trailing_zeros(digits).len() > 0 ==> strip_trailing_zeros(digits)[0] == digits[0],
    decreases digits.len(),
{
    let body = strip_trailing_zeros(digits);
    if digits.len() > 0 && digits.last() == 0 {
        let init = digits.drop_last();
        lemma_strip_trailing(init);
        let v = numeral_value(body);
        let p = pow10((init.len() - body.len()) as nat);
        assert(numeral_value(digits) == (v * p) * 10);
        assert((v * p) * 10 == v * (10 * p)) by (nonlinear_arith);
    } else {
        assert(pow10(0) == 1);
        assert(numeral_value(digits) * 1 == numeral_value(digits));
    }
}

/// To normalize keeps the value: the result is canonical, and in units of
/// `10^exponent` it is the number that the digits denote, with the sign
/// given unless it is zero.
pub proof fn law_normalize_keeps_value(negative: bool, digits: Seq<u8>, exponent: int)
    requires
        is_numeral(digits),
    ensures
        Decimal::normalize(negative, digits, exponent).wf(),
        numeral_value(digits) != 0 ==> Decimal::normalize(negative, digits, exponent).exponent
            >= exponent,
        Decimal::normalize(negative, digits, exponent).magnitude(exponent) == numeral_value(
            digits,
        ),
        Decimal::normalize(negative, digits, exponent).negative == (negative && numeral_value(
            digits,
        ) != 0),
{
    let head = strip_leading_zeros(digits);
    let body = strip_trailing_zeros(head);
    let result = Decimal::normalize(negative, digits, exponent);
    lemma_strip_leading(digits);
    lemma_strip_trailing(head);
    lemma_numeral_bounds(body);
    lemma_pow10_positive((head.len() - body.len()) as nat);
    if body.len() == 0 {
        assert(numeral_value(body) == 0);
        assert(0 * pow10((head.len() - body.len()) as nat) == 0);
        assert(0 * pow10((0 - exponent) as nat) == 0);
    } else {
        lemma_pow10_positive((body.len() - 1) as nat);
        assert(numeral_value(digits) > 0) by (nonlinear_arith)
            requires
                numeral_value(digits) == numeral_value(body) * pow10(
                    (head.len() - body.len()) as nat,
                ),
                numeral_value(body) > 0,
                pow10((head.len() - body.len()) as nat) > 0,
        ;
    }
}

/// The numeral of a number denotes that number.
proof fn lemma_numeral_of(n: nat)
    ensures
        is_numeral(numeral_of(n)),
        numeral_value(numeral_of(n)) == n,
    decreases n,
{
    if n < 10 {
        let one = seq![n as u8];
        assert(one.drop_last() =~= Seq::<u8>::empty());
        assert(numeral_value(Seq::<u8>::empty()) == 0);
        assert(numeral_value(one) == 0 * 10 + one.last());
    } else {
        lemma_numeral_of(n / 10);
        let all = numeral_of(n);
        assert(all.drop_last() =~= numeral_of(n / 10));
        assert(all.last() == (n % 10) as u8);
    }
}

/// The decimal of a natural number is canonical and denotes that number.
pub proof fn law_decimal_of_nat(n: nat)
    ensures
        Decimal::from_nat(n).wf(),
        !Decimal::from_nat(n).negative,
        Decimal::from_nat(n).scaled(0) == n,
{
    lemma_numeral_of(n);
    law_normalize_keeps_value(false, numeral_of(n), 0);
}

} // verus!
