//! JSON numbers as exact decimals.
//!
//! A number is a sign, a sequence of decimal digits and a power of ten. It is
//! kept in canonical form (no leading or trailing zero digit, one
//! representation of zero), so two numbers are equal exactly when their
//! representations are, and the order is decided on the digits.
//!
//! Numbers are compared as the decimals that they are, without rounding: the
//! library holds no binary floating point. Doubles that are printed in their
//! shortest form keep their order as decimals, so numbers that come from
//! doubles compare as the doubles do.

use vstd::prelude::*;

verus! {

/// Mathematical model of a [`Number`]: `(-1)^negative * digits * 10^exponent`,
/// where `digits` is read as a decimal numeral, most significant digit first.
pub ghost struct Decimal {
    pub negative: bool,
    pub digits: Seq<u8>,
    pub exponent: int,
}

/// Largest integer that an index or a slice bound may hold: `2^53 - 1`.
pub const MAX_EXACT_INTEGER: i64 = 9007199254740991;

/// Bound on the power of ten of a numeral handed to [`Number::normalized`].
pub const MAX_INPUT_EXPONENT: i128 = 0x8000_0000_0000_0000_0000;

/// Bound on the power of ten that a [`Number`] holds.
pub const MAX_EXPONENT: i128 = 0x1_0000_0000_0000_0000_0000;

/// Every element of `digits` is a decimal digit.
pub open spec fn is_numeral(digits: Seq<u8>) -> bool {
    forall|i: int| 0 <= i < digits.len() ==> #[trigger] digits[i] <= 9
}

/// `10^n`.
pub open spec fn pow10(n: nat) -> nat
    decreases n,
{
    if n == 0 {
        1
    } else {
        10 * pow10((n - 1) as nat)
    }
}

/// The natural number that the numeral `digits` denotes.
pub open spec fn numeral_value(digits: Seq<u8>) -> nat
    decreases digits.len(),
{
    if digits.len() == 0 {
        0
    } else {
        numeral_value(digits.drop_last()) * 10 + digits.last() as nat
    }
}

/// The decimal numeral of `n`, without leading zeros (a single `0` for zero).
pub open spec fn numeral_of(n: nat) -> Seq<u8>
    decreases n,
{
    if n < 10 {
        seq![n as u8]
    } else {
        numeral_of(n / 10).push((n % 10) as u8)
    }
}

/// `digits` without its leading zeros.
pub open spec fn strip_leading_zeros(digits: Seq<u8>) -> Seq<u8>
    decreases digits.len(),
{
    if digits.len() > 0 && digits[0] == 0 {
        strip_leading_zeros(digits.drop_first())
    } else {
        digits
    }
}

/// `digits` without its trailing zeros.
pub open spec fn strip_trailing_zeros(digits: Seq<u8>) -> Seq<u8>
    decreases digits.len(),
{
    if digits.len() > 0 && digits.last() == 0 {
        strip_trailing_zeros(digits.drop_last())
    } else {
        digits
    }
}

/// Lexicographic order on numerals; a proper prefix comes first.
pub open spec fn numeral_lt(x: Seq<u8>, y: Seq<u8>) -> bool
    decreases x.len(),
{
    if y.len() == 0 {
        false
    } else if x.len() == 0 {
        true
    } else if x[0] != y[0] {
        x[0] < y[0]
    } else {
        numeral_lt(x.drop_first(), y.drop_first())
    }
}

/// The digits of `2^1024 - 2^970`, the least number that is too large for a
/// double: it lies halfway between the largest double and `2^1024`, and
/// from there on numbers round to infinity.
#[verifier::opaque]
pub open spec fn double_limit_digits() -> Seq<u8> {
    seq![
        1u8, 7, 9, 7, 6, 9, 3, 1, 3, 4, 8, 6, 2, 3, 1, 5, 8, 0, 7, 9, 3, 7, 2, 8, 9,
        7, 1, 4, 0, 5, 3, 0, 3, 4, 1, 5, 0, 7, 9, 9, 3, 4, 1, 3, 2, 7, 1, 0, 0, 3,
        7, 8, 2, 6, 9, 3, 6, 1, 7, 3, 7, 7, 8, 9, 8, 0, 4, 4, 4, 9, 6, 8, 2, 9, 2,
        7, 6, 4, 7, 5, 0, 9, 4, 6, 6, 4, 9, 0, 1, 7, 9, 7, 7, 5, 8, 7, 2, 0, 7, 0,
        9, 6, 3, 3, 0, 2, 8, 6, 4, 1, 6, 6, 9, 2, 8, 8, 7, 9, 1, 0, 9, 4, 6, 5, 5,
        5, 5, 4, 7, 8, 5, 1, 9, 4, 0, 4, 0, 2, 6, 3, 0, 6, 5, 7, 4, 8, 8, 6, 7, 1,
        5, 0, 5, 8, 2, 0, 6, 8, 1, 9, 0, 8, 9, 0, 2, 0, 0, 0, 7, 0, 8, 3, 8, 3, 6,
        7, 6, 2, 7, 3, 8, 5, 4, 8, 4, 5, 8, 1, 7, 7, 1, 1, 5, 3, 1, 7, 6, 4, 4, 7,
        5, 7, 3, 0, 2, 7, 0, 0, 6, 9, 8, 5, 5, 5, 7, 1, 3, 6, 6, 9, 5, 9, 6, 2, 2,
        8, 4, 2, 9, 1, 4, 8, 1, 9, 8, 6, 0, 8, 3, 4, 9, 3, 6, 4, 7, 5, 2, 9, 2, 7,
        1, 9, 0, 7, 4, 1, 6, 8, 4, 4, 4, 3, 6, 5, 5, 1, 0, 7, 0, 4, 3, 4, 2, 7, 1,
        1, 5, 5, 9, 6, 9, 9, 5, 0, 8, 0, 9, 3, 0, 4, 2, 8, 8, 0, 1, 7, 7, 9, 0, 4,
        1, 7, 4, 4, 9, 7, 7, 9, 2,
    ]
}

/// Number of digits of [`double_limit_digits`].
pub const DOUBLE_LIMIT_LENGTH: usize = 309;

/// The limit of doubles is a numeral of 309 digits that is in canonical form:
/// a number with more digits before its decimal point is too large for a
/// double, and one with fewer is not.
pub proof fn lemma_double_limit()
    ensures
        double_limit_digits().len() == DOUBLE_LIMIT_LENGTH,
        Decimal::double_limit().wf(),
        Decimal::double_limit().top() == DOUBLE_LIMIT_LENGTH,
{
    reveal(double_limit_digits);
}

impl Decimal {
    /// The least number that is too large for a double.
    pub open spec fn double_limit() -> Decimal {
        Decimal { negative: false, digits: double_limit_digits(), exponent: 0 }
    }

    /// Whether the absolute value of a canonical decimal is too large for a
    /// double: at least [`Decimal::double_limit`].
    pub open spec fn exceeds_double(self) -> bool {
        !self.is_zero() && !self.magnitude_lt(Decimal::double_limit())
    }

    /// The one representation of zero.
    pub open spec fn zero() -> Decimal {
        Decimal { negative: false, digits: Seq::empty(), exponent: 0 }
    }

    /// Canonical form: decimal digits, none of them a leading or trailing
    /// zero, and zero without sign or exponent.
    pub open spec fn wf(self) -> bool {
        &&& is_numeral(self.digits)
        &&& self.digits.len() == 0 ==> !self.negative && self.exponent == 0
        &&& self.digits.len() > 0 ==> self.digits[0] != 0 && self.digits.last() != 0
    }

    pub open spec fn is_zero(self) -> bool {
        self.digits.len() == 0
    }

    /// The canonical decimal with the value `(-1)^negative * digits * 10^exponent`.
    pub open spec fn normalize(negative: bool, digits: Seq<u8>, exponent: int) -> Decimal {
        let head = strip_leading_zeros(digits);
        let body = strip_trailing_zeros(head);
        if body.len() == 0 {
            Decimal::zero()
        } else {
            Decimal { negative, digits: body, exponent: exponent + (head.len() - body.len()) }
        }
    }

    /// The decimal of a natural number.
    pub open spec fn from_nat(n: nat) -> Decimal {
        Decimal::normalize(false, numeral_of(n), 0)
    }

    /// Position of the most significant digit: the value of a non-zero
    /// canonical decimal lies in `[10^(top-1), 10^top)`.
    pub open spec fn top(self) -> int {
        self.exponent + self.digits.len()
    }

    /// Order of the absolute values of two canonical decimals.
    pub open spec fn magnitude_lt(self, other: Decimal) -> bool {
        if other.is_zero() {
            false
        } else if self.is_zero() {
            true
        } else if self.top() != other.top() {
            self.top() < other.top()
        } else {
            numeral_lt(self.digits, other.digits)
        }
    }

    /// Numeric order of two canonical decimals.
    pub open spec fn lt(self, other: Decimal) -> bool {
        if self.negative != other.negative {
            self.negative
        } else if self.negative {
            other.magnitude_lt(self)
        } else {
            self.magnitude_lt(other)
        }
    }

    /// The integer that a canonical decimal denotes, if it is one.
    pub open spec fn integer(self) -> Option<int> {
        if self.exponent < 0 {
            None
        } else {
            let magnitude = numeral_value(self.digits) * pow10(self.exponent as nat);
            Some(if self.negative { -magnitude } else { magnitude as int })
        }
    }

    /// The integer that a canonical decimal denotes, if it is one that an
    /// index or a slice bound may hold.
    pub open spec fn exact_integer(self) -> Option<int> {
        match self.integer() {
            Some(v) => if -MAX_EXACT_INTEGER <= v <= MAX_EXACT_INTEGER {
                Some(v)
            } else {
                None
            },
            None => None,
        }
    }
}

pub proof fn lemma_pow10_positive(n: nat)
    ensures
        pow10(n) > 0,
    decreases n,
{
    if n > 0 {
        lemma_pow10_positive((n - 1) as nat);
    }
}

pub proof fn lemma_pow10_monotonic(a: nat, b: nat)
    requires
        a <= b,
    ensures
        pow10(a) <= pow10(b),
    decreases b,
{
    if a < b {
        lemma_pow10_monotonic(a, (b - 1) as nat);
        lemma_pow10_positive((b - 1) as nat);
    }
}

/// A numeral denotes at least what each of its prefixes denotes.
pub proof fn lemma_numeral_value_prefix(digits: Seq<u8>, k: int)
    requires
        0 <= k <= digits.len(),
    ensures
        numeral_value(digits.take(k)) <= numeral_value(digits),
    decreases digits.len() - k,
{
    if k < digits.len() {
        lemma_numeral_value_prefix(digits, k + 1);
        assert(digits.take(k + 1).drop_last() =~= digits.take(k));
    } else {
        assert(digits.take(k) =~= digits);
    }
}

/// A numeral of `n` digits without a leading zero denotes a number in
/// `[10^(n-1), 10^n)`.
pub proof fn lemma_numeral_bounds(digits: Seq<u8>)
    requires
        is_numeral(digits),
    ensures
        numeral_value(digits) < pow10(digits.len()),
        digits.len() > 0 && digits[0] != 0 ==> pow10((digits.len() - 1) as nat) <= numeral_value(
            digits,
        ),
    decreases digits.len(),
{
    if digits.len() > 0 {
        let init = digits.drop_last();
        lemma_numeral_bounds(init);
        if digits.len() > 1 {
            assert(init[0] == digits[0]);
        }
    }
}

/// A JSON number, held as an exact decimal in canonical form.
#[derive(Debug, PartialEq, Eq)]
pub struct Number {
    negative: bool,
    digits: Vec<u8>,
    exponent: i128,
}

impl View for Number {
    type V = Decimal;

    closed spec fn view(&self) -> Decimal {
        Decimal { negative: self.negative, digits: self.digits@, exponent: self.exponent as int }
    }
}

/// Whether the numeral `x[i..]` comes before `y[i..]`, for numerals that agree
/// on their first `i` digits.
fn numeral_lt_exec(x: &Vec<u8>, y: &Vec<u8>) -> (r: bool)
    ensures
        r == numeral_lt(x@, y@),
{
    let mut i: usize = 0;
    assert(x@.skip(0) =~= x@);
    assert(y@.skip(0) =~= y@);
    loop
        invariant
            i <= x.len(),
            i <= y.len(),
            numeral_lt(x@, y@) == numeral_lt(x@.skip(i as int), y@.skip(i as int)),
        decreases x.len() - i,
    {
        if i == y.len() {
            return false;
        }
        if i == x.len() {
            return true;
        }
        if x[i] != y[i] {
            return x[i] < y[i];
        }
        assert(x@.skip(i as int).drop_first() =~= x@.skip(i + 1));
        assert(y@.skip(i as int).drop_first() =~= y@.skip(i + 1));
        i += 1;
    }
}

/// The digits of the least number that is too large for a double.
fn double_limit() -> (r: Vec<u8>)
    ensures
        r@ == double_limit_digits(),
        r.len() == DOUBLE_LIMIT_LENGTH,
{
    reveal(double_limit_digits);
    let limit: Vec<u8> = vec![
        1u8, 7, 9, 7, 6, 9, 3, 1, 3, 4, 8, 6, 2, 3, 1, 5, 8, 0, 7, 9, 3, 7, 2, 8, 9,
        7, 1, 4, 0, 5, 3, 0, 3, 4, 1, 5, 0, 7, 9, 9, 3, 4, 1, 3, 2, 7, 1, 0, 0, 3,
        7, 8, 2, 6, 9, 3, 6, 1, 7, 3, 7, 7, 8, 9, 8, 0, 4, 4, 4, 9, 6, 8, 2, 9, 2,
        7, 6, 4, 7, 5, 0, 9, 4, 6, 6, 4, 9, 0, 1, 7, 9, 7, 7, 5, 8, 7, 2, 0, 7, 0,
        9, 6, 3, 3, 0, 2, 8, 6, 4, 1, 6, 6, 9, 2, 8, 8, 7, 9, 1, 0, 9, 4, 6, 5, 5,
        5, 5, 4, 7, 8, 5, 1, 9, 4, 0, 4, 0, 2, 6, 3, 0, 6, 5, 7, 4, 8, 8, 6, 7, 1,
        5, 0, 5, 8, 2, 0, 6, 8, 1, 9, 0, 8, 9, 0, 2, 0, 0, 0, 7, 0, 8, 3, 8, 3, 6,
        7, 6, 2, 7, 3, 8, 5, 4, 8, 4, 5, 8, 1, 7, 7, 1, 1, 5, 3, 1, 7, 6, 4, 4, 7,
        5, 7, 3, 0, 2, 7, 0, 0, 6, 9, 8, 5, 5, 5, 7, 1, 3, 6, 6, 9, 5, 9, 6, 2, 2,
        8, 4, 2, 9, 1, 4, 8, 1, 9, 8, 6, 0, 8, 3, 4, 9, 3, 6, 4, 7, 5, 2, 9, 2, 7,
        1, 9, 0, 7, 4, 1, 6, 8, 4, 4, 4, 3, 6, 5, 5, 1, 0, 7, 0, 4, 3, 4, 2, 7, 1,
        1, 5, 5, 9, 6, 9, 9, 5, 0, 8, 0, 9, 3, 0, 4, 2, 8, 8, 0, 1, 7, 7, 9, 0, 4,
        1, 7, 4, 4, 9, 7, 7, 9, 2,
    ];
    assert(limit@ =~= double_limit_digits());
    limit
}

impl Number {
    #[verifier::type_invariant]
    spec fn inv(self) -> bool {
        &&& self@.wf()
        &&& -MAX_EXPONENT <= self.exponent <= MAX_EXPONENT
    }

    /// The number with the value `(-1)^negative * digits * 10^exponent`.
    #[verifier::rlimit(40)]
    pub fn normalized(negative: bool, digits: &Vec<u8>, exponent: i128) -> (r: Number)
        requires
            is_numeral(digits@),
            -MAX_INPUT_EXPONENT <= exponent <= MAX_INPUT_EXPONENT,
        ensures
            r@ == Decimal::normalize(negative, digits@, exponent as int),
    {
        let n: usize = digits.len();
        let mut lo: usize = 0;
        assert(digits@.subrange(0, n as int) =~= digits@);
        while lo < n && digits[lo] == 0
            invariant
                lo <= n == digits.len(),
                strip_leading_zeros(digits@) == strip_leading_zeros(
                    digits@.subrange(lo as int, n as int),
                ),
            decreases n - lo,
        {
            assert(digits@.subrange(lo as int, n as int).drop_first() =~= digits@.subrange(
                lo + 1,
                n as int,
            ));
            lo += 1;
        }
        assert(digits@.subrange(0, n as int) =~= digits@);
        let ghost head = digits@.subrange(lo as int, n as int);
        assert(strip_leading_zeros(digits@) == head);
        let mut hi: usize = n;
        while hi > lo && digits[hi - 1] == 0
            invariant
                lo <= hi <= n == digits.len(),
                strip_trailing_zeros(head) == strip_trailing_zeros(
                    digits@.subrange(lo as int, hi as int),
                ),
                head == digits@.subrange(lo as int, n as int),
            decreases hi,
        {
            assert(digits@.subrange(lo as int, hi as int).drop_last() =~= digits@.subrange(
                lo as int,
                hi - 1,
            ));
            hi -= 1;
        }
        let ghost body = digits@.subrange(lo as int, hi as int);
        assert(strip_trailing_zeros(head) == body);
        if hi == lo {
            return Number { negative: false, digits: Vec::new(), exponent: 0 };
        }
        let mut kept: Vec<u8> = Vec::new();
        let mut i: usize = lo;
        while i < hi
            invariant
                lo <= i <= hi <= n == digits.len(),
                kept@ == digits@.subrange(lo as int, i as int),
            decreases hi - i,
        {
            kept.push(digits[i]);
            i += 1;
        }
        assert(kept@[0] == digits@[lo as int]);
        assert(kept@.last() == digits@[hi - 1]);
        let trailing: usize = n - hi;
        Number { negative, digits: kept, exponent: exponent + trailing as i128 }
    }

    /// The number `n`.
    #[verifier::rlimit(40)]
    pub fn from_usize(n: usize) -> (r: Number)
        ensures
            r@ == Decimal::from_nat(n as nat),
    {
        let mut low: Vec<u8> = Vec::new();
        let mut m: usize = n;
        while m >= 10
            invariant
                numeral_of(n as nat) == numeral_of(m as nat) + low@.reverse(),
                is_numeral(low@),
            decreases m,
        {
            let d: u8 = (m % 10) as u8;
            proof {
                let next = low@.push(d);
                assert(next.reverse() =~= seq![d] + low@.reverse());
                assert(numeral_of(m as nat) == numeral_of((m / 10) as nat).push(d));
                assert(numeral_of((m / 10) as nat).push(d) + low@.reverse() =~= numeral_of(
                    (m / 10) as nat,
                ) + next.reverse());
            }
            low.push(d);
            m = m / 10;
        }
        let mut digits: Vec<u8> = Vec::new();
        digits.push(m as u8);
        let mut i: usize = low.len();
        while i > 0
            invariant
                i <= low.len(),
                is_numeral(low@),
                is_numeral(digits@),
                digits@ == seq![m as u8] + low@.reverse().subrange(0, low.len() - i),
            decreases i,
        {
            i -= 1;
            digits.push(low[i]);
            assert(digits@ =~= seq![m as u8] + low@.reverse().subrange(0, low.len() - i));
        }
        assert(low@.reverse().subrange(0, low.len() as int) =~= low@.reverse());
        assert(numeral_of(m as nat) == seq![m as u8]);
        Number::normalized(false, &digits, 0)
    }

    /// A copy of the number.
    pub fn duplicate(&self) -> (r: Number)
        ensures
            r@ == self@,
    {
        proof {
            use_type_invariant(self);
        }
        Number { negative: self.negative, digits: self.digits.clone(), exponent: self.exponent }
    }

    /// Whether the absolute value of the number is too large for a double.
    pub fn exceeds_double(&self) -> (r: bool)
        ensures
            r == self@.exceeds_double(),
    {
        proof {
            use_type_invariant(self);
        }
        if self.digits.len() == 0 {
            return false;
        }
        proof {
            lemma_double_limit();
        }
        let limit: Vec<u8> = double_limit();
        let top: i128 = self.exponent + self.digits.len() as i128;
        if top != DOUBLE_LIMIT_LENGTH as i128 {
            top > DOUBLE_LIMIT_LENGTH as i128
        } else {
            !numeral_lt_exec(&self.digits, &limit)
        }
    }

    pub fn is_zero(&self) -> (r: bool)
        ensures
            r == self@.is_zero(),
    {
        self.digits.len() == 0
    }

    pub fn is_negative(&self) -> (r: bool)
        ensures
            r == self@.negative,
    {
        self.negative
    }

    /// The digits of the number, most significant first. The number is in
    /// canonical form, so there is no zero at either end of them.
    pub fn digits(&self) -> (r: &Vec<u8>)
        ensures
            r@ == self@.digits,
            self@.wf(),
    {
        proof {
            use_type_invariant(self);
        }
        &self.digits
    }

    /// The power of ten by which the digits are scaled.
    pub fn exponent(&self) -> (r: i128)
        ensures
            r == self@.exponent,
    {
        self.exponent
    }

    /// Whether the two numbers are the same number. Both are in canonical
    /// form, of which each value has one.
    pub fn equals(&self, other: &Number) -> (r: bool)
        ensures
            r == (self@ == other@),
            self@.wf(),
            other@.wf(),
    {
        proof {
            use_type_invariant(self);
            use_type_invariant(other);
        }
        if self.negative != other.negative || self.exponent != other.exponent
            || self.digits.len() != other.digits.len() {
            return false;
        }
        let mut i: usize = 0;
        while i < self.digits.len()
            invariant
                i <= self.digits.len() == other.digits.len(),
                self@.wf(),
                other@.wf(),
                forall|k: int| 0 <= k < i ==> self.digits@[k] == other.digits@[k],
            decreases self.digits.len() - i,
        {
            if self.digits[i] != other.digits[i] {
                return false;
            }
            i += 1;
        }
        assert(self.digits@ =~= other.digits@);
        true
    }

    fn magnitude_lt(&self, other: &Number) -> (r: bool)
        ensures
            r == self@.magnitude_lt(other@),
    {
        proof {
            use_type_invariant(self);
            use_type_invariant(other);
        }
        if other.digits.len() == 0 {
            false
        } else if self.digits.len() == 0 {
            true
        } else {
            let top: i128 = self.exponent + self.digits.len() as i128;
            let other_top: i128 = other.exponent + other.digits.len() as i128;
            if top != other_top {
                top < other_top
            } else {
                numeral_lt_exec(&self.digits, &other.digits)
            }
        }
    }

    /// Whether `self` is the smaller number. Both numbers are in canonical
    /// form, on which [`Decimal::lt`] is the order of the values.
    pub fn lt(&self, other: &Number) -> (r: bool)
        ensures
            r == self@.lt(other@),
            self@.wf(),
            other@.wf(),
    {
        proof {
            use_type_invariant(self);
            use_type_invariant(other);
        }
        if self.negative != other.negative {
            self.negative
        } else if self.negative {
            other.magnitude_lt(self)
        } else {
            self.magnitude_lt(other)
        }
    }

    /// The number as an integer of at most `2^53 - 1` in absolute value, if
    /// it is one.
    #[verifier::rlimit(40)]
    pub fn to_integer(&self) -> (r: Option<i64>)
        ensures
            r matches Some(v) ==> self@.exact_integer() == Some(v as int),
            r is None ==> self@.exact_integer() is None,
    {
        proof {
            use_type_invariant(self);
            lemma_numeral_bounds(self.digits@);
        }
        let n: usize = self.digits.len();
        if self.exponent < 0 {
            return None;
        }
        if n == 0 {
            assert(numeral_value(self.digits@) == 0);
            assert(0 * pow10(self.exponent as nat) == 0);
            return Some(0);
        }
        if self.exponent > 16 || n > 16 || self.exponent + n as i128 > 16 {
            proof {
                let top = (self.exponent + n) as nat;
                assert(top >= 17);
                lemma_pow10_monotonic(16, (top - 1) as nat);
                lemma_pow10_split((n - 1) as nat, self.exponent as nat);
                lemma_pow10_positive(self.exponent as nat);
                assert(pow10(16) == 10000000000000000) by {
                    reveal_with_fuel(pow10, 17);
                }
                assert(pow10((n - 1) as nat) * pow10(self.exponent as nat) <= numeral_value(
                    self.digits@,
                ) * pow10(self.exponent as nat)) by (nonlinear_arith)
                    requires
                        pow10((n - 1) as nat) <= numeral_value(self.digits@),
                        pow10(self.exponent as nat) > 0,
                ;
            }
            return None;
        }
        let mut acc: i64 = 0;
        let mut i: usize = 0;
        while i < n
            invariant
                i <= n == self.digits.len() <= 16,
                is_numeral(self.digits@),
                0 <= acc == numeral_value(self.digits@.take(i as int)) < pow10(i as nat),
            decreases n - i,
        {
            proof {
                assert(self.digits@.take(i + 1).drop_last() =~= self.digits@.take(i as int));
                lemma_pow10_monotonic(i as nat, 16);
                assert(pow10(16) == 10000000000000000) by {
                    reveal_with_fuel(pow10, 17);
                }
            }
            acc = acc * 10 + self.digits[i] as i64;
            i += 1;
        }
        assert(self.digits@.take(n as int) =~= self.digits@);
        let mut k: i128 = 0;
        assert(pow10(0) == 1);
        assert(numeral_value(self.digits@) * pow10(0) == numeral_value(self.digits@))
            by (nonlinear_arith)
            requires
                pow10(0) == 1,
        ;
        while k < self.exponent
            invariant
                0 <= k <= self.exponent,
                n + self.exponent <= 16,
                0 <= acc == numeral_value(self.digits@) * pow10(k as nat) < pow10((n + k) as nat),
            decreases self.exponent - k,
        {
            proof {
                lemma_pow10_monotonic((n + k + 1) as nat, 16);
                assert(pow10(16) == 10000000000000000) by {
                    reveal_with_fuel(pow10, 17);
                }
                assert(numeral_value(self.digits@) * pow10((k + 1) as nat) == numeral_value(
                    self.digits@,
                ) * pow10(k as nat) * 10) by (nonlinear_arith)
                    requires
                        pow10((k + 1) as nat) == 10 * pow10(k as nat),
                ;
            }
            acc = acc * 10;
            k += 1;
        }
        proof {
            lemma_pow10_monotonic((n + k) as nat, 16);
            assert(pow10(16) == 10000000000000000) by {
                reveal_with_fuel(pow10, 17);
            }
        }
        if acc > MAX_EXACT_INTEGER {
            None
        } else if self.negative {
            Some(-acc)
        } else {
            Some(acc)
        }
    }
}

pub proof fn lemma_pow10_split(a: nat, b: nat)
    ensures
        pow10(a + b) == pow10(a) * pow10(b),
    decreases a,
{
    if a > 0 {
        lemma_pow10_split((a - 1) as nat, b);
        let pa = pow10((a - 1) as nat);
        let pb = pow10(b);
        let pab = pow10((a - 1 + b) as nat);
        assert(pow10(a + b) == 10 * pab);
        assert(pow10(a) == 10 * pa);
        assert(10 * pab == (10 * pa) * pb) by (nonlinear_arith)
            requires
                pab == pa * pb,
        ;
        assert(pow10(a) * pow10(b) == (10 * pa) * pb);
    } else {
        assert(pow10(0) == 1);
        assert(1 * pow10(b) == pow10(b));
    }
}

} // verus!
