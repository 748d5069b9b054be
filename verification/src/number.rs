//! Decimal numbers: an integer divided by a power of ten.
//!
//! The arithmetic is that of the `bigdecimal` crate. A [`Number`] holds what
//! the crate's own type holds, as plain values and in lowest terms, so that
//! two equal numbers have equal parts.

use bigdecimal::num_bigint::BigInt;
use bigdecimal::{BigDecimal, RoundingMode, ToPrimitive};
use std::cmp::Ordering;
use std::str::FromStr;
use vstd::arithmetic::power::pow;
use vstd::prelude::*;

use crate::strings;
use crate::text;

verus! {

/// The greatest scale, positive or negative, that a number can have. The outside
/// crate counts scales in an `i64`: within this limit the sum or the difference of
/// two of them, and the digits that a division adds, still fit.
pub const MAX_SCALE: i64 = 0x2000_0000_0000_0000;

/// How many significant digits a number keeps.
pub const MAX_PRECISION: u64 = 40;

/// The number `int_val / 10^scale`.
pub struct Dec {
    pub int_val: int,
    pub scale: int,
}

/// The ten to the power `n`.
pub open spec fn ten_to(n: int) -> int {
    pow(10, n as nat)
}

pub open spec fn abs(i: int) -> int {
    if i < 0 {
        -i
    } else {
        i
    }
}

pub open spec fn max(a: int, b: int) -> int {
    if a < b {
        b
    } else {
        a
    }
}

/// The number `i / 10^s` in lowest terms: no power of ten divides its integer.
pub open spec fn lowest(i: int, s: int) -> Dec
    decreases abs(i),
{
    if i == 0 {
        Dec { int_val: 0, scale: 0 }
    } else if i % 10 == 0 {
        lowest(i / 10, s - 1)
    } else {
        Dec { int_val: i, scale: s }
    }
}

pub open spec fn integer(i: int) -> Dec {
    lowest(i, 0)
}

/// The integer of a number at a scale that is no lower than its own.
pub open spec fn at_scale(d: Dec, s: int) -> int {
    d.int_val * ten_to(s - d.scale)
}

pub open spec fn sum(a: Dec, b: Dec) -> Dec {
    let s = max(a.scale, b.scale);
    lowest(at_scale(a, s) + at_scale(b, s), s)
}

pub open spec fn difference(a: Dec, b: Dec) -> Dec {
    let s = max(a.scale, b.scale);
    lowest(at_scale(a, s) - at_scale(b, s), s)
}

pub open spec fn product(a: Dec, b: Dec) -> Dec {
    lowest(a.int_val * b.int_val, a.scale + b.scale)
}

/// What `BigDecimal`'s `/` gives, in lowest terms.
pub uninterp spec fn quotient(a: Dec, b: Dec) -> Dec;

/// What `BigDecimal::sqrt` gives, in lowest terms.
pub uninterp spec fn square_root(a: Dec) -> Dec;

/// Whether a number is in lowest terms.
pub open spec fn is_lowest(d: Dec) -> bool {
    lowest(d.int_val, d.scale) == d
}

pub open spec fn negated(a: Dec) -> Dec {
    Dec { int_val: -a.int_val, scale: a.scale }
}

pub open spec fn magnitude(a: Dec) -> Dec {
    Dec { int_val: abs(a.int_val), scale: a.scale }
}

/// Whether `a` is less than `b`.
pub open spec fn less(a: Dec, b: Dec) -> bool {
    let s = max(a.scale, b.scale);
    at_scale(a, s) < at_scale(b, s)
}

/// Whether `a` and `b` are the same number.
pub open spec fn equal(a: Dec, b: Dec) -> bool {
    let s = max(a.scale, b.scale);
    at_scale(a, s) == at_scale(b, s)
}

/// Which way to go when digits are dropped.
#[derive(Clone, Copy, PartialEq, Eq, Structural)]
pub enum Rounding {
    /// Towards zero.
    Down,
    /// To the nearest, away from zero when halfway.
    HalfUp,
    /// To the nearest, to the even one when halfway.
    HalfEven,
    /// Towards positive infinity.
    Ceiling,
    /// Towards negative infinity.
    Floor,
}

/// The integer next to `i / p`, for a positive `p`.
pub open spec fn rounded_quotient(i: int, p: int, mode: Rounding) -> int {
    let q = abs(i) / p;
    let r = abs(i) % p;
    let away = match mode {
        Rounding::Down => false,
        Rounding::HalfUp => 2 * r >= p,
        Rounding::HalfEven => 2 * r > p || (2 * r == p && q % 2 == 1),
        Rounding::Ceiling => i > 0 && r != 0,
        Rounding::Floor => i < 0 && r != 0,
    };
    let m = if away {
        q + 1
    } else {
        q
    };
    if i < 0 {
        -m
    } else {
        m
    }
}

/// A number with at most `places` digits behind the decimal point. A negative
/// `places` counts digits in front of it.
pub open spec fn rounded(d: Dec, places: int, mode: Rounding) -> Dec {
    if places >= d.scale {
        d
    } else {
        lowest(rounded_quotient(d.int_val, ten_to(d.scale - places), mode), places)
    }
}

/// How many decimal digits an integer has; zero has one.
pub open spec fn digit_count(i: int) -> int {
    text::decimal(abs(i) as nat).len() as int
}

/// A number with at most so many significant digits. A positive number is rounded
/// to the nearest, a negative one towards zero.
pub open spec fn with_digits(d: Dec, digits: int) -> Dec {
    let extra = digit_count(d.int_val) - digits;
    if extra <= 0 {
        d
    } else {
        lowest(
            rounded_quotient(
                d.int_val,
                ten_to(extra),
                if d.int_val < 0 {
                    Rounding::Down
                } else {
                    Rounding::HalfUp
                },
            ),
            d.scale - extra,
        )
    }
}

/// A number with at most [`MAX_PRECISION`] significant digits.
pub open spec fn precise(d: Dec) -> Dec {
    with_digits(d, MAX_PRECISION as int)
}

/// The integer part.
pub open spec fn whole(d: Dec) -> int {
    if d.scale <= 0 {
        at_scale(d, 0)
    } else {
        rounded_quotient(d.int_val, ten_to(d.scale), Rounding::Down)
    }
}

/// What `BigDecimal::from_str` makes of a text: integer and scale.
pub uninterp spec fn parsed(s: Seq<char>) -> Option<(int, int)>;

/// The number that digits stand for.
pub open spec fn digits_value(s: Seq<char>) -> nat
    decreases s.len(),
{
    if s.len() == 0 {
        0
    } else {
        digits_value(s.drop_last()) * 10 + (s.last() as u32 - 48) as nat
    }
}

pub open spec fn all_digits(s: Seq<char>) -> bool {
    forall|i: int| 0 <= i < s.len() ==> text::is_digit(#[trigger] s[i])
}

/// Where the exponent's letter stands, from `i` on.
pub open spec fn letter_from(s: Seq<char>, i: int) -> Option<int>
    decreases s.len() - i,
{
    if i < 0 || i >= s.len() {
        None
    } else if s[i] == 'e' || s[i] == 'E' {
        Some(i)
    } else {
        letter_from(s, i + 1)
    }
}

/// The integer that digits behind a sign, or without one, stand for.
pub open spec fn signed_digits(s: Seq<char>) -> Option<int> {
    let d = if s.len() > 0 && (s[0] == '-' || s[0] == '+') {
        s.skip(1)
    } else {
        s
    };
    if d.len() == 0 || !all_digits(d) {
        None
    } else if s[0] == '-' {
        Some(-(digits_value(d) as int))
    } else {
        Some(digits_value(d) as int)
    }
}

/// A text without its point, and how many characters stood behind that.
pub open spec fn without_point(s: Seq<char>) -> (Seq<char>, int) {
    match strings::index_from(s, '.', 0) {
        Some(i) => (s.take(i) + s.skip(i + 1), s.len() - i - 1),
        None => (s, 0),
    }
}

/// The integer and the scale of a decimal literal without a sign: digits, with or
/// without a point among them, and an exponent or none.
pub open spec fn unsigned_literal(s: Seq<char>) -> Option<(int, int)> {
    let letter = letter_from(s, 0);
    let power = match letter {
        Some(i) => signed_digits(s.skip(i + 1)),
        None => Some(0),
    };
    let (digits, places) = without_point(
        match letter {
            Some(i) => s.take(i),
            None => s,
        },
    );
    match power {
        Some(power) => if digits.len() > 0 && all_digits(digits) {
            Some((digits_value(digits) as int, places - power))
        } else {
            None
        },
        None => None,
    }
}

/// The integer and the scale of a decimal literal, such as `-12.5` or `.25E-3`.
#[verifier::opaque]
pub open spec fn literal(s: Seq<char>) -> Option<(int, int)> {
    if s.len() > 0 && s[0] == '-' {
        match unsigned_literal(s.skip(1)) {
            Some((i, scale)) => Some((-i, scale)),
            None => None,
        }
    } else {
        unsigned_literal(s)
    }
}

/// The integer and the scale that a text stands for: those of a literal as it is
/// written; what the outside parser makes of any other text.
pub open spec fn parts(s: Seq<char>) -> Option<(int, int)> {
    match literal(s) {
        Some((i, scale)) => if i64::MIN <= scale <= i64::MAX {
            Some((i, scale))
        } else {
            None
        },
        None => parsed(s),
    }
}

/// The number that a text stands for.
pub open spec fn number_of(s: Seq<char>) -> Option<Dec> {
    match parts(s) {
        Some((i, s)) => {
            let d = lowest(i, s);
            if -MAX_SCALE <= s <= MAX_SCALE && in_range(d) {
                Some(d)
            } else {
                None
            }
        },
        None => None,
    }
}

pub open spec fn zeros(n: int) -> Seq<char> {
    Seq::new(n as nat, |i: int| '0')
}

/// The decimal notation without an exponent.
pub open spec fn plain(i: int, scale: int) -> Seq<char> {
    let digits = text::decimal(abs(i) as nat);
    let sign = if i < 0 {
        seq!['-']
    } else {
        Seq::empty()
    };
    if scale <= 0 {
        sign + digits + zeros(-scale)
    } else {
        let all = text::zero_filled(digits, (scale + 1) as nat);
        let point = all.len() - scale;
        sign + all.take(point) + seq!['.'] + all.skip(point)
    }
}

/// Scientific notation: one digit, the others behind a point, and the exponent.
pub open spec fn scientific(d: Dec) -> Seq<char> {
    if d.int_val == 0 {
        "0e0"@
    } else {
        let digits = text::decimal(abs(d.int_val) as nat);
        let sign = if d.int_val < 0 {
            seq!['-']
        } else {
            Seq::empty()
        };
        let tail = if digits.len() > 1 {
            seq!['.'] + digits.skip(1)
        } else {
            Seq::empty()
        };
        sign + digits.take(1) + tail + seq!['e'] + text::decimal_int(digits.len() - 1 - d.scale)
    }
}

/// Whether a number's scale is within the limit.
pub open spec fn in_range(d: Dec) -> bool {
    -MAX_SCALE <= d.scale <= MAX_SCALE
}

/// The number that big-endian bytes in two's complement stand for.
pub open spec fn signed_value(b: Seq<u8>) -> int
    decreases b.len(),
{
    if b.len() == 0 {
        0
    } else if b.len() == 1 {
        if b[0] >= 128 {
            b[0] - 256
        } else {
            b[0] as int
        }
    } else {
        signed_value(b.drop_last()) * 256 + b.last()
    }
}

/// An integer, in two's complement bytes, and a scale.
#[derive(Debug, PartialEq, Eq)]
struct Raw {
    int_val: Vec<u8>,
    scale: i64,
}

impl Raw {
    spec fn dec(self) -> Dec {
        Dec { int_val: signed_value(self.int_val@), scale: self.scale as int }
    }
}

/// A decimal number within the limit of scales, in lowest terms.
#[derive(Debug, PartialEq, Eq)]
pub struct Number {
    raw: Raw,
}

impl View for Number {
    type V = Dec;

    closed spec fn view(&self) -> Dec {
        self.raw.dec()
    }
}

/// `BigDecimal::from_str`: the integer and scale that a text is parsed to, or
/// `None` for its error. A decimal literal is read as it is written, and is an error
/// when its scale is beyond an `i64`.
#[verifier::external_body]
fn parse_raw(s: &str) -> (r: Option<Raw>)
    ensures
        match r {
            Some(n) => parsed(s@) == Some((n.dec().int_val, n.dec().scale)),
            None => parsed(s@) is None,
        },
        literal(s@) matches Some((i, scale)) ==> match r {
            Some(n) => n.dec() == (Dec { int_val: i, scale }),
            None => !(i64::MIN <= scale <= i64::MAX),
        },
{
    let (i, scale) = BigDecimal::from_str(s).ok()?.into_bigint_and_scale();
    Some(Raw { int_val: i.to_signed_bytes_be(), scale })
}

/// `BigDecimal::normalized`: the same number in lowest terms.
#[verifier::external_body]
fn normalize_raw(n: Raw) -> (r: Raw)
    requires
        -MAX_SCALE <= n.scale <= MAX_SCALE,
    ensures
        r.dec() == lowest(n.dec().int_val, n.dec().scale),
{
    let x = BigDecimal::new(BigInt::from_signed_bytes_be(&n.int_val), n.scale);
    let (i, scale) = x.normalized().into_bigint_and_scale();
    Raw { int_val: i.to_signed_bytes_be(), scale }
}

/// `BigDecimal::from` an `i64`: that integer.
#[verifier::external_body]
fn integer_raw(n: i64) -> (r: Raw)
    ensures
        r.dec() == integer(n as int),
{
    let (i, scale) = BigDecimal::from(n).normalized().into_bigint_and_scale();
    Raw { int_val: i.to_signed_bytes_be(), scale }
}

/// `BigDecimal`'s `+`: the exact sum.
#[verifier::external_body]
fn add_raw(a: &Raw, b: &Raw) -> (r: Raw)
    requires
        in_range(a.dec()),
        in_range(b.dec()),
    ensures
        r.dec() == sum(a.dec(), b.dec()),
{
    let x = BigDecimal::new(BigInt::from_signed_bytes_be(&a.int_val), a.scale);
    let y = BigDecimal::new(BigInt::from_signed_bytes_be(&b.int_val), b.scale);
    let (i, scale) = (x + y).normalized().into_bigint_and_scale();
    Raw { int_val: i.to_signed_bytes_be(), scale }
}

/// `BigDecimal`'s `-`: the exact difference.
#[verifier::external_body]
fn sub_raw(a: &Raw, b: &Raw) -> (r: Raw)
    requires
        in_range(a.dec()),
        in_range(b.dec()),
    ensures
        r.dec() == difference(a.dec(), b.dec()),
{
    let x = BigDecimal::new(BigInt::from_signed_bytes_be(&a.int_val), a.scale);
    let y = BigDecimal::new(BigInt::from_signed_bytes_be(&b.int_val), b.scale);
    let (i, scale) = (x - y).normalized().into_bigint_and_scale();
    Raw { int_val: i.to_signed_bytes_be(), scale }
}

/// `BigDecimal`'s `*`: the exact product.
#[verifier::external_body]
fn mul_raw(a: &Raw, b: &Raw) -> (r: Raw)
    requires
        in_range(a.dec()),
        in_range(b.dec()),
    ensures
        r.dec() == product(a.dec(), b.dec()),
{
    let x = BigDecimal::new(BigInt::from_signed_bytes_be(&a.int_val), a.scale);
    let y = BigDecimal::new(BigInt::from_signed_bytes_be(&b.int_val), b.scale);
    let (i, scale) = (x * y).normalized().into_bigint_and_scale();
    Raw { int_val: i.to_signed_bytes_be(), scale }
}

/// `BigDecimal`'s `/`, which panics on a zero divisor: the quotient in lowest
/// terms.
#[verifier::external_body]
fn div_raw(a: &Raw, b: &Raw) -> (r: Raw)
    requires
        in_range(a.dec()),
        in_range(b.dec()),
        b.dec().int_val != 0,
    ensures
        r.dec() == quotient(a.dec(), b.dec()),
        is_lowest(r.dec()),
{
    let x = BigDecimal::new(BigInt::from_signed_bytes_be(&a.int_val), a.scale);
    let y = BigDecimal::new(BigInt::from_signed_bytes_be(&b.int_val), b.scale);
    let (i, scale) = (x / y).normalized().into_bigint_and_scale();
    Raw { int_val: i.to_signed_bytes_be(), scale }
}

/// `BigDecimal`'s unary `-`: the opposite number.
#[verifier::external_body]
fn neg_raw(a: &Raw) -> (r: Raw)
    ensures
        r.dec() == negated(a.dec()),
{
    let x = BigDecimal::new(BigInt::from_signed_bytes_be(&a.int_val), a.scale);
    let (i, scale) = (-x).into_bigint_and_scale();
    Raw { int_val: i.to_signed_bytes_be(), scale }
}

/// `BigDecimal::abs`: the number without its sign.
#[verifier::external_body]
fn abs_raw(a: &Raw) -> (r: Raw)
    ensures
        r.dec() == magnitude(a.dec()),
{
    let x = BigDecimal::new(BigInt::from_signed_bytes_be(&a.int_val), a.scale);
    let (i, scale) = x.abs().into_bigint_and_scale();
    Raw { int_val: i.to_signed_bytes_be(), scale }
}

/// `BigDecimal::sqrt`, which has no result below zero: the root in lowest
/// terms.
#[verifier::external_body]
fn sqrt_raw(a: &Raw) -> (r: Raw)
    requires
        in_range(a.dec()),
        a.dec().int_val >= 0,
    ensures
        r.dec() == square_root(a.dec()),
        is_lowest(r.dec()),
{
    let x = BigDecimal::new(BigInt::from_signed_bytes_be(&a.int_val), a.scale);
    let (i, scale) = x.sqrt().unwrap_or_default().normalized().into_bigint_and_scale();
    Raw { int_val: i.to_signed_bytes_be(), scale }
}

/// `BigDecimal::with_prec`: the number with that many significant digits.
#[verifier::external_body]
fn prec_raw(a: &Raw, digits: u64) -> (r: Raw)
    requires
        in_range(a.dec()),
        is_lowest(a.dec()),
        1 <= digits <= 1000,
    ensures
        r.dec() == with_digits(a.dec(), digits as int),
{
    let x = BigDecimal::new(BigInt::from_signed_bytes_be(&a.int_val), a.scale);
    let (i, scale) = x.with_prec(digits).normalized().into_bigint_and_scale();
    Raw { int_val: i.to_signed_bytes_be(), scale }
}

/// `BigDecimal::with_scale_round` to a lower scale: the number rounded there.
#[verifier::external_body]
fn round_raw(a: &Raw, places: i64, mode: Rounding) -> (r: Raw)
    requires
        in_range(a.dec()),
        -MAX_SCALE <= places < a.dec().scale,
    ensures
        r.dec() == lowest(
            rounded_quotient(a.dec().int_val, ten_to(a.dec().scale - places), mode),
            places as int,
        ),
{
    let x = BigDecimal::new(BigInt::from_signed_bytes_be(&a.int_val), a.scale);
    let m = match mode {
        Rounding::Down => RoundingMode::Down,
        Rounding::HalfUp => RoundingMode::HalfUp,
        Rounding::HalfEven => RoundingMode::HalfEven,
        Rounding::Ceiling => RoundingMode::Ceiling,
        Rounding::Floor => RoundingMode::Floor,
    };
    let (i, scale) = x.with_scale_round(places, m).normalized().into_bigint_and_scale();
    Raw { int_val: i.to_signed_bytes_be(), scale }
}

/// `BigDecimal`'s order: that of the numbers.
#[verifier::external_body]
fn order_raw(a: &Raw, b: &Raw) -> (r: Ordering)
    requires
        in_range(a.dec()),
        in_range(b.dec()),
    ensures
        match r {
            Ordering::Less => less(a.dec(), b.dec()),
            Ordering::Equal => equal(a.dec(), b.dec()),
            Ordering::Greater => less(b.dec(), a.dec()),
        },
{
    let x = BigDecimal::new(BigInt::from_signed_bytes_be(&a.int_val), a.scale);
    let y = BigDecimal::new(BigInt::from_signed_bytes_be(&b.int_val), b.scale);
    x.cmp(&y)
}

/// `BigDecimal::to_i64` of an integer: it, when it fits.
#[verifier::external_body]
fn i64_raw(a: &Raw) -> (r: Option<i64>)
    requires
        -MAX_SCALE <= a.dec().scale <= 0,
    ensures
        match r {
            Some(n) => n == whole(a.dec()),
            None => !(i64::MIN <= whole(a.dec()) <= i64::MAX),
        },
{
    BigDecimal::new(BigInt::from_signed_bytes_be(&a.int_val), a.scale).to_i64()
}

/// `BigDecimal::with_scale` to a scale that is no lower, which keeps the
/// number, and `BigDecimal::to_plain_string` of it: the notation without an
/// exponent.
#[verifier::external_body]
fn plain_raw(a: &Raw, places: i64) -> (s: String)
    requires
        in_range(a.dec()),
        a.dec().scale <= places <= MAX_SCALE,
    ensures
        s@ == plain(at_scale(a.dec(), places as int), places as int),
{
    let x = BigDecimal::new(BigInt::from_signed_bytes_be(&a.int_val), a.scale);
    x.with_scale(places).to_plain_string()
}

/// `BigDecimal::to_scientific_notation`.
#[verifier::external_body]
fn scientific_raw(a: &Raw) -> (s: String)
    ensures
        s@ == scientific(a.dec()),
{
    BigDecimal::new(BigInt::from_signed_bytes_be(&a.int_val), a.scale).to_scientific_notation()
}

pub proof fn lowest_is_lowest(i: int, s: int)
    ensures
        is_lowest(lowest(i, s)),
    decreases abs(i),
{
    if i != 0 && i % 10 == 0 {
        lowest_is_lowest(i / 10, s - 1);
    }
}

proof fn lowest_of_opposite(i: int, s: int)
    ensures
        lowest(-i, s) == negated(lowest(i, s)),
    decreases abs(i),
{
    if i != 0 && i % 10 == 0 {
        assert((-i) % 10 == 0 && (-i) / 10 == -(i / 10));
        lowest_of_opposite(i / 10, s - 1);
    } else if i != 0 {
        assert((-i) % 10 != 0);
    }
}

proof fn lowest_scale(i: int, s: int, k: nat)
    requires
        abs(i) < pow(10, k),
    ensures
        i != 0 ==> s - k <= lowest(i, s).scale <= s,
    decreases k,
{
    reveal(pow);
    if i != 0 && i % 10 == 0 {
        assert(abs(i / 10) < pow(10, (k - 1) as nat)) by {
            assert(pow(10, k) == 10 * pow(10, (k - 1) as nat));
        }
        lowest_scale(i / 10, s - 1, (k - 1) as nat);
    }
}

/// What an operation gives: the number, or nothing when it is out of range.
pub open spec fn settled(d: Dec, r: Option<Number>) -> bool {
    match r {
        Some(n) => n@ == d && in_range(d),
        None => !in_range(d),
    }
}

impl Clone for Number {
    fn clone(&self) -> (r: Number)
        ensures
            r@ == self@,
    {
        proof {
            use_type_invariant(&*self);
        }
        Number { raw: Raw { int_val: self.raw.int_val.clone(), scale: self.raw.scale } }
    }
}

impl Number {
    #[verifier::type_invariant]
    spec fn valid(self) -> bool {
        in_range(self.raw.dec()) && is_lowest(self.raw.dec())
    }

    /// Every number is in range and in lowest terms.
    pub fn bounds(&self)
        ensures
            in_range(self@),
            is_lowest(self@),
    {
        proof {
            use_type_invariant(&*self);
        }
    }

    fn settle(raw: Raw) -> (r: Option<Number>)
        requires
            is_lowest(raw.dec()),
        ensures
            settled(raw.dec(), r),
    {
        if -MAX_SCALE <= raw.scale && raw.scale <= MAX_SCALE {
            Some(Number { raw })
        } else {
            None
        }
    }

    /// Parses a decimal literal such as `42`, `-1.5` or `1e3`.
    pub fn parse(s: &str) -> (r: Option<Number>)
        ensures
            match r {
                Some(n) => number_of(s@) == Some(n@),
                None => number_of(s@) is None,
            },
    {
        let raw = match parse_raw(s) {
            Some(raw) => raw,
            None => {
                return None;
            },
        };
        if raw.scale < -MAX_SCALE || raw.scale > MAX_SCALE {
            return None;
        }
        proof {
            lowest_is_lowest(raw.dec().int_val, raw.dec().scale);
        }
        Number::settle(normalize_raw(raw))
    }

    pub fn from_i64(n: i64) -> (r: Number)
        ensures
            r@ == integer(n as int),
    {
        proof {
            lowest_is_lowest(n as int, 0);
            assert(abs(n as int) < pow(10, 19)) by {
                reveal_with_fuel(pow, 20);
            }
            lowest_scale(n as int, 0, 19);
        }
        let raw = integer_raw(n);
        Number { raw }
    }

    /// The sum; nothing when it is out of range.
    pub fn plus(&self, other: &Number) -> (r: Option<Number>)
        ensures
            settled(sum(self@, other@), r),
    {
        proof {
            use_type_invariant(&*self);
            use_type_invariant(&*other);
            let s = max(self@.scale, other@.scale);
            lowest_is_lowest(at_scale(self@, s) + at_scale(other@, s), s);
        }
        Number::settle(add_raw(&self.raw, &other.raw))
    }

    /// The difference; nothing when it is out of range.
    pub fn minus(&self, other: &Number) -> (r: Option<Number>)
        ensures
            settled(difference(self@, other@), r),
    {
        proof {
            use_type_invariant(&*self);
            use_type_invariant(&*other);
            let s = max(self@.scale, other@.scale);
            lowest_is_lowest(at_scale(self@, s) - at_scale(other@, s), s);
        }
        Number::settle(sub_raw(&self.raw, &other.raw))
    }

    /// The product; nothing when it is out of range.
    pub fn times(&self, other: &Number) -> (r: Option<Number>)
        ensures
            settled(product(self@, other@), r),
    {
        proof {
            use_type_invariant(&*self);
            use_type_invariant(&*other);
            lowest_is_lowest(self@.int_val * other@.int_val, self@.scale + other@.scale);
        }
        Number::settle(mul_raw(&self.raw, &other.raw))
    }

    /// The quotient; nothing when it is out of range.
    pub fn over(&self, other: &Number) -> (r: Option<Number>)
        requires
            other@.int_val != 0,
        ensures
            settled(quotient(self@, other@), r),
    {
        proof {
            use_type_invariant(&*self);
            use_type_invariant(&*other);
        }
        Number::settle(div_raw(&self.raw, &other.raw))
    }

    /// The square root; nothing when it is out of range.
    pub fn sqrt(&self) -> (r: Option<Number>)
        requires
            self@.int_val >= 0,
        ensures
            settled(square_root(self@), r),
    {
        proof {
            use_type_invariant(&*self);
        }
        Number::settle(sqrt_raw(&self.raw))
    }

    pub fn negate(&self) -> (r: Number)
        ensures
            r@ == negated(self@),
    {
        proof {
            use_type_invariant(&*self);
            lowest_of_opposite(self@.int_val, self@.scale);
        }
        let raw = neg_raw(&self.raw);
        Number { raw }
    }

    pub fn abs(&self) -> (r: Number)
        ensures
            r@ == magnitude(self@),
    {
        proof {
            use_type_invariant(&*self);
            lowest_of_opposite(self@.int_val, self@.scale);
        }
        let raw = abs_raw(&self.raw);
        Number { raw }
    }

    /// The order of two numbers.
    pub fn order(&self, other: &Number) -> (r: Ordering)
        ensures
            match r {
                Ordering::Less => less(self@, other@),
                Ordering::Equal => equal(self@, other@),
                Ordering::Greater => less(other@, self@),
            },
    {
        proof {
            use_type_invariant(&*self);
            use_type_invariant(&*other);
        }
        order_raw(&self.raw, &other.raw)
    }

    /// Whether two numbers are the same.
    pub fn same(&self, other: &Number) -> (r: bool)
        ensures
            r == (self@ == other@),
    {
        self.bounds();
        other.bounds();
        match self.order(other) {
            Ordering::Equal => {
                proof {
                    equal_numbers_are_the_same(self@, other@);
                }
                true
            },
            _ => false,
        }
    }

    /// -1, 0 or 1, as the number is negative, zero or positive.
    pub fn sign(&self) -> (r: i64)
        ensures
            r == (if self@.int_val < 0 {
                -1int
            } else if self@.int_val == 0 {
                0
            } else {
                1
            }),
    {
        let zero = Number::from_i64(0);
        let ghost s = max(self@.scale, 0);
        proof {
            assert(zero@.int_val == 0 && zero@.scale == 0);
            positive_power(s - self@.scale);
            sign_at_scale(self@.int_val, ten_to(s - self@.scale));
            assert(at_scale(zero@, s) == 0);
        }
        match self.order(&zero) {
            Ordering::Less => -1,
            Ordering::Equal => 0,
            Ordering::Greater => 1,
        }
    }

    /// The number with at most `places` digits behind the decimal point;
    /// nothing when it is out of range.
    pub fn round(&self, places: i64, mode: Rounding) -> (r: Option<Number>)
        requires
            places >= -MAX_SCALE,
        ensures
            settled(rounded(self@, places as int, mode), r),
    {
        proof {
            use_type_invariant(&*self);
        }
        if places >= self.raw.scale {
            return Some(self.clone());
        }
        proof {
            let p = ten_to(self@.scale - places);
            lowest_is_lowest(rounded_quotient(self@.int_val, p, mode), places as int);
        }
        Number::settle(round_raw(&self.raw, places, mode))
    }

    /// The number with at most [`MAX_PRECISION`] significant digits; nothing
    /// when it is out of range.
    pub fn precise(&self) -> (r: Option<Number>)
        ensures
            settled(precise(self@), r),
    {
        proof {
            use_type_invariant(&*self);
            let d = self@;
            let extra = digit_count(d.int_val) - MAX_PRECISION;
            let mode = if d.int_val < 0 {
                Rounding::Down
            } else {
                Rounding::HalfUp
            };
            lowest_is_lowest(rounded_quotient(d.int_val, ten_to(extra), mode), d.scale - extra);
        }
        Number::settle(prec_raw(&self.raw, MAX_PRECISION))
    }

    /// Whether nothing stands behind the decimal point.
    pub fn is_integer(&self) -> (r: bool)
        ensures
            r == (self@.scale <= 0),
    {
        self.raw.scale <= 0
    }

    /// The integer part, when it fits.
    pub fn to_i64(&self) -> (r: Option<i64>)
        ensures
            match r {
                Some(n) => n == whole(self@),
                None => !(i64::MIN <= whole(self@) <= i64::MAX),
            },
    {
        proof {
            use_type_invariant(&*self);
        }
        if self.raw.scale > 0 {
            proof {
                let i = rounded_quotient(self@.int_val, ten_to(self@.scale), Rounding::Down);
                lowest_is_lowest(i, 0);
                lowest_keeps(i, 0);
                assert(ten_to(0) == 1) by {
                    reveal(pow);
                }
            }
            let cut = round_raw(&self.raw, 0, Rounding::Down);
            if cut.scale < -MAX_SCALE || cut.scale > 0 {
                proof {
                    let i = rounded_quotient(self@.int_val, ten_to(self@.scale), Rounding::Down);
                    lowest_not_above(i, 0);
                    out_of_i64(cut.dec());
                }
                return None;
            }
            i64_raw(&cut)
        } else if self.raw.scale < -19 {
            proof {
                out_of_i64(self@);
            }
            None
        } else {
            i64_raw(&self.raw)
        }
    }

    /// The notation without an exponent, with `places` digits behind the point.
    pub fn plain(&self, places: i64) -> (s: String)
        requires
            self@.scale <= places <= MAX_SCALE,
        ensures
            s@ == plain(at_scale(self@, places as int), places as int),
    {
        proof {
            use_type_invariant(&*self);
        }
        plain_raw(&self.raw, places)
    }

    /// The notation with an exponent.
    pub fn scientific(&self) -> (s: String)
        ensures
            s@ == scientific(self@),
    {
        scientific_raw(&self.raw)
    }

    pub fn scale(&self) -> (n: i64)
        ensures
            n == self@.scale,
            in_range(self@),
            is_lowest(self@),
    {
        proof {
            use_type_invariant(&*self);
        }
        self.raw.scale
    }
}

proof fn positive_power(n: int)
    ensures
        ten_to(n) > 0,
{
    vstd::arithmetic::power::lemma_pow_positive(10, n as nat);
}

proof fn sign_at_scale(i: int, p: int)
    requires
        p > 0,
    ensures
        i * p < 0 <==> i < 0,
        i * p == 0 <==> i == 0,
{
    assert(i * p < 0 <==> i < 0) by (nonlinear_arith)
        requires
            p > 0,
    ;
    assert(i * p == 0 <==> i == 0) by (nonlinear_arith)
        requires
            p > 0,
    ;
}

/// Going to lowest terms keeps the number: an integer stays that integer.
proof fn lowest_keeps(i: int, s: int)
    requires
        s <= 0,
    ensures
        lowest(i, s).scale <= 0,
        at_scale(lowest(i, s), 0) == i * ten_to(-s),
    decreases abs(i),
{
    if i != 0 && i % 10 == 0 {
        lowest_keeps(i / 10, s - 1);
        reveal(pow);
        assert(ten_to(1 - s) == 10 * ten_to(-s));
        assert(i / 10 * (10 * ten_to(-s)) == i * ten_to(-s)) by (nonlinear_arith)
            requires
                i % 10 == 0,
        ;
    }
}

pub proof fn lowest_not_above(i: int, s: int)
    ensures
        i != 0 ==> lowest(i, s).scale <= s,
        i == 0 ==> lowest(i, s).scale == 0,
        i != 0 ==> lowest(i, s).int_val != 0,
    decreases abs(i),
{
    if i != 0 && i % 10 == 0 {
        lowest_not_above(i / 10, s - 1);
    }
}

/// An integer with more than nineteen zeros at its end is beyond 64 bits.
proof fn out_of_i64(d: Dec)
    requires
        d.scale < -19,
        is_lowest(d),
    ensures
        !(i64::MIN <= whole(d) <= i64::MAX),
{
    assert(d.int_val != 0);
    vstd::arithmetic::power::lemma_pow_increases(10, 20, (-d.scale) as nat);
    assert(pow(10, 20) > 0xffff_ffff_ffff_ffff) by {
        reveal_with_fuel(pow, 21);
    }
    let p = ten_to(-d.scale);
    let i = d.int_val;
    assert(i * p >= p || i * p <= -p) by (nonlinear_arith)
        requires
            i != 0,
            p > 0,
    ;
}

/// An integer that is not zero is no zero as a number either.
pub proof fn integer_is_zero(i: int)
    ensures
        integer(i).int_val == 0 <==> i == 0,
{
    lowest_not_above(i, 0);
}

/// A number that was rounded has no more places than it was rounded to.
pub proof fn rounded_scale(d: Dec, places: int, mode: Rounding)
    requires
        places >= 0,
    ensures
        rounded(d, places, mode).scale <= places,
{
    if places < d.scale {
        lowest_not_above(rounded_quotient(d.int_val, ten_to(d.scale - places), mode), places);
    }
}

/// A text that starts with the zero of `0.` or `-0.`, without that zero.
pub open spec fn without_zero(s: Seq<char>) -> Seq<char> {
    if s.len() >= 2 && s[0] == '0' && s[1] == '.' {
        s.skip(1)
    } else if s.len() >= 3 && s[0] == '-' && s[1] == '0' && s[2] == '.' {
        seq!['-'] + s.skip(2)
    } else {
        s
    }
}

/// A number in Oracle's default notation.
pub open spec fn number_text(d: Dec) -> Seq<char> {
    let places = max(d.scale, 0);
    without_zero(plain(at_scale(d, places), places))
}

/// Formats a number the way Oracle's default TO_CHAR does: no exponent, no
/// trailing fractional zeros, and no leading zero before the decimal point.
pub fn format_number(n: &Number) -> (r: String)
    ensures
        r@ == number_text(n@),
{
    let scale: i64 = n.scale();
    let s = text::chars_of(
        &n.plain(
            if scale < 0 {
                0
            } else {
                scale
            },
        ),
    );
    let mut out: Vec<char> = Vec::new();
    let from: usize = if s.len() >= 2 && s[0] == '0' && s[1] == '.' {
        1
    } else if s.len() >= 3 && s[0] == '-' && s[1] == '0' && s[2] == '.' {
        out.push('-');
        2
    } else {
        0
    };
    let ghost head = out@;
    let mut i: usize = from;
    while i < s.len()
        invariant
            from <= i <= s@.len(),
            out@ == head + s@.subrange(from as int, i as int),
        decreases s@.len() - i,
    {
        out.push(s[i]);
        assert(s@.subrange(from as int, i + 1) =~= s@.subrange(from as int, i as int).push(s@[i as int]));
        i = i + 1;
    }
    assert(s@.subrange(from as int, s@.len() as int) =~= s@.skip(from as int));
    assert(s@.skip(0) =~= s@);
    assert(Seq::<char>::empty() + s@.skip(from as int) =~= s@.skip(from as int));
    text::string_of(&out)
}

proof fn power_of_ten(n: int)
    requires
        n > 0,
    ensures
        ten_to(n) > 0,
        forall|i: int| (#[trigger] (i * ten_to(n))) % 10 == 0,
{
    reveal(pow);
    vstd::arithmetic::power::lemma_pow_positive(10, n as nat);
    assert(ten_to(n) == 10 * pow(10, (n - 1) as nat));
    assert forall|i: int| (#[trigger] (i * ten_to(n))) % 10 == 0 by {
        assert(i * (10 * pow(10, (n - 1) as nat)) == 10 * (i * pow(10, (n - 1) as nat)))
            by (nonlinear_arith);
    }
}

/// Numbers in lowest terms that are equal have the same integer and scale.
pub proof fn equal_numbers_are_the_same(a: Dec, b: Dec)
    requires
        is_lowest(a),
        is_lowest(b),
        equal(a, b),
    ensures
        a == b,
{
    reveal(pow);
    assert(ten_to(0) == 1);
    if a.scale < b.scale {
        power_of_ten(b.scale - a.scale);
        let p = ten_to(b.scale - a.scale);
        assert(b.int_val == a.int_val * p);
        assert(b.int_val % 10 == 0);
        assert(b.int_val == 0) by {
            if b.int_val != 0 {
                scale_of_lowest(b.int_val / 10, b.scale - 1);
            }
        }
        assert(a.int_val == 0) by (nonlinear_arith)
            requires
                a.int_val * p == 0,
                p > 0,
        ;
    } else if b.scale < a.scale {
        power_of_ten(a.scale - b.scale);
        let p = ten_to(a.scale - b.scale);
        assert(a.int_val == b.int_val * p);
        assert(a.int_val % 10 == 0);
        assert(a.int_val == 0) by {
            if a.int_val != 0 {
                scale_of_lowest(a.int_val / 10, a.scale - 1);
            }
        }
        assert(b.int_val == 0) by (nonlinear_arith)
            requires
                b.int_val * p == 0,
                p > 0,
        ;
    }
}

proof fn scale_of_lowest(i: int, s: int)
    ensures
        i != 0 ==> lowest(i, s).scale <= s,
    decreases abs(i),
{
    if i != 0 && i % 10 == 0 {
        scale_of_lowest(i / 10, s - 1);
    }
}

} // verus!
