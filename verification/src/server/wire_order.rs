//! What the wire form of numbers keeps: their values and their order.

use vstd::arithmetic::power::{lemma_pow_adds, lemma_pow_increases, lemma_pow_positive, pow};
use vstd::prelude::*;
use vstd::string::*;

use crate::literals;
use crate::number;
use crate::number::Dec;
use crate::server::oranum;
use crate::server::oranum::Decimal;
use crate::strings;
use crate::text;

verus! {

/// Digits behind digits.
proof fn value_of_both(u: Seq<char>, v: Seq<char>)
    ensures
        number::digits_value(u + v) == number::digits_value(u) * pow(10, v.len())
            + number::digits_value(v),
    decreases v.len(),
{
    reveal(pow);
    if v.len() == 0 {
        assert(u + v =~= u);
        assert(number::digits_value(u) * pow(10, 0) == number::digits_value(u));
    } else {
        let w = v.drop_last();
        assert((u + v).drop_last() =~= u + w);
        assert((u + v).last() == v.last());
        value_of_both(u, w);
        let x = number::digits_value(u) as int;
        let p = pow(10, w.len());
        assert(pow(10, v.len()) == 10 * p);
        assert(x * (10 * p) == 10 * (x * p)) by (nonlinear_arith);
    }
}

proof fn value_is_bounded(s: Seq<char>)
    requires
        number::all_digits(s),
    ensures
        number::digits_value(s) < pow(10, s.len()),
    decreases s.len(),
{
    reveal(pow);
    if s.len() > 0 {
        assert(text::is_digit(s.last()));
        assert(number::all_digits(s.drop_last()));
        value_is_bounded(s.drop_last());
    }
}

/// Zeros at the front are dropped without a loss.
proof fn front_keeps_the_value(s: Seq<char>)
    requires
        number::all_digits(s),
    ensures
        ({
            let t = oranum::zero_front(s);
            &&& number::all_digits(t)
            &&& number::digits_value(t) == number::digits_value(s)
            &&& t.len() <= s.len()
            &&& t.len() > 0 ==> t[0] != '0'
        }),
    decreases s.len(),
{
    let set = seq!['0'];
    if s.len() > 0 {
        if set.contains(s[0]) {
            assert(s[0] == '0');
            let r = s.skip(1);
            assert(number::all_digits(r)) by {
                assert forall|k: int| 0 <= k < r.len() implies text::is_digit(#[trigger] r[k]) by {
                    assert(r[k] == s[k + 1]);
                }
            }
            front_keeps_the_value(r);
            literals::zeros_do_not_count(1, r);
            assert(Seq::new(1, |i: int| '0') + r =~= s);
        } else {
            if s[0] == '0' {
                assert(set[0] == s[0]);
            }
        }
    }
}

/// Zeros at the end are dropped: each is a factor of ten.
proof fn back_keeps_the_value(s: Seq<char>)
    requires
        number::all_digits(s),
    ensures
        ({
            let t = oranum::zero_back(s);
            &&& number::all_digits(t)
            &&& t.len() <= s.len()
            &&& t == s.take(t.len() as int)
            &&& number::digits_value(s) == number::digits_value(t) * pow(
                10,
                (s.len() - t.len()) as nat,
            )
            &&& t.len() > 0 ==> t.last() != '0'
        }),
    decreases s.len(),
{
    reveal(pow);
    let set = seq!['0'];
    let t = oranum::zero_back(s);
    if s.len() > 0 && set.contains(s.last()) {
        assert(s.last() == '0');
        let r = s.drop_last();
        assert(number::all_digits(r));
        back_keeps_the_value(r);
        let n = (r.len() - t.len()) as nat;
        let v = number::digits_value(t) as int;
        assert(pow(10, (n + 1) as nat) == 10 * pow(10, n));
        assert(v * (10 * pow(10, n)) == 10 * (v * pow(10, n))) by (nonlinear_arith);
        assert(s.take(t.len() as int) =~= r.take(t.len() as int));
    } else {
        assert(s.take(s.len() as int) =~= s);
        assert(number::digits_value(s) * pow(10, 0) == number::digits_value(s));
        if s.len() > 0 && s.last() == '0' {
            assert(set[0] == s.last());
        }
    }
}

/// Whether a decimal has no zeros at either end of its digits.
pub open spec fn is_tight(d: Decimal) -> bool {
    &&& number::all_digits(d.digits)
    &&& d.digits.len() > 0 ==> d.digits[0] != '0' && d.digits.last() != '0'
}

/// A decimal without its zeros stands for the same number.
proof fn tight_keeps_the_value(negative: bool, digits: Seq<char>, exponent: int)
    requires
        number::all_digits(digits),
    ensures
        is_tight(oranum::tight(negative, digits, exponent)),
        oranum::decimal_value(oranum::tight(negative, digits, exponent)) == number::lowest(
            if negative {
                -(number::digits_value(digits) as int)
            } else {
                number::digits_value(digits) as int
            },
            -exponent,
        ),
{
    front_keeps_the_value(digits);
    let front = oranum::zero_front(digits);
    back_keeps_the_value(front);
    let t = oranum::zero_back(front);
    if t.len() > 0 {
        assert(t[0] == front[0]);
    }
    let n = (front.len() - t.len()) as nat;
    let v = number::digits_value(t) as int;
    let i = if negative {
        -v
    } else {
        v
    };
    literals::lowest_with_zeros(i, -(exponent + n), n);
    assert((-v) * pow(10, n) == -(v * pow(10, n))) by (nonlinear_arith);
}

/// Whether a decimal is below the limit of the format, ten to the power 126.
pub open spec fn below_limit(d: Decimal) -> bool {
    d.digits.len() + d.exponent <= 126
}

/// The decimal of a literal stands for the number that the literal does.
pub proof fn a_literal_is_its_decimal(s: Seq<char>)
    requires
        number::literal(s) is Some,
        oranum::decimal_of(s) is Some,
        s.len() < 0x1000_0000_0000_0000,
    ensures
        is_tight(oranum::decimal_of(s)->0),
        number::number_of(s) == Some(oranum::decimal_value(oranum::decimal_of(s)->0)),
{
    reveal(number::literal);
    let negative = s.len() > 0 && s[0] == '-';
    let u = if negative {
        s.skip(1)
    } else {
        s
    };
    let letter = number::letter_from(u, 0);
    let m = match letter {
        Some(i) => u.take(i),
        None => u,
    };
    let power = match letter {
        Some(i) => oranum::exponent_of(u.skip(i + 1))->0,
        None => 0,
    };
    letter_is_inside(u, 0);
    point_is_inside(m, 0);
    let (digits, places) = number::without_point(m);
    assert(0 <= places <= s.len());
    assert(digits.len() <= s.len());
    tight_keeps_the_value(negative, digits, power - places);
    let i = if negative {
        -(number::digits_value(digits) as int)
    } else {
        number::digits_value(digits) as int
    };
    assert(number::literal(s) == Some((i, places - power)));
    value_is_bounded(digits);
    lowest_is_near(i, places - power, digits.len());
}

proof fn letter_is_inside(s: Seq<char>, i: int)
    requires
        0 <= i,
    ensures
        number::letter_from(s, i) matches Some(k) ==> i <= k < s.len(),
    decreases s.len() - i,
{
    if i < s.len() {
        letter_is_inside(s, i + 1);
    }
}

proof fn point_is_inside(s: Seq<char>, i: int)
    requires
        0 <= i,
    ensures
        strings::index_from(s, '.', i) matches Some(k) ==> i <= k < s.len(),
    decreases s.len() - i,
{
    if i < s.len() {
        point_is_inside(s, i + 1);
    }
}

/// Lowest terms lower the scale by no more than the number of digits.
proof fn lowest_is_near(i: int, s: int, n: nat)
    requires
        number::abs(i) < pow(10, n),
    ensures
        i != 0 ==> s - n <= number::lowest(i, s).scale <= s,
        i == 0 ==> number::lowest(i, s).scale == 0,
    decreases n,
{
    reveal(pow);
    if i != 0 && i % 10 == 0 {
        assert(n > 0);
        assert(number::abs(i / 10) < pow(10, (n - 1) as nat));
        lowest_is_near(i / 10, s - 1, (n - 1) as nat);
    }
}

/// A decimal below the limit fits the exponent byte.
proof fn limit_fits(d: Decimal)
    requires
        oranum::encodable(d),
        below_limit(d),
        d.digits.len() > 0,
    ensures
        oranum::in_wire_range(d),
{
}

/// A literal that is encoded and decoded again is the text of its number.
pub proof fn an_encoded_literal_is_decoded(s: Seq<char>)
    requires
        number::literal(s) is Some,
        oranum::encoded(s) is Some,
        below_limit(oranum::decimal_of(s)->0),
        s.len() < 0x1000_0000_0000_0000,
    ensures
        number::number_of(s) is Some,
        oranum::decoded(oranum::encoded(s)->0) == number::number_text(number::number_of(s)->0),
{
    a_literal_is_its_decimal(s);
    let d = oranum::decimal_of(s)->0;
    let b = oranum::wire(d);
    if d.digits.len() > 0 {
        limit_fits(d);
        oranum::wire_reads_back(d);
    } else {
        assert(b == seq![0x80u8]);
        assert(oranum::decoded(b) == "0"@);
        assert(oranum::decimal_value(d) == (Dec { int_val: 0, scale: 0 }));
        reveal_strlit("0");
        reveal(pow);
        let n = Dec { int_val: 0, scale: 0 };
        assert(number::at_scale(n, 0) == 0);
        assert(number::zeros(0) =~= Seq::<char>::empty());
        assert(number::plain(0, 0) =~= seq!['0']);
        assert(number::number_text(n) =~= "0"@);
    }
}

/// A number at a higher scale.
proof fn at_higher_scale(d: Dec, v: int, w: int)
    requires
        d.scale <= v <= w,
    ensures
        number::at_scale(d, w) == number::at_scale(d, v) * pow(10, (w - v) as nat),
{
    let a = (v - d.scale) as nat;
    let b = (w - v) as nat;
    lemma_pow_adds(10, a, b);
    let i = d.int_val;
    let p = pow(10, a);
    let q = pow(10, b);
    assert(i * (p * q) == (i * p) * q) by (nonlinear_arith);
}

/// The integer of a number in lowest terms at the scale it was given with.
proof fn lowest_at_its_scale(i: int, s: int)
    ensures
        i != 0 ==> number::lowest(i, s).scale <= s && number::at_scale(number::lowest(i, s), s) == i,
        i == 0 ==> number::lowest(i, s).int_val == 0,
    decreases number::abs(i),
{
    reveal(pow);
    if i != 0 {
        if i % 10 == 0 {
            lowest_at_its_scale(i / 10, s - 1);
            let d = number::lowest(i, s);
            at_higher_scale(d, s - 1, s);
            assert(pow(10, 0) == 1);
            assert(pow(10, 1) == 10 * pow(10, 0));
            assert(number::at_scale(d, s - 1) == i / 10);
            assert(number::at_scale(d, s) == (i / 10) * 10);
        } else {
            assert(pow(10, 0) == 1);
            assert(i * pow(10, 0) == i);
        }
    }
}

/// The integer of a number in lowest terms at any scale above its own.
proof fn lowest_at(i: int, s: int, u: int)
    requires
        u >= s,
    ensures
        i != 0 ==> number::lowest(i, s).scale <= s,
        number::at_scale(number::lowest(i, s), u) == i * pow(10, (u - s) as nat),
{
    lowest_at_its_scale(i, s);
    let d = number::lowest(i, s);
    if i != 0 {
        at_higher_scale(d, s, u);
    } else {
        assert(0 * number::ten_to(u - d.scale) == 0);
        assert(0 * pow(10, (u - s) as nat) == 0);
    }
}

/// Which of two numbers is less shows at any scale.
proof fn less_at_a_scale(i: int, s: int, j: int, t: int, u: int)
    requires
        u >= s,
        u >= t,
    ensures
        number::less(number::lowest(i, s), number::lowest(j, t)) == (i * pow(10, (u - s) as nat) < j
            * pow(10, (u - t) as nat)),
{
    let a = number::lowest(i, s);
    let b = number::lowest(j, t);
    let m = number::max(a.scale, b.scale);
    let w = number::max(u, m);
    lowest_at(i, s, w);
    lowest_at(j, t, w);
    lowest_at_its_scale(i, s);
    lowest_at_its_scale(j, t);
    let x = number::at_scale(a, m);
    let y = number::at_scale(b, m);
    let q = pow(10, (w - m) as nat);
    lemma_pow_positive(10, (w - m) as nat);
    at_higher_scale(a, m, w);
    at_higher_scale(b, m, w);
    assert((x < y) == (x * q < y * q)) by (nonlinear_arith)
        requires
            q > 0,
    ;
    let x2 = i * pow(10, (u - s) as nat);
    let y2 = j * pow(10, (u - t) as nat);
    let r = pow(10, (w - u) as nat);
    lemma_pow_positive(10, (w - u) as nat);
    lemma_pow_adds(10, (u - s) as nat, (w - u) as nat);
    lemma_pow_adds(10, (u - t) as nat, (w - u) as nat);
    assert(i * (pow(10, (u - s) as nat) * r) == x2 * r) by (nonlinear_arith)
        requires
            x2 == i * pow(10, (u - s) as nat),
    ;
    assert(j * (pow(10, (u - t) as nat) * r) == y2 * r) by (nonlinear_arith)
        requires
            y2 == j * pow(10, (u - t) as nat),
    ;
    assert((x2 < y2) == (x2 * r < y2 * r)) by (nonlinear_arith)
        requires
            r > 0,
    ;
}

/// Whether byte strings agree up to a place at which the first one ends or they
/// differ.
pub open spec fn agree_to(x: Seq<u8>, y: Seq<u8>, k: int) -> bool {
    &&& 0 <= k <= x.len()
    &&& k <= y.len()
    &&& x.take(k) == y.take(k)
}

/// Whether one byte string comes before another, byte by byte.
pub open spec fn before(x: Seq<u8>, y: Seq<u8>) -> bool {
    exists|k: int| #[trigger]
        agree_to(x, y, k) && k < y.len() && (k == x.len() || x[k] < y[k])
}

/// Two byte strings are the same, or one comes before the other.
proof fn one_comes_first(x: Seq<u8>, y: Seq<u8>, k: int)
    requires
        agree_to(x, y, k),
    ensures
        x == y || before(x, y) || before(y, x),
    decreases x.len() - k,
{
    if k == x.len() {
        if k == y.len() {
            assert(x.take(k) =~= x);
            assert(y.take(k) =~= y);
        }
    } else if k == y.len() {
        assert(agree_to(y, x, k));
    } else if x[k] == y[k] {
        assert(x.take(k + 1) =~= x.take(k).push(x[k]));
        assert(y.take(k + 1) =~= y.take(k).push(y[k]));
        one_comes_first(x, y, k + 1);
    } else {
        assert(agree_to(y, x, k));
    }
}

/// Whether a decimal has digits, none but those that count, and fits the format
/// with 38 of them at most.
pub open spec fn is_proper(d: Decimal) -> bool {
    &&& is_tight(d)
    &&& 0 < d.digits.len() <= 38
    &&& oranum::encodable(d)
    &&& below_limit(d)
}

pub open spec fn mantissa(d: Decimal) -> int {
    number::digits_value(oranum::even_digits(d)) as int
}

pub open spec fn pairs(d: Decimal) -> int {
    oranum::even_digits(d).len() as int / 2
}

/// The power of a hundred in front of which the first pair stands.
pub open spec fn order_of(d: Decimal) -> int {
    (oranum::even_exponent(d) + oranum::even_digits(d).len()) / 2
}

/// The value of the first `n` pairs.
pub open spec fn head(d: Decimal, n: int) -> int {
    number::digits_value(oranum::even_digits(d).take(2 * n)) as int
}

pub open spec fn hundreds(n: int) -> int {
    pow(10, (2 * n) as nat)
}

/// Facts about the pairs of a proper decimal.
proof fn proper_pairs(d: Decimal)
    requires
        is_proper(d),
    ensures
        number::all_digits(oranum::even_digits(d)),
        oranum::even_digits(d).len() == 2 * pairs(d),
        1 <= pairs(d) <= 20,
        oranum::even_exponent(d) == 2 * (order_of(d) - pairs(d)),
        -64 <= order_of(d) <= 63,
        forall|i: int|
            0 <= i < pairs(d) ==> 0 <= #[trigger] oranum::pair(oranum::even_digits(d), i) <= 99,
        oranum::pair(oranum::even_digits(d), 0) >= 1,
        oranum::pair(oranum::even_digits(d), pairs(d) - 1) >= 1,
        oranum::decimal_value(d) == number::lowest(
            if d.negative {
                -mantissa(d)
            } else {
                mantissa(d)
            },
            -oranum::even_exponent(d),
        ),
{
    let e = oranum::even_digits(d);
    oranum::even_digits_value(d);
    assert forall|i: int| 0 <= i < pairs(d) implies 0 <= #[trigger] oranum::pair(e, i) <= 99 by {
        assert(text::is_digit(e[2 * i]) && text::is_digit(e[2 * i + 1]));
    }
    let n = d.digits.len() as int;
    assert(text::is_digit(d.digits[0]) && text::is_digit(d.digits[n - 1]));
    let odd = d.exponent % 2 != 0;
    let tail = if odd {
        d.digits.push('0')
    } else {
        d.digits
    };
    assert(text::is_digit(e[0]) && text::is_digit(e[1]));
    if tail.len() % 2 == 1 {
        assert(e[1] == tail[0]);
        assert(tail[0] == d.digits[0]);
    } else {
        assert(e[0] == tail[0]);
        assert(tail[0] == d.digits[0]);
    }
    let k = e.len() as int;
    assert(text::is_digit(e[k - 1]) && text::is_digit(e[k - 2]));
    assert(e[k - 1] == tail.last());
    if odd {
        assert(tail.len() >= 2);
        assert(e[k - 2] == d.digits.last());
    } else {
        assert(e[k - 1] == d.digits.last());
    }
    if odd {
        let v = number::digits_value(d.digits) as int;
        oranum::lowest_of_ten_times(
            if d.negative {
                -v
            } else {
                v
            },
            -d.exponent,
        );
    }
}

/// One pair more.
proof fn head_grows(d: Decimal, n: int)
    requires
        is_proper(d),
        0 <= n < pairs(d),
    ensures
        head(d, n + 1) == head(d, n) * 100 + oranum::pair(oranum::even_digits(d), n),
{
    proper_pairs(d);
    let e = oranum::even_digits(d);
    let t = e.take(2 * n + 2);
    assert(text::is_digit(e[2 * n]) && text::is_digit(e[2 * n + 1]));
    assert(t.drop_last() =~= e.take(2 * n + 1));
    assert(t.drop_last().drop_last() =~= e.take(2 * n));
    assert(t.last() == e[2 * n + 1]);
    assert(t.drop_last().last() == e[2 * n]);
    assert(2 * (n + 1) == 2 * n + 2);
    let x = number::digits_value(e.take(2 * n)) as int;
    let hi = (e[2 * n] as u32 - 48) as int;
    let lo = (e[2 * n + 1] as u32 - 48) as int;
    assert(number::digits_value(t.drop_last()) == x * 10 + hi);
    assert(number::digits_value(t) == (x * 10 + hi) * 10 + lo);
}

/// The mantissa from the pairs in front and what is behind them.
proof fn mantissa_from(d: Decimal, n: int)
    requires
        is_proper(d),
        0 <= n <= pairs(d),
    ensures
        head(d, n) * hundreds(pairs(d) - n) <= mantissa(d),
        mantissa(d) < (head(d, n) + 1) * hundreds(pairs(d) - n),
        n < pairs(d) ==> head(d, n) * hundreds(pairs(d) - n) < mantissa(d),
{
    proper_pairs(d);
    let e = oranum::even_digits(d);
    let u = e.take(2 * n);
    let v = e.skip(2 * n);
    assert(u + v =~= e);
    value_of_both(u, v);
    assert(number::all_digits(v)) by {
        assert forall|k: int| 0 <= k < v.len() implies text::is_digit(#[trigger] v[k]) by {
            assert(v[k] == e[2 * n + k]);
        }
    }
    value_is_bounded(v);
    assert(v.len() == 2 * (pairs(d) - n));
    let h = head(d, n);
    let q = hundreds(pairs(d) - n);
    assert((h + 1) * q == h * q + q) by (nonlinear_arith);
    if n < pairs(d) {
        let k = v.len() as int;
        assert(v[k - 1] == e[e.len() - 1] && v[k - 2] == e[e.len() - 2]);
        assert(text::is_digit(v[k - 1]) && text::is_digit(v[k - 2]));
        assert(v.last() == v[k - 1]);
        assert(v.drop_last().last() == v[k - 2]);
        let p = pairs(d) - 1;
        assert(2 * p == e.len() - 2);
        assert(number::digits_value(v.drop_last()) == number::digits_value(
            v.drop_last().drop_last(),
        ) * 10 + (v[k - 2] as u32 - 48));
    }
}

/// The bytes of a decimal without its sign.
pub open spec fn unsigned_wire(d: Decimal) -> Seq<u8> {
    oranum::wire(Decimal { negative: false, ..d })
}

/// The bytes of a proper decimal: the order, and its pairs.
proof fn unsigned_bytes(d: Decimal)
    requires
        is_proper(d),
    ensures
        ({
            let w = unsigned_wire(d);
            &&& w.len() == 1 + pairs(d)
            &&& w[0] == order_of(d) + 192
            &&& forall|i: int|
                0 <= i < pairs(d) ==> #[trigger] w[i + 1] == oranum::pair(oranum::even_digits(d), i)
                    + 1
        }),
{
    let p = Decimal { negative: false, ..d };
    proper_pairs(d);
    let e = oranum::even_digits(d);
    assert(oranum::even_digits(p) == e);
    let w = unsigned_wire(d);
    assert forall|i: int| 0 <= i < pairs(d) implies #[trigger] w[i + 1] == oranum::pair(e, i) + 1 by {
        assert(0 <= oranum::pair(e, i) <= 99);
    }
}

/// Pairs that agree have the same value.
proof fn heads_agree(a: Decimal, b: Decimal, n: int)
    requires
        is_proper(a),
        is_proper(b),
        0 <= n <= pairs(a),
        n <= pairs(b),
        forall|i: int|
            0 <= i < n ==> #[trigger] oranum::pair(oranum::even_digits(a), i) == oranum::pair(
                oranum::even_digits(b),
                i,
            ),
    ensures
        head(a, n) == head(b, n),
    decreases n,
{
    if n > 0 {
        heads_agree(a, b, n - 1);
        head_grows(a, n - 1);
        head_grows(b, n - 1);
        assert(oranum::pair(oranum::even_digits(a), n - 1) == oranum::pair(
            oranum::even_digits(b),
            n - 1,
        ));
    } else {
        assert(oranum::even_digits(a).take(0) =~= oranum::even_digits(b).take(0));
    }
}

/// Pairs from bytes that agree.
proof fn pairs_agree(a: Decimal, b: Decimal, k: int)
    requires
        is_proper(a),
        is_proper(b),
        k >= 1,
        agree_to(unsigned_wire(a), unsigned_wire(b), k),
    ensures
        order_of(a) == order_of(b),
        k - 1 <= pairs(a),
        k - 1 <= pairs(b),
        head(a, k - 1) == head(b, k - 1),
{
    unsigned_bytes(a);
    unsigned_bytes(b);
    proper_pairs(a);
    proper_pairs(b);
    let x = unsigned_wire(a);
    let y = unsigned_wire(b);
    assert(x[0] == x.take(k)[0] && y[0] == y.take(k)[0]);
    assert forall|i: int| 0 <= i < k - 1 implies #[trigger] oranum::pair(oranum::even_digits(a), i)
        == oranum::pair(oranum::even_digits(b), i) by {
        assert(x[i + 1] == x.take(k)[i + 1] && y[i + 1] == y.take(k)[i + 1]);
    }
    heads_agree(a, b, k - 1);
}

/// The mantissas as integers at one scale.
pub open spec fn scaled(d: Decimal, low: int) -> int {
    mantissa(d) * hundreds(order_of(d) - pairs(d) - low)
}

proof fn hundreds_add(a: int, b: int)
    requires
        a >= 0,
        b >= 0,
    ensures
        hundreds(a + b) == hundreds(a) * hundreds(b),
        hundreds(a) > 0,
{
    lemma_pow_adds(10, (2 * a) as nat, (2 * b) as nat);
    lemma_pow_positive(10, (2 * a) as nat);
    assert(2 * (a + b) == 2 * a + 2 * b);
}

/// Bytes that come first stand for the smaller magnitude.
#[verifier::rlimit(40)]
#[verifier::spinoff_prover]
proof fn smaller_comes_first(a: Decimal, b: Decimal, low: int)
    requires
        is_proper(a),
        is_proper(b),
        low <= order_of(a) - pairs(a),
        low <= order_of(b) - pairs(b),
        before(unsigned_wire(a), unsigned_wire(b)),
    ensures
        scaled(a, low) < scaled(b, low),
{
    let x = unsigned_wire(a);
    let y = unsigned_wire(b);
    let k = choose|k: int| #[trigger]
        agree_to(x, y, k) && k < y.len() && (k == x.len() || x[k] < y[k]);
    unsigned_bytes(a);
    unsigned_bytes(b);
    proper_pairs(a);
    proper_pairs(b);
    let na = pairs(a);
    let nb = pairs(b);
    let fa = order_of(a) - na - low;
    let fb = order_of(b) - nb - low;
    let ma = mantissa(a);
    let mb = mantissa(b);
    hundreds_add(fa, 0);
    hundreds_add(fb, 0);
    if k == 0 {
        mantissa_from(a, 0);
        mantissa_from(b, 1);
        head_grows(b, 0);
        assert(oranum::even_digits(a).take(0) =~= Seq::<char>::empty());
        assert(oranum::even_digits(b).take(0) =~= Seq::<char>::empty());
        assert(head(a, 0) == 0 && head(b, 0) == 0);
        let p = hundreds(na);
        let q = hundreds(fa);
        assert(ma * q < p * q) by (nonlinear_arith)
            requires
                ma < (0 + 1) * p,
                q > 0,
        ;
        hundreds_add(na, fa);
        let r = hundreds(nb - 1);
        let t = hundreds(fb);
        hundreds_add(nb - 1, fb);
        hundreds_add(nb - 1, 0);
        assert(r <= mb) by {
            let h = head(b, 1);
            assert(r <= h * r) by (nonlinear_arith)
                requires
                    h >= 1,
                    r > 0,
            ;
        }
        assert(r * t <= mb * t) by (nonlinear_arith)
            requires
                r <= mb,
                t > 0,
        ;
        lemma_pow_increases(10, (2 * (na + fa)) as nat, (2 * (nb - 1 + fb)) as nat);
    } else {
        pairs_agree(a, b, k);
        let j = k - 1;
        let h = head(a, j);
        if k == x.len() {
            assert(na == j);
            mantissa_from(a, j);
            mantissa_from(b, j);
            hundreds_add(0, 0);
            assert(hundreds(0) == 1) by {
                reveal(pow);
            }
            assert(ma == h) by {
                assert(oranum::even_digits(a).take(2 * j) =~= oranum::even_digits(a));
            }
            hundreds_add(nb - j, fb);
            let g = hundreds(nb - j);
            let t = hundreds(fb);
            assert(h * (g * t) == (h * g) * t) by (nonlinear_arith);
            assert((h * g) * t < mb * t) by (nonlinear_arith)
                requires
                    h * g < mb,
                    t > 0,
            ;
            assert(fa == nb - j + fb);
        } else {
            head_grows(a, j);
            head_grows(b, j);
            assert(x[j + 1] < y[j + 1]);
            let ha = head(a, k);
            let hb = head(b, k);
            assert(ha + 1 <= hb);
            mantissa_from(a, k);
            mantissa_from(b, k);
            let ga = hundreds(na - k);
            let gb = hundreds(nb - k);
            let qa = hundreds(fa);
            let qb = hundreds(fb);
            hundreds_add(na - k, fa);
            hundreds_add(nb - k, fb);
            assert(na - k + fa == nb - k + fb);
            let z = ga * qa;
            assert(z == gb * qb);
            assert(ma * qa < ((ha + 1) * ga) * qa) by (nonlinear_arith)
                requires
                    ma < (ha + 1) * ga,
                    qa > 0,
            ;
            assert(((ha + 1) * ga) * qa == (ha + 1) * z) by (nonlinear_arith)
                requires
                    z == ga * qa,
            ;
            assert(z > 0) by (nonlinear_arith)
                requires
                    z == ga * qa,
                    ga > 0,
                    qa > 0,
            ;
            assert((ha + 1) * z <= hb * z) by (nonlinear_arith)
                requires
                    ha + 1 <= hb,
                    z > 0,
            ;
            assert(hb * z == (hb * gb) * qb) by (nonlinear_arith)
                requires
                    z == gb * qb,
            ;
            assert((hb * gb) * qb <= mb * qb) by (nonlinear_arith)
                requires
                    hb * gb <= mb,
                    qb > 0,
            ;
        }
    }
}

/// Which of two decimals is less, by their mantissas at one scale.
proof fn less_by_mantissas(a: Decimal, b: Decimal, low: int)
    requires
        is_proper(a),
        is_proper(b),
        low <= order_of(a) - pairs(a),
        low <= order_of(b) - pairs(b),
    ensures
        ({
            let x = if a.negative {
                -scaled(a, low)
            } else {
                scaled(a, low)
            };
            let y = if b.negative {
                -scaled(b, low)
            } else {
                scaled(b, low)
            };
            number::less(oranum::decimal_value(a), oranum::decimal_value(b)) == (x < y)
        }),
        scaled(a, low) > 0,
        scaled(b, low) > 0,
{
    proper_pairs(a);
    proper_pairs(b);
    let ma = mantissa(a);
    let mb = mantissa(b);
    let i = if a.negative {
        -ma
    } else {
        ma
    };
    let j = if b.negative {
        -mb
    } else {
        mb
    };
    let u = -2 * low;
    less_at_a_scale(i, -oranum::even_exponent(a), j, -oranum::even_exponent(b), u);
    let p = hundreds(order_of(a) - pairs(a) - low);
    let q = hundreds(order_of(b) - pairs(b) - low);
    hundreds_add(order_of(a) - pairs(a) - low, 0);
    hundreds_add(order_of(b) - pairs(b) - low, 0);
    assert(u + oranum::even_exponent(a) == 2 * (order_of(a) - pairs(a) - low));
    assert(u + oranum::even_exponent(b) == 2 * (order_of(b) - pairs(b) - low));
    assert((-ma) * p == -(ma * p)) by (nonlinear_arith);
    assert((-mb) * q == -(mb * q)) by (nonlinear_arith);
    mantissa_from(a, 1);
    mantissa_from(b, 1);
    head_grows(a, 0);
    head_grows(b, 0);
    assert(oranum::even_digits(a).take(0) =~= Seq::<char>::empty());
    assert(oranum::even_digits(b).take(0) =~= Seq::<char>::empty());
    assert(head(a, 0) == 0 && head(b, 0) == 0);
    hundreds_add(pairs(a) - 1, 0);
    hundreds_add(pairs(b) - 1, 0);
    let ha = head(a, 1);
    let hb = head(b, 1);
    let ra = hundreds(pairs(a) - 1);
    let rb = hundreds(pairs(b) - 1);
    assert(ha * ra > 0) by (nonlinear_arith)
        requires
            ha >= 1,
            ra > 0,
    ;
    assert(hb * rb > 0) by (nonlinear_arith)
        requires
            hb >= 1,
            rb > 0,
    ;
    assert(ma * p > 0) by (nonlinear_arith)
        requires
            ma > 0,
            p > 0,
    ;
    assert(mb * q > 0) by (nonlinear_arith)
        requires
            mb > 0,
            q > 0,
    ;
}

/// The bytes of a negative decimal.
proof fn negative_bytes(d: Decimal)
    requires
        is_proper(d),
        d.negative,
    ensures
        ({
            let w = oranum::wire(d);
            &&& w.len() == (if pairs(d) < 20 {
                2 + pairs(d)
            } else {
                1 + pairs(d)
            })
            &&& w[0] == 63 - order_of(d)
            &&& forall|i: int|
                0 <= i < pairs(d) ==> #[trigger] w[i + 1] == 101 - oranum::pair(
                    oranum::even_digits(d),
                    i,
                )
            &&& pairs(d) < 20 ==> w[pairs(d) + 1] == 102
        }),
{
    proper_pairs(d);
    let e = oranum::even_digits(d);
    let w = oranum::wire(d);
    assert forall|i: int| 0 <= i < pairs(d) implies #[trigger] w[i + 1] == 101 - oranum::pair(e, i) by {
        assert(0 <= oranum::pair(e, i) <= 99);
    }
}

/// Between negative decimals the order of the bytes is turned round.
proof fn negatives_are_reversed(a: Decimal, b: Decimal)
    requires
        is_proper(a),
        is_proper(b),
        a.negative,
        b.negative,
        before(oranum::wire(a), oranum::wire(b)),
    ensures
        before(unsigned_wire(b), unsigned_wire(a)),
{
    let x = oranum::wire(a);
    let y = oranum::wire(b);
    let k = choose|k: int| #[trigger]
        agree_to(x, y, k) && k < y.len() && (k == x.len() || x[k] < y[k]);
    negative_bytes(a);
    negative_bytes(b);
    unsigned_bytes(a);
    unsigned_bytes(b);
    proper_pairs(a);
    proper_pairs(b);
    let na = pairs(a);
    let nb = pairs(b);
    let ea = oranum::even_digits(a);
    let eb = oranum::even_digits(b);
    assert forall|i: int| 0 <= i < k implies #[trigger] x[i] == y[i] by {
        assert(x[i] == x.take(k)[i] && y[i] == y.take(k)[i]);
    }
    assert(k <= na) by {
        if k > na {
            if k > na + 1 {
                assert(x[na + 1] == 102);
                assert(y[na + 1] == 102);
                if na < nb {
                    assert(y[na + 1] == 101 - oranum::pair(eb, na));
                    assert(0 <= oranum::pair(eb, na));
                }
                assert(na == nb);
            } else if na < 20 {
                assert(x[k] == 102);
                if k <= nb {
                    assert(y[(k - 1) + 1] == 101 - oranum::pair(eb, k - 1));
                    assert(0 <= oranum::pair(eb, k - 1));
                } else {
                    assert(k == nb + 1);
                    assert(y[k] == 102);
                }
            }
        }
    }
    let u = unsigned_wire(a);
    let v = unsigned_wire(b);
    assert(k <= nb + 1);
    assert forall|i: int| 0 <= i < k implies #[trigger] u[i] == v[i] by {
        assert(x[i] == y[i]);
        if i > 0 {
            assert(x[(i - 1) + 1] == 101 - oranum::pair(ea, i - 1));
            assert(y[(i - 1) + 1] == 101 - oranum::pair(eb, i - 1));
            assert(u[(i - 1) + 1] == oranum::pair(ea, i - 1) + 1);
            assert(v[(i - 1) + 1] == oranum::pair(eb, i - 1) + 1);
        }
    }
    assert(v.take(k) =~= u.take(k));
    assert(agree_to(v, u, k));
    if k <= nb && k > 0 {
        assert(x[(k - 1) + 1] == 101 - oranum::pair(ea, k - 1));
        assert(y[(k - 1) + 1] == 101 - oranum::pair(eb, k - 1));
        assert(u[(k - 1) + 1] == oranum::pair(ea, k - 1) + 1);
        assert(v[(k - 1) + 1] == oranum::pair(eb, k - 1) + 1);
    }
}

/// Whether a decimal is zero or a proper one.
pub open spec fn fits(d: Decimal) -> bool {
    is_proper(d) || d.digits.len() == 0
}

/// The first byte tells the sign.
proof fn first_byte(d: Decimal)
    requires
        is_proper(d),
    ensures
        d.negative ==> oranum::wire(d)[0] < 128,
        !d.negative ==> oranum::wire(d)[0] >= 128 && oranum::wire(d) == unsigned_wire(d),
        1 < oranum::wire(d).len() <= 22,
{
    proper_pairs(d);
    unsigned_bytes(d);
    if d.negative {
        negative_bytes(d);
    } else {
        assert(d == (Decimal { negative: false, ..d }));
    }
}

pub open spec fn lower_of(a: int, b: int) -> int {
    if a < b {
        a
    } else {
        b
    }
}

/// Zero is between the negative and the positive numbers.
proof fn zero_is_between(d: Decimal)
    requires
        is_proper(d),
    ensures
        ({
            let zero = Dec { int_val: 0, scale: 0 };
            let v = oranum::decimal_value(d);
            &&& d.negative ==> number::less(v, zero)
            &&& !d.negative ==> number::less(zero, v)
        }),
{
    let low = order_of(d) - pairs(d);
    less_by_mantissas(d, d, low);
    proper_pairs(d);
    hundreds_add(0, 0);
    assert(hundreds(0) == 1) by {
        reveal(pow);
    }
    let m = mantissa(d);
    assert(m * 1 == m);
    let i = if d.negative {
        -m
    } else {
        m
    };
    let s = -oranum::even_exponent(d);
    let u = number::max(s, 0);
    less_at_a_scale(0, 0, i, s, u);
    less_at_a_scale(i, s, 0, 0, u);
    let p = pow(10, (u - s) as nat);
    lemma_pow_positive(10, (u - s) as nat);
    assert(0 * pow(10, u as nat) == 0);
    assert(i * p < 0 <==> i < 0) by (nonlinear_arith)
        requires
            p > 0,
    ;
    assert(i * p > 0 <==> i > 0) by (nonlinear_arith)
        requires
            p > 0,
    ;
    assert(number::lowest(0, 0) == (Dec { int_val: 0, scale: 0 }));
}

/// Bytes that come first stand for the smaller number.
proof fn what_comes_first_is_less(a: Decimal, b: Decimal)
    requires
        fits(a),
        fits(b),
        before(oranum::wire(a), oranum::wire(b)),
    ensures
        number::less(oranum::decimal_value(a), oranum::decimal_value(b)),
{
    let x = oranum::wire(a);
    let y = oranum::wire(b);
    let k = choose|k: int| #[trigger]
        agree_to(x, y, k) && k < y.len() && (k == x.len() || x[k] < y[k]);
    let zero = Dec { int_val: 0, scale: 0 };
    if k > 0 {
        assert(x[0] == x.take(k)[0] && y[0] == y.take(k)[0]);
    }
    if a.digits.len() == 0 {
        assert(oranum::decimal_value(a) == zero);
        assert(x == seq![0x80u8]);
        if b.digits.len() == 0 {
            assert(y == x);
        } else {
            first_byte(b);
            zero_is_between(b);
        }
    } else if b.digits.len() == 0 {
        assert(oranum::decimal_value(b) == zero);
        assert(y == seq![0x80u8]);
        first_byte(a);
        zero_is_between(a);
    } else {
        first_byte(a);
        first_byte(b);
        let low = lower_of(order_of(a) - pairs(a), order_of(b) - pairs(b));
        less_by_mantissas(a, b, low);
        if !a.negative && !b.negative {
            smaller_comes_first(a, b, low);
        } else if a.negative && b.negative {
            negatives_are_reversed(a, b);
            smaller_comes_first(b, a, low);
        }
    }
}

/// The same bytes stand for the same number.
proof fn the_same_bytes_are_one_number(a: Decimal, b: Decimal)
    requires
        fits(a),
        fits(b),
        oranum::wire(a) == oranum::wire(b),
    ensures
        oranum::decimal_value(a) == oranum::decimal_value(b),
{
    let x = oranum::wire(a);
    let y = oranum::wire(b);
    if a.digits.len() == 0 || b.digits.len() == 0 {
        if a.digits.len() > 0 {
            first_byte(a);
        }
        if b.digits.len() > 0 {
            first_byte(b);
        }
    } else {
        first_byte(a);
        first_byte(b);
        proper_pairs(a);
        proper_pairs(b);
        unsigned_bytes(a);
        unsigned_bytes(b);
        let ea = oranum::even_digits(a);
        let eb = oranum::even_digits(b);
        if a.negative {
            negative_bytes(a);
            negative_bytes(b);
            assert(pairs(a) == pairs(b)) by {
                let na = pairs(a);
                let nb = pairs(b);
                if na < nb {
                    assert(x.len() == y.len());
                    assert(nb == 20 && na == 19);
                    assert(x[na + 1] == 102);
                    assert(y[na + 1] == 101 - oranum::pair(eb, na));
                    assert(0 <= oranum::pair(eb, na));
                } else if nb < na {
                    assert(na == 20 && nb == 19);
                    assert(y[nb + 1] == 102);
                    assert(x[nb + 1] == 101 - oranum::pair(ea, nb));
                    assert(0 <= oranum::pair(ea, nb));
                }
            }
            assert forall|i: int| 0 <= i < pairs(a) implies #[trigger] oranum::pair(ea, i)
                == oranum::pair(eb, i) by {
                assert(x[i + 1] == 101 - oranum::pair(ea, i));
                assert(y[i + 1] == 101 - oranum::pair(eb, i));
            }
        } else {
            assert forall|i: int| 0 <= i < pairs(a) implies #[trigger] oranum::pair(ea, i)
                == oranum::pair(eb, i) by {
                assert(x[i + 1] == oranum::pair(ea, i) + 1);
                assert(y[i + 1] == oranum::pair(eb, i) + 1);
            }
        }
        heads_agree(a, b, pairs(a));
        assert(ea.take(2 * pairs(a)) =~= ea);
        assert(eb.take(2 * pairs(b)) =~= eb);
    }
}

/// The wire form keeps the order of numbers: the bytes of one literal come before
/// those of another exactly where it is the smaller number, and are the same exactly
/// where both are one number. They are 22 at most.
pub proof fn the_wire_form_keeps_the_order(s: Seq<char>, t: Seq<char>)
    requires
        number::literal(s) is Some,
        number::literal(t) is Some,
        s.len() < 0x1000_0000_0000_0000,
        t.len() < 0x1000_0000_0000_0000,
        oranum::encoded(s) is Some,
        oranum::encoded(t) is Some,
        oranum::decimal_of(s)->0.digits.len() <= 38,
        oranum::decimal_of(t)->0.digits.len() <= 38,
        below_limit(oranum::decimal_of(s)->0),
        below_limit(oranum::decimal_of(t)->0),
    ensures
        number::number_of(s) is Some,
        number::number_of(t) is Some,
        ({
            let x = oranum::encoded(s)->0;
            let y = oranum::encoded(t)->0;
            let m = number::number_of(s)->0;
            let n = number::number_of(t)->0;
            &&& before(x, y) == number::less(m, n)
            &&& (x == y) == (m == n)
            &&& x.len() <= 22
        }),
{
    a_literal_is_its_decimal(s);
    a_literal_is_its_decimal(t);
    let a = oranum::decimal_of(s)->0;
    let b = oranum::decimal_of(t)->0;
    let x = oranum::wire(a);
    let y = oranum::wire(b);
    assert(fits(a) && fits(b));
    if a.digits.len() > 0 {
        first_byte(a);
    }
    assert(x.take(0) =~= y.take(0));
    assert(agree_to(x, y, 0));
    one_comes_first(x, y, 0);
    if x == y {
        the_same_bytes_are_one_number(a, b);
        if before(x, y) {
            what_comes_first_is_less(a, b);
        }
    } else if before(x, y) {
        what_comes_first_is_less(a, b);
    } else {
        what_comes_first_is_less(b, a);
    }
}

} // verus!
