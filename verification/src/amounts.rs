//! What arithmetic comes to, and what a column keeps of a value, said of the amounts
//! themselves.

use vstd::arithmetic::power::{lemma_pow_adds, lemma_pow_positive, pow};
use vstd::prelude::*;
use vstd::utf8::*;

use crate::ast::BinaryOp;
use crate::builtins::{is_rounding, rounding_goes_to_the_unit, worth_of_lowest};
use crate::conditions::{applied, operator_value, worth};
use crate::datetime;
use crate::datetime::Moment;
use crate::env::Setting;
use crate::error::Failure;
use crate::eval::{evaluated, Scene};
use crate::functions;
use crate::number;
use crate::number::{Dec, Rounding};
use crate::store;
use crate::store::{stored_value, Place};
use crate::text;
use crate::tree::Expr;
use crate::value::{Datum, SqlType};

verus! {

// ---- arithmetic ----

proof fn worth_at(a: Dec, m: int, s: int)
    requires
        a.scale <= m <= s,
    ensures
        number::at_scale(a, m) * pow(10, (s - m) as nat) == worth(a, s),
{
    let (p, q) = (pow(10, (m - a.scale) as nat), pow(10, (s - m) as nat));
    lemma_pow_adds(10, (m - a.scale) as nat, (s - m) as nat);
    assert((a.int_val * p) * q == a.int_val * (p * q)) by (nonlinear_arith);
}

/// The sum of two numbers is worth what the two are together, and their difference what the
/// first is without the second. They are refused only where the result has more digits than
/// any number.
pub proof fn sums_and_differences(sc: Scene, x: Expr, y: Expr, a: Dec, b: Dec, s: int)
    requires
        evaluated(sc, x) == Ok::<Datum, Failure>(Datum::Number(a)),
        evaluated(sc, y) == Ok::<Datum, Failure>(Datum::Number(b)),
        a.scale <= s,
        b.scale <= s,
    ensures
        match evaluated(sc, applied(BinaryOp::Add, x, y)) {
            Ok(Datum::Number(r)) => worth(r, s) == worth(a, s) + worth(b, s),
            Ok(_) => false,
            Err(e) => e == functions::overflow() && !number::in_range(number::sum(a, b)),
        },
        match evaluated(sc, applied(BinaryOp::Sub, x, y)) {
            Ok(Datum::Number(r)) => worth(r, s) == worth(a, s) - worth(b, s),
            Ok(_) => false,
            Err(e) => e == functions::overflow() && !number::in_range(number::difference(a, b)),
        },
{
    operator_value(sc, BinaryOp::Add, x, y);
    operator_value(sc, BinaryOp::Sub, x, y);
    let m = number::max(a.scale, b.scale);
    worth_at(a, m, s);
    worth_at(b, m, s);
    let (i, j) = (number::at_scale(a, m), number::at_scale(b, m));
    worth_of_lowest(i + j, m, s);
    worth_of_lowest(i - j, m, s);
    let p = pow(10, (s - m) as nat);
    assert((i + j) * p == i * p + j * p) by (nonlinear_arith);
    assert((i - j) * p == i * p - j * p) by (nonlinear_arith);
}

/// The product of two numbers is worth the first as often as the second says.
pub proof fn products(sc: Scene, x: Expr, y: Expr, a: Dec, b: Dec, s: int, t: int)
    requires
        evaluated(sc, x) == Ok::<Datum, Failure>(Datum::Number(a)),
        evaluated(sc, y) == Ok::<Datum, Failure>(Datum::Number(b)),
        a.scale <= s,
        b.scale <= t,
    ensures
        match evaluated(sc, applied(BinaryOp::Mul, x, y)) {
            Ok(Datum::Number(r)) => worth(r, s + t) == worth(a, s) * worth(b, t),
            Ok(_) => false,
            Err(e) => e == functions::overflow() && !number::in_range(number::product(a, b)),
        },
{
    operator_value(sc, BinaryOp::Mul, x, y);
    worth_of_lowest(a.int_val * b.int_val, a.scale + b.scale, s + t);
    let (p, q) = (pow(10, (s - a.scale) as nat), pow(10, (t - b.scale) as nat));
    lemma_pow_adds(10, (s - a.scale) as nat, (t - b.scale) as nat);
    let (i, j) = (a.int_val, b.int_val);
    assert((i * j) * (p * q) == (i * p) * (j * q)) by (nonlinear_arith);
}

/// A negated number is worth the opposite, and the negation of NULL is NULL.
pub proof fn opposites(sc: Scene, x: Expr, a: Dec, s: int)
    requires
        evaluated(sc, x) == Ok::<Datum, Failure>(Datum::Number(a)) || evaluated(sc, x) == Ok::<
            Datum,
            Failure,
        >(Datum::Null),
    ensures
        match evaluated(sc, Expr::Neg(Box::new(x))) {
            Ok(Datum::Number(r)) => evaluated(sc, x) is Ok && evaluated(sc, x)->Ok_0 is Number
                && worth(r, s) == -worth(a, s),
            Ok(v) => v is Null && evaluated(sc, x) == Ok::<Datum, Failure>(Datum::Null),
            Err(_) => false,
        },
{
    reveal(evaluated);
    let p = pow(10, (s - a.scale) as nat);
    assert((-a.int_val) * p == -(a.int_val * p)) by (nonlinear_arith);
}

/// Arithmetic on NULL gives NULL, and a division by zero is refused.
pub proof fn arithmetic_without_a_result(sc: Scene, op: BinaryOp, x: Expr, y: Expr, a: Dec, b: Dec)
    requires
        op is Add || op is Sub || op is Mul || op is Div,
        evaluated(sc, x) is Ok && evaluated(sc, y) is Ok,
        evaluated(sc, x)->Ok_0 == Datum::Number(a) || evaluated(sc, x)->Ok_0 is Null,
        evaluated(sc, y)->Ok_0 == Datum::Number(b) || evaluated(sc, y)->Ok_0 is Null,
    ensures
        evaluated(sc, x)->Ok_0 is Null || evaluated(sc, y)->Ok_0 is Null ==> evaluated(
            sc,
            applied(op, x, y),
        ) == Ok::<Datum, Failure>(Datum::Null),
        evaluated(sc, x)->Ok_0 is Number && evaluated(sc, y)->Ok_0 is Number && op is Div
            && b.int_val == 0 ==> evaluated(sc, applied(op, x, y)) == Err::<Datum, Failure>(
            functions::zero_divisor(),
        ),
{
    operator_value(sc, op, x, y);
}

/// `||` puts two texts one behind the other, and NULL adds nothing.
pub proof fn texts_are_joined(sc: Scene, x: Expr, y: Expr, a: Seq<char>, b: Seq<char>)
    requires
        evaluated(sc, x) == Ok::<Datum, Failure>(Datum::Text(a)),
        a.len() > 0,
        evaluated(sc, y) == Ok::<Datum, Failure>(Datum::Text(b)) || (b.len() == 0 && evaluated(
            sc,
            y,
        ) == Ok::<Datum, Failure>(Datum::Null)),
    ensures
        evaluated(sc, applied(BinaryOp::Concat, x, y)) == Ok::<Datum, Failure>(Datum::Text(a + b)),
        evaluated(sc, applied(BinaryOp::Concat, y, x)) == Ok::<Datum, Failure>(Datum::Text(b + a)),
{
    operator_value(sc, BinaryOp::Concat, x, y);
    operator_value(sc, BinaryOp::Concat, y, x);
    assert(b.len() == 0 ==> b =~= Seq::<char>::empty());
}

// ---- what a column keeps ----

/// NULL is kept as NULL in a column of any type.
pub proof fn null_is_kept(env: Setting, p: Place, t: SqlType)
    ensures
        stored_value(env, p, t, Datum::Null) == Ok::<Datum, Failure>(Datum::Null),
{
    reveal(stored_value);
}

proof fn digits_and_size(n: nat, k: nat)
    requires
        k >= 1,
    ensures
        text::decimal(n).len() <= k <==> n < pow(10, k),
    decreases n,
{
    reveal(pow);
    lemma_pow_positive(10, (k - 1) as nat);
    let p = pow(10, (k - 1) as nat);
    assert(pow(10, k) == 10 * p);
    if n >= 10 {
        if k >= 2 {
            digits_and_size(n / 10, (k - 1) as nat);
        } else {
            assert(pow(10, 0) == 1);
            assert(text::decimal(n / 10).len() >= 1);
        }
    }
}

/// The whole part of a number, by the digits that it has.
proof fn whole_part(r: Dec, room: nat, s: int)
    requires
        r.scale <= s,
        0 <= s,
        store::int_digits(r) is Ok,
    ensures
        store::int_digits(r)->Ok_0 <= room <==> number::abs(worth(r, s)) < pow(10, room + s as nat),
{
    let w = number::rounded(number::magnitude(r), 0, Rounding::Down);
    let whole = number::at_scale(w, 0);
    let i = number::abs(r.int_val);
    let ten = pow(10, room);
    lemma_pow_positive(10, room);
    lemma_pow_positive(10, s as nat);
    lemma_pow_adds(10, room, s as nat);
    let p = pow(10, (s - r.scale) as nat);
    lemma_pow_positive(10, (s - r.scale) as nat);
    assert(number::abs(worth(r, s)) == i * p) by (nonlinear_arith)
        requires
            worth(r, s) == r.int_val * p,
            i == number::abs(r.int_val),
            p > 0,
    ;
    if r.scale <= 0 {
        worth_at(number::magnitude(r), 0, s);
        lemma_pow_positive(10, (-r.scale) as nat);
        let q = pow(10, (-r.scale) as nat);
        assert(whole == i * q);
        assert(whole >= 0 && (whole == 0 <==> i == 0)) by (nonlinear_arith)
            requires
                whole == i * q,
                q > 0,
                i >= 0,
        ;
        let ps = pow(10, s as nat);
        assert(whole * ps == i * p);
        assert(whole < ten <==> i * p < ten * ps) by (nonlinear_arith)
            requires
                whole * ps == i * p,
                ps > 0,
        ;
    } else {
        let q = pow(10, r.scale as nat);
        lemma_pow_positive(10, r.scale as nat);
        let k = i / q;
        worth_of_lowest(k, 0, 0);
        number::lowest_not_above(k, 0);
        assert(pow(10, 0) == 1) by {
            reveal(pow);
        }
        assert(whole == k);
        let m = i % q;
        assert(i == q * k + m && 0 <= m < q) by {
            vstd::arithmetic::div_mod::lemma_fundamental_div_mod(i, q);
        }
        assert(k >= 0) by (nonlinear_arith)
            requires
                i == q * k + m,
                0 <= m < q,
                i >= 0,
        ;
        lemma_pow_adds(10, r.scale as nat, (s - r.scale) as nat);
        assert(k < ten <==> i * p < ten * (q * p)) by (nonlinear_arith)
            requires
                i == q * k + m,
                0 <= m < q,
                k >= 0,
                p > 0,
                ten > 0,
        {
            if k < ten {
                assert(k + 1 <= ten);
                assert(i < q * (k + 1)) by (nonlinear_arith)
                    requires
                        i == q * k + m,
                        m < q,
                ;
                assert(q * (k + 1) <= q * ten) by (nonlinear_arith)
                    requires
                        k + 1 <= ten,
                        0 < q,
                ;
                assert(i * p < (q * ten) * p) by (nonlinear_arith)
                    requires
                        i < q * ten,
                        p > 0,
                ;
            } else {
                assert(i >= q * ten) by (nonlinear_arith)
                    requires
                        i == q * k + m,
                        0 <= m < q,
                        k >= ten,
                ;
                assert(i * p >= (q * ten) * p) by (nonlinear_arith)
                    requires
                        i >= q * ten,
                        p > 0,
                ;
            }
            assert((q * ten) * p == ten * (q * p)) by (nonlinear_arith);
        }
    }
    lemma_pow_positive(10, (0 - w.scale) as nat);
    assert(w.int_val == 0 <==> whole == 0) by (nonlinear_arith)
        requires
            whole == w.int_val * pow(10, (0 - w.scale) as nat),
            pow(10, (0 - w.scale) as nat) > 0,
    ;
    if whole > 0 {
        assert(number::plain(whole, 0).len() == text::decimal(whole as nat).len());
        if room >= 1 {
            digits_and_size(whole as nat, room);
        } else {
            assert(ten == 1) by {
                reveal(pow);
            }
            assert(text::decimal(whole as nat).len() >= 1);
        }
    }
}

/// A column of numbers keeps a number to the places of its scale, and the nearest there is,
/// away from zero when halfway. It refuses a number that then needs more digits in front of
/// the point than its precision leaves. Without a precision every number is kept as it is.
pub proof fn a_number_is_kept_to_its_scale(
    env: Setting,
    p: Place,
    n: Dec,
    precision: u8,
    scale: i8,
    s: int,
)
    requires
        0 <= s,
        scale <= precision,
        number::rounded(n, scale as int, Rounding::HalfUp).scale <= s,
        number::in_range(number::rounded(n, scale as int, Rounding::HalfUp)),
        store::int_digits(number::rounded(n, scale as int, Rounding::HalfUp)) is Ok,
    ensures
        precision == 0 ==> stored_value(
            env,
            p,
            SqlType::Number { precision, scale },
            Datum::Number(n),
        ) == Ok::<Datum, Failure>(Datum::Number(n)),
        precision > 0 ==> match stored_value(
            env,
            p,
            SqlType::Number { precision, scale },
            Datum::Number(n),
        ) {
            Ok(Datum::Number(r)) => {
                &&& number::abs(worth(r, s)) < pow(10, (precision - scale + s) as nat)
                &&& n.scale <= scale ==> r == n
                &&& scale < n.scale ==> is_rounding(
                    n.int_val,
                    worth(r, n.scale),
                    pow(10, (n.scale - scale) as nat),
                    Rounding::HalfUp,
                )
            },
            Ok(_) => false,
            Err(e) => {
                let r = number::rounded(n, scale as int, Rounding::HalfUp);
                &&& e.code == 1438
                &&& number::abs(worth(r, s)) >= pow(10, (precision - scale + s) as nat)
            },
        },
{
    reveal(stored_value);
    let r = number::rounded(n, scale as int, Rounding::HalfUp);
    whole_part(r, (precision - scale) as nat, s);
    if scale < n.scale {
        rounding_goes_to_the_unit(n, scale as int, Rounding::HalfUp);
    }
}

/// A number that a column keeps is kept as it is when it is put there again.
pub proof fn a_kept_number_stays(
    env: Setting,
    p: Place,
    n: Dec,
    precision: u8,
    scale: i8,
    r: Dec,
)
    requires
        stored_value(env, p, SqlType::Number { precision, scale }, Datum::Number(n)) == Ok::<
            Datum,
            Failure,
        >(Datum::Number(r)),
        scale >= 0,
    ensures
        stored_value(env, p, SqlType::Number { precision, scale }, Datum::Number(r)) == Ok::<
            Datum,
            Failure,
        >(Datum::Number(r)),
{
    reveal(stored_value);
    number::rounded_scale(n, scale as int, Rounding::HalfUp);
}

proof fn encoded_together(a: Seq<char>, b: Seq<char>)
    ensures
        encode_utf8(a + b).len() == encode_utf8(a).len() + encode_utf8(b).len(),
    decreases a.len(),
{
    reveal_with_fuel(encode_utf8, 2);
    if a.len() > 0 {
        encoded_together(a.drop_first(), b);
        assert((a + b).drop_first() =~= a.drop_first() + b);
        assert((a + b)[0] == a[0]);
    } else {
        assert(a + b =~= b);
    }
}

/// A column of characters keeps a text that fits in its bytes, one of fixed length with
/// spaces behind it, and refuses a longer one.
pub proof fn a_text_is_kept_whole(env: Setting, p: Place, s: Seq<char>, max: u32)
    requires
        s.len() > 0,
    ensures
        stored_value(env, p, SqlType::Varchar2(max), Datum::Text(s)) == if encode_utf8(s).len()
            <= max {
            Ok::<Datum, Failure>(Datum::Text(s))
        } else {
            Err(store::too_large(p, encode_utf8(s).len() as int, max as int))
        },
        match stored_value(env, p, SqlType::Char(max), Datum::Text(s)) {
            Ok(Datum::Text(r)) => {
                &&& encode_utf8(r).len() == max
                &&& s.len() <= r.len()
                &&& r.take(s.len() as int) =~= s
                &&& forall|i: int| s.len() <= i < r.len() ==> #[trigger] r[i] == ' '
            },
            Ok(_) => false,
            Err(e) => encode_utf8(s).len() > max && e == store::too_large(
                p,
                encode_utf8(s).len() as int,
                max as int,
            ),
        },
{
    reveal(stored_value);
    let have = encode_utf8(s).len() as int;
    if have < max {
        let fill = Seq::new((max - have) as nat, |i: int| ' ');
        encoded_together(s, fill);
        is_ascii_chars_encode_utf8(fill);
        assert(is_ascii_chars(fill));
        assert(encode_utf8(fill).len() == fill.len());
    }
}

/// A column of dates keeps a moment to the second.
pub proof fn a_date_is_kept_to_the_second(env: Setting, p: Place, m: Moment)
    ensures
        stored_value(env, p, SqlType::Date, Datum::Date(m)) == Ok::<Datum, Failure>(
            Datum::Date(Moment { nano: 0, ..m }),
        ),
        stored_value(env, p, SqlType::Date, Datum::Timestamp(m)) == Ok::<Datum, Failure>(
            Datum::Date(Moment { nano: 0, ..m }),
        ),
{
    reveal(stored_value);
}

proof fn nearest_unit(n: int, unit: int)
    requires
        0 <= n < 1_000_000_000,
        unit == 1 || unit == 10 || unit == 100 || unit == 1_000 || unit == 10_000 || unit == 100_000 || unit == 1_000_000 || unit == 10_000_000 || unit == 100_000_000 || unit == 1_000_000_000,
    ensures
        ({
            let k = (n + unit / 2) / unit * unit;
            &&& k % unit == 0
            &&& 2 * (k - n) <= unit
            &&& 2 * (n - k) < unit
            &&& k >= 1_000_000_000 <==> 2 * (1_000_000_000 - n) <= unit
        }),
{
    let k = (n + unit / 2) / unit * unit;
    if unit == 1 {
        assert((n + 0) / 1 * 1 == k);
    } else if unit == 10 {
        assert((n + 5) / 10 * 10 == k);
    } else if unit == 100 {
        assert((n + 50) / 100 * 100 == k);
    } else if unit == 1_000 {
        assert((n + 500) / 1_000 * 1_000 == k);
    } else if unit == 10_000 {
        assert((n + 5_000) / 10_000 * 10_000 == k);
    } else if unit == 100_000 {
        assert((n + 50_000) / 100_000 * 100_000 == k);
    } else if unit == 1_000_000 {
        assert((n + 500_000) / 1_000_000 * 1_000_000 == k);
    } else if unit == 10_000_000 {
        assert((n + 5_000_000) / 10_000_000 * 10_000_000 == k);
    } else if unit == 100_000_000 {
        assert((n + 50_000_000) / 100_000_000 * 100_000_000 == k);
    } else if unit == 1_000_000_000 {
        assert((n + 500_000_000) / 1_000_000_000 * 1_000_000_000 == k);
    }
}

proof fn unit_of_digits(precision: int)
    requires
        0 <= precision <= 9,
    ensures
        store::fraction_unit(precision) == pow(10, (9 - precision) as nat),
{
    reveal_with_fuel(pow, 11);
}

/// A column of timestamps keeps the fraction of a second to its digits, the nearest there
/// is; from half a unit before the next second on, it keeps that second.
pub proof fn a_fraction_is_kept_to_its_digits(env: Setting, p: Place, m: Moment, precision: u8)
    requires
        precision <= 9,
        0 <= m.nano < 1_000_000_000,
    ensures
        ({
            let unit = pow(10, (9 - precision) as nat);
            let r = stored_value(env, p, SqlType::Timestamp(precision), Datum::Timestamp(m));
            if 2 * (1_000_000_000 - m.nano) > unit {
                match r {
                    Ok(Datum::Timestamp(k)) => {
                        &&& k == Moment { nano: k.nano, ..m }
                        &&& k.nano % unit == 0
                        &&& 2 * (k.nano - m.nano) <= unit
                        &&& 2 * (m.nano - k.nano) < unit
                    },
                    _ => false,
                }
            } else {
                r == match datetime::shifted(Moment { nano: 0, ..m }, 1) {
                    Some(k) => Ok::<Datum, Failure>(Datum::Timestamp(k)),
                    None => Err(datetime::beyond_calendar()),
                }
            }
        }),
{
    reveal(stored_value);
    unit_of_digits(precision as int);
    nearest_unit(m.nano, store::fraction_unit(precision as int));
}

} // verus!
