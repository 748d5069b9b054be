//! What conditions and arithmetic come to, said of numbers, texts and moments themselves.

use vstd::arithmetic::power::{lemma_pow_adds, lemma_pow_positive, pow};
use vstd::prelude::*;

use crate::ast::BinaryOp;
use crate::datetime::Moment;
use crate::error::Failure;
use crate::eval;
use crate::eval::{evaluated, Scene};
use crate::functions::Due;
use crate::number;
use crate::number::Dec;
use crate::tree::Expr;
use crate::value;
use crate::value::{Datum, Relation};

verus! {

/// How many units of `10^-s` a number is, at a scale no lower than its own.
pub open spec fn worth(d: Dec, s: int) -> int {
    d.int_val * pow(10, (s - d.scale) as nat)
}

/// Whether a text comes before another: it is the start of that, or has the lower
/// character where the two part.
pub open spec fn before(a: Seq<char>, b: Seq<char>) -> bool {
    exists|k: int| #[trigger] parts_at(a, b, k)
}

/// Whether two texts are the same up to a place, where the first ends or is lower.
pub open spec fn parts_at(a: Seq<char>, b: Seq<char>, k: int) -> bool {
    &&& 0 <= k <= a.len()
    &&& k < b.len()
    &&& a.take(k) == b.take(k)
    &&& k == a.len() || a[k] < b[k]
}

/// A count that grows with time.
pub open spec fn instant(m: Moment) -> int {
    ((((((m.year * 13 + m.month) * 32 + m.day) * 24 + m.hour) * 60 + m.minute) * 60 + m.second)
        * 2_000_000_000) + m.nano
}

pub open spec fn is_true(v: Due) -> bool {
    v == Ok::<Datum, Failure>(Datum::Boolean(true))
}

pub open spec fn is_false(v: Due) -> bool {
    v == Ok::<Datum, Failure>(Datum::Boolean(false))
}

pub open spec fn is_unknown(v: Due) -> bool {
    v == Ok::<Datum, Failure>(Datum::Null)
}

/// Whether a value can stand as a condition.
pub open spec fn is_condition(v: Due) -> bool {
    is_true(v) || is_false(v) || is_unknown(v)
}

/// An operator between two expressions.
pub open spec fn applied(op: BinaryOp, x: Expr, y: Expr) -> Expr {
    Expr::Binary(op, Box::new(x), Box::new(y))
}

/// Numbers compare at any scale that holds both.
pub proof fn order_at_any_scale(a: Dec, b: Dec, s: int)
    requires
        a.scale <= s,
        b.scale <= s,
    ensures
        number::less(a, b) <==> worth(a, s) < worth(b, s),
        number::equal(a, b) <==> worth(a, s) == worth(b, s),
{
    let m = number::max(a.scale, b.scale);
    let p = pow(10, (s - m) as nat);
    lemma_pow_positive(10, (s - m) as nat);
    lemma_pow_adds(10, (m - a.scale) as nat, (s - m) as nat);
    lemma_pow_adds(10, (m - b.scale) as nat, (s - m) as nat);
    let x = number::at_scale(a, m);
    let y = number::at_scale(b, m);
    assert(worth(a, s) == x * p) by (nonlinear_arith)
        requires
            worth(a, s) == a.int_val * (pow(10, (m - a.scale) as nat) * p),
            x == a.int_val * pow(10, (m - a.scale) as nat),
    ;
    assert(worth(b, s) == y * p) by (nonlinear_arith)
        requires
            worth(b, s) == b.int_val * (pow(10, (m - b.scale) as nat) * p),
            y == b.int_val * pow(10, (m - b.scale) as nat),
    ;
    assert((x < y <==> x * p < y * p) && (x == y <==> x * p == y * p)) by (nonlinear_arith)
        requires
            p > 0,
    ;
}

/// What an operator other than AND and OR gives.
/// An operator other than AND and OR combines what its two sides come to.
pub proof fn operator_value(sc: Scene, op: BinaryOp, x: Expr, y: Expr)
    requires
        !(op is And),
        !(op is Or),
    ensures
        evaluated(sc, applied(op, x, y)) == match evaluated(sc, x) {
            Err(e) => Err(e),
            Ok(a) => match evaluated(sc, y) {
                Err(e) => Err(e),
                Ok(b) => eval::combined(sc.env, op, a, b),
            },
        },
{
    reveal(evaluated);
}

proof fn between_value(sc: Scene, x: Expr, low: Expr, high: Expr, negated: bool)
    ensures
        evaluated(sc, between(x, low, high, negated)) == match evaluated(sc, x) {
            Err(e) => Err(e),
            Ok(v) => match evaluated(sc, low) {
                Err(e) => Err(e),
                Ok(l) => match evaluated(sc, high) {
                    Err(e) => Err(e),
                    Ok(h) => eval::between(sc.env, v, l, h, negated),
                },
            },
        },
{
    reveal(evaluated);
}

proof fn not_value(sc: Scene, x: Expr)
    ensures
        evaluated(sc, Expr::Not(Box::new(x))) == match eval::truth(evaluated(sc, x)) {
            Err(e) => Err(e),
            Ok(t) => Ok(crate::plsql::vars::truth_value(eval::negation(t))),
        },
{
    reveal(evaluated);
}

#[verifier::spinoff_prover]
proof fn list_value(sc: Scene, x: Expr, list: Seq<Expr>, negated: bool)
    ensures
        evaluated(sc, one_of(x, list, negated)) == match evaluated(sc, x) {
            Err(e) => Err(e),
            Ok(v) => match eval::among(sc, v, list, 0) {
                Err(e) => Err(e),
                Ok(t) => Ok(
                    crate::plsql::vars::truth_value(
                        if negated {
                            eval::negation(t)
                        } else {
                            t
                        },
                    ),
                ),
            },
        },
{
    reveal(evaluated);
    reveal(eval::evaluated_upto);
    reveal(eval::among);
    reveal(eval::chosen);
}

#[verifier::spinoff_prover]
proof fn case_value(
    sc: Scene,
    operand: Option<Box<Expr>>,
    whens: Seq<(Expr, Expr)>,
    else_: Option<Box<Expr>>,
)
    ensures
        evaluated(sc, Expr::Case { operand, whens, else_ }) == match operand {
            Some(o) => match evaluated(sc, *o) {
                Err(e) => Err(e),
                Ok(v) => match eval::chosen(sc, Some(v), whens, 0) {
                    Some(due) => due,
                    None => eval::else_due(sc, else_),
                },
            },
            None => match eval::chosen(sc, None, whens, 0) {
                Some(due) => due,
                None => eval::else_due(sc, else_),
            },
        },
{
    reveal(evaluated);
    reveal(eval::evaluated_upto);
    reveal(eval::among);
    reveal(eval::chosen);
}

#[verifier::spinoff_prover]
proof fn list_step(sc: Scene, v: Datum, list: Seq<Expr>, i: int)
    ensures
        eval::among(sc, v, list, i) == if i < 0 || i >= list.len() {
            Ok(Some(false))
        } else {
            match evaluated(sc, list[i]) {
                Err(e) => Err(e),
                Ok(x) => match eval::compared(sc.env, BinaryOp::Eq, v, x) {
                    Err(e) => Err(e),
                    Ok(t) => if t == Some(true) {
                        Ok(Some(true))
                    } else {
                        match eval::among(sc, v, list, i + 1) {
                            Err(e) => Err(e),
                            Ok(rest) => Ok(eval::either(t, rest)),
                        }
                    },
                },
            }
        },
{
    reveal(evaluated);
    reveal(eval::evaluated_upto);
    reveal(eval::among);
    reveal(eval::chosen);
}

#[verifier::spinoff_prover]
proof fn case_step(sc: Scene, v: Option<Datum>, whens: Seq<(Expr, Expr)>, i: int)
    ensures
        eval::chosen(sc, v, whens, i) == if i < 0 || i >= whens.len() {
            None
        } else {
            let hit = match v {
                Some(v) => match evaluated(sc, whens[i].0) {
                    Err(e) => Err(e),
                    Ok(w) => eval::compared(sc.env, BinaryOp::Eq, v, w),
                },
                None => eval::truth(evaluated(sc, whens[i].0)),
            };
            match hit {
                Err(e) => Some(Err(e)),
                Ok(t) => if t == Some(true) {
                    Some(evaluated(sc, whens[i].1))
                } else {
                    eval::chosen(sc, v, whens, i + 1)
                },
            }
        },
{
    reveal(evaluated);
    reveal(eval::evaluated_upto);
    reveal(eval::among);
    reveal(eval::chosen);
}

/// How two values compare that stand as literals.
pub proof fn literals_compared(sc: Scene, v: Datum, w: Datum)
    ensures
        evaluated(sc, applied(BinaryOp::Eq, Expr::Literal(v), Expr::Literal(w)))
            == eval::truth_datum(eval::compared(sc.env, BinaryOp::Eq, v, w)),
{
    operator_value(sc, BinaryOp::Eq, Expr::Literal(v), Expr::Literal(w));
    literal_value(sc, v);
    literal_value(sc, w);
}

proof fn literal_value(sc: Scene, v: Datum)
    ensures
        evaluated(sc, Expr::Literal(v)) == Ok::<Datum, Failure>(v),
{
    reveal(evaluated);
}

/// Numbers compare as what they are worth.
pub proof fn numbers_compare_by_their_worth(
    sc: Scene,
    x: Expr,
    y: Expr,
    a: Dec,
    b: Dec,
    s: int,
)
    requires
        evaluated(sc, x) == Ok::<Datum, Failure>(Datum::Number(a)),
        evaluated(sc, y) == Ok::<Datum, Failure>(Datum::Number(b)),
        a.scale <= s,
        b.scale <= s,
    ensures
        is_condition(evaluated(sc, applied(BinaryOp::Eq, x, y))),
        is_condition(evaluated(sc, applied(BinaryOp::Lt, x, y))),
        is_true(evaluated(sc, applied(BinaryOp::Eq, x, y))) <==> worth(a, s) == worth(b, s),
        is_false(evaluated(sc, applied(BinaryOp::Eq, x, y))) <==> worth(a, s) != worth(b, s),
        is_true(evaluated(sc, applied(BinaryOp::NotEq, x, y))) <==> worth(a, s) != worth(b, s),
        is_false(evaluated(sc, applied(BinaryOp::NotEq, x, y))) <==> worth(a, s) == worth(b, s),
        is_true(evaluated(sc, applied(BinaryOp::Lt, x, y))) <==> worth(a, s) < worth(b, s),
        is_false(evaluated(sc, applied(BinaryOp::Lt, x, y))) <==> worth(a, s) >= worth(b, s),
        is_true(evaluated(sc, applied(BinaryOp::LtEq, x, y))) <==> worth(a, s) <= worth(b, s),
        is_false(evaluated(sc, applied(BinaryOp::LtEq, x, y))) <==> worth(a, s) > worth(b, s),
        is_true(evaluated(sc, applied(BinaryOp::Gt, x, y))) <==> worth(a, s) > worth(b, s),
        is_false(evaluated(sc, applied(BinaryOp::Gt, x, y))) <==> worth(a, s) <= worth(b, s),
        is_true(evaluated(sc, applied(BinaryOp::GtEq, x, y))) <==> worth(a, s) >= worth(b, s),
        is_false(evaluated(sc, applied(BinaryOp::GtEq, x, y))) <==> worth(a, s) < worth(b, s),
{
    operator_value(sc, BinaryOp::Eq, x, y);
    operator_value(sc, BinaryOp::NotEq, x, y);
    operator_value(sc, BinaryOp::Lt, x, y);
    operator_value(sc, BinaryOp::LtEq, x, y);
    operator_value(sc, BinaryOp::Gt, x, y);
    operator_value(sc, BinaryOp::GtEq, x, y);
    order_at_any_scale(a, b, s);
}

/// `BETWEEN` of numbers is TRUE from the low bound to the high one, both included, and
/// FALSE elsewhere; `NOT BETWEEN` the other way round.
pub proof fn between_two_numbers(
    sc: Scene,
    x: Expr,
    y: Expr,
    z: Expr,
    v: Dec,
    low: Dec,
    high: Dec,
    s: int,
)
    requires
        evaluated(sc, x) == Ok::<Datum, Failure>(Datum::Number(v)),
        evaluated(sc, y) == Ok::<Datum, Failure>(Datum::Number(low)),
        evaluated(sc, z) == Ok::<Datum, Failure>(Datum::Number(high)),
        v.scale <= s,
        low.scale <= s,
        high.scale <= s,
    ensures
        ({
            let within = evaluated(sc, between(x, y, z, false));
            let outside = evaluated(sc, between(x, y, z, true));
            let inside = worth(low, s) <= worth(v, s) && worth(v, s) <= worth(high, s);
            &&& is_true(within) <==> inside
            &&& is_false(within) <==> !inside
            &&& is_true(outside) <==> !inside
            &&& is_false(outside) <==> inside
        }),
{
    between_value(sc, x, y, z, false);
    between_value(sc, x, y, z, true);
    order_at_any_scale(v, low, s);
    order_at_any_scale(low, v, s);
    order_at_any_scale(v, high, s);
    order_at_any_scale(high, v, s);
}

pub open spec fn between(x: Expr, low: Expr, high: Expr, negated: bool) -> Expr {
    Expr::Between { expr: Box::new(x), low: Box::new(low), high: Box::new(high), negated }
}

/// `BETWEEN`, of values of any type, is one comparison with each bound under AND, and
/// `NOT BETWEEN` is NOT of it.
pub proof fn between_is_two_comparisons(sc: Scene, x: Expr, low: Expr, high: Expr)
    requires
        evaluated(sc, applied(BinaryOp::GtEq, x, low)) is Ok,
        evaluated(sc, applied(BinaryOp::LtEq, x, high)) is Ok,
    ensures
        evaluated(sc, between(x, low, high, false)) == evaluated(
            sc,
            applied(
                BinaryOp::And,
                applied(BinaryOp::GtEq, x, low),
                applied(BinaryOp::LtEq, x, high),
            ),
        ),
        evaluated(sc, between(x, low, high, true)) == evaluated(
            sc,
            Expr::Not(Box::new(between(x, low, high, false))),
        ),
{
    operator_value(sc, BinaryOp::GtEq, x, low);
    operator_value(sc, BinaryOp::LtEq, x, high);
    between_value(sc, x, low, high, false);
    between_value(sc, x, low, high, true);
    not_value(sc, between(x, low, high, false));
    let a = applied(BinaryOp::GtEq, x, low);
    let b = applied(BinaryOp::LtEq, x, high);
    conditions_under_and(sc, a, b);
}

/// Texts compare character by character.
pub proof fn texts_compare_by_their_characters(
    sc: Scene,
    x: Expr,
    y: Expr,
    a: Seq<char>,
    b: Seq<char>,
)
    requires
        evaluated(sc, x) == Ok::<Datum, Failure>(Datum::Text(a)),
        evaluated(sc, y) == Ok::<Datum, Failure>(Datum::Text(b)),
    ensures
        is_true(evaluated(sc, applied(BinaryOp::Eq, x, y))) <==> a == b,
        is_false(evaluated(sc, applied(BinaryOp::Eq, x, y))) <==> a != b,
        is_true(evaluated(sc, applied(BinaryOp::NotEq, x, y))) <==> a != b,
        is_true(evaluated(sc, applied(BinaryOp::Lt, x, y))) <==> before(a, b),
        is_false(evaluated(sc, applied(BinaryOp::Lt, x, y))) <==> !before(a, b),
        is_true(evaluated(sc, applied(BinaryOp::Gt, x, y))) <==> before(b, a),
        is_true(evaluated(sc, applied(BinaryOp::LtEq, x, y))) <==> a == b || before(a, b),
        is_true(evaluated(sc, applied(BinaryOp::GtEq, x, y))) <==> a == b || before(b, a),
{
    operator_value(sc, BinaryOp::Eq, x, y);
    operator_value(sc, BinaryOp::NotEq, x, y);
    operator_value(sc, BinaryOp::Lt, x, y);
    operator_value(sc, BinaryOp::LtEq, x, y);
    operator_value(sc, BinaryOp::Gt, x, y);
    operator_value(sc, BinaryOp::GtEq, x, y);
    order_of_texts(a, b);
}

proof fn order_of_texts(a: Seq<char>, b: Seq<char>)
    ensures
        (value::text_relation(a, b) == Relation::Less) == before(a, b),
        (value::text_relation(a, b) == Relation::Greater) == before(b, a),
        (value::text_relation(a, b) == Relation::Equal) == (a == b),
    decreases a.len(),
{
    if a.len() == 0 && b.len() == 0 {
        assert(a =~= b);
    } else if a.len() == 0 {
        assert(a.take(0) =~= b.take(0));
        assert(parts_at(a, b, 0));
    } else if b.len() == 0 {
        assert(a.take(0) =~= b.take(0));
        assert(parts_at(b, a, 0));
    } else {
        assert(a.take(0) =~= b.take(0));
        if a[0] < b[0] {
            assert(parts_at(a, b, 0));
            apart(b, a);
        } else if a[0] > b[0] {
            assert(parts_at(b, a, 0));
            apart(a, b);
        } else {
            order_of_texts(a.skip(1), b.skip(1));
            one_later(a, b);
            one_later(b, a);
            if a.skip(1) == b.skip(1) {
                assert(a =~= seq![a[0]] + a.skip(1));
                assert(b =~= seq![b[0]] + b.skip(1));
            }
        }
    }
}

proof fn apart(a: Seq<char>, b: Seq<char>)
    requires
        a.len() > 0,
        b.len() > 0,
        a[0] > b[0],
    ensures
        !before(a, b),
{
    assert forall|k: int| !#[trigger] parts_at(a, b, k) by {
        if parts_at(a, b, k) && k > 0 {
            assert(a.take(k)[0] == b.take(k)[0]);
        }
    }
}

proof fn one_later(a: Seq<char>, b: Seq<char>)
    requires
        a.len() > 0,
        b.len() > 0,
        a[0] == b[0],
    ensures
        before(a, b) == before(a.skip(1), b.skip(1)),
{
    let (c, d) = (a.skip(1), b.skip(1));
    if before(a, b) {
        let k = choose|k: int| #[trigger] parts_at(a, b, k);
        assert(k > 0);
        assert(c.take(k - 1) =~= a.take(k).skip(1));
        assert(d.take(k - 1) =~= b.take(k).skip(1));
        assert(parts_at(c, d, k - 1));
    }
    if before(c, d) {
        let k = choose|k: int| #[trigger] parts_at(c, d, k);
        assert(a.take(k + 1) =~= seq![a[0]] + c.take(k));
        assert(b.take(k + 1) =~= seq![b[0]] + d.take(k));
        assert(parts_at(a, b, k + 1));
    }
}

/// Dates and timestamps compare as instants.
pub proof fn moments_compare_as_instants(
    sc: Scene,
    x: Expr,
    y: Expr,
    u: Datum,
    v: Datum,
    a: Moment,
    b: Moment,
)
    requires
        evaluated(sc, x) == Ok::<Datum, Failure>(u),
        evaluated(sc, y) == Ok::<Datum, Failure>(v),
        u == Datum::Date(a) || u == Datum::Timestamp(a),
        v == Datum::Date(b) || v == Datum::Timestamp(b),
        crate::datetime::valid(a),
        crate::datetime::valid(b),
    ensures
        is_true(evaluated(sc, applied(BinaryOp::Eq, x, y))) <==> instant(a) == instant(b),
        is_true(evaluated(sc, applied(BinaryOp::NotEq, x, y))) <==> instant(a) != instant(b),
        is_true(evaluated(sc, applied(BinaryOp::Lt, x, y))) <==> instant(a) < instant(b),
        is_false(evaluated(sc, applied(BinaryOp::Lt, x, y))) <==> instant(a) >= instant(b),
        is_true(evaluated(sc, applied(BinaryOp::LtEq, x, y))) <==> instant(a) <= instant(b),
        is_true(evaluated(sc, applied(BinaryOp::Gt, x, y))) <==> instant(a) > instant(b),
        is_true(evaluated(sc, applied(BinaryOp::GtEq, x, y))) <==> instant(a) >= instant(b),
{
    operator_value(sc, BinaryOp::Eq, x, y);
    operator_value(sc, BinaryOp::NotEq, x, y);
    operator_value(sc, BinaryOp::Lt, x, y);
    operator_value(sc, BinaryOp::LtEq, x, y);
    operator_value(sc, BinaryOp::Gt, x, y);
    operator_value(sc, BinaryOp::GtEq, x, y);
}

/// A comparison with NULL is unknown, whatever the other value is, and so is
/// arithmetic with it.
pub proof fn null_makes_unknown(sc: Scene, op: BinaryOp, x: Expr, y: Expr, v: Datum)
    requires
        evaluated(sc, x) == Ok::<Datum, Failure>(Datum::Null),
        evaluated(sc, y) == Ok::<Datum, Failure>(v),
        op is Eq || op is NotEq || op is Lt || op is LtEq || op is Gt || op is GtEq || ((op is Add
            || op is Sub || op is Mul || op is Div) && (v is Number || v is Null)),
    ensures
        is_unknown(evaluated(sc, applied(op, x, y))),
        is_unknown(evaluated(sc, applied(op, y, x))),
{
    operator_value(sc, op, x, y);
    operator_value(sc, op, y, x);
}

/// AND is TRUE when both sides are, FALSE as soon as one is, and unknown otherwise;
/// with a FALSE in front, what is behind is not looked at.
pub proof fn conditions_under_and(sc: Scene, x: Expr, y: Expr)
    requires
        is_condition(evaluated(sc, x)),
    ensures
        ({
            let a = evaluated(sc, x);
            let b = evaluated(sc, y);
            let r = evaluated(sc, applied(BinaryOp::And, x, y));
            &&& is_false(a) ==> is_false(r)
            &&& is_condition(b) ==> {
                &&& is_true(r) <==> is_true(a) && is_true(b)
                &&& is_false(r) <==> is_false(a) || is_false(b)
                &&& is_unknown(r) <==> !(is_true(r) || is_false(r))
            }
        }),
{
    reveal(evaluated);
}

/// OR is TRUE as soon as one side is, FALSE when both are, and unknown otherwise; with
/// a TRUE in front, what is behind is not looked at.
pub proof fn conditions_under_or(sc: Scene, x: Expr, y: Expr)
    requires
        is_condition(evaluated(sc, x)),
    ensures
        ({
            let a = evaluated(sc, x);
            let b = evaluated(sc, y);
            let r = evaluated(sc, applied(BinaryOp::Or, x, y));
            &&& is_true(a) ==> is_true(r)
            &&& is_condition(b) ==> {
                &&& is_true(r) <==> is_true(a) || is_true(b)
                &&& is_false(r) <==> is_false(a) && is_false(b)
                &&& is_unknown(r) <==> !(is_true(r) || is_false(r))
            }
        }),
{
    reveal(evaluated);
}

/// NOT turns TRUE and FALSE round and leaves the unknown unknown.
pub proof fn conditions_under_not(sc: Scene, x: Expr)
    requires
        is_condition(evaluated(sc, x)),
    ensures
        is_true(evaluated(sc, Expr::Not(Box::new(x)))) <==> is_false(evaluated(sc, x)),
        is_false(evaluated(sc, Expr::Not(Box::new(x)))) <==> is_true(evaluated(sc, x)),
        is_unknown(evaluated(sc, Expr::Not(Box::new(x)))) <==> is_unknown(evaluated(sc, x)),
{
    not_value(sc, x);
}

/// IS NULL is never unknown: it is TRUE of NULL and FALSE of any other value.
pub proof fn whether_a_value_is_null(sc: Scene, x: Expr)
    requires
        evaluated(sc, x) is Ok,
    ensures
        ({
            let r = evaluated(sc, Expr::IsNull { expr: Box::new(x), negated: false });
            let n = evaluated(sc, Expr::IsNull { expr: Box::new(x), negated: true });
            &&& is_true(r) <==> is_unknown(evaluated(sc, x))
            &&& is_false(r) <==> !is_unknown(evaluated(sc, x))
            &&& is_true(n) <==> is_false(r)
            &&& is_false(n) <==> is_true(r)
        }),
{
    reveal(evaluated);
}

pub open spec fn one_of(x: Expr, list: Seq<Expr>, negated: bool) -> Expr {
    Expr::InList { expr: Box::new(x), list, negated }
}

/// IN is TRUE when the value equals one of the list, FALSE when it differs from each,
/// and unknown otherwise; NOT IN is NOT of it.
pub proof fn in_a_list(sc: Scene, x: Expr, list: Seq<Expr>)
    requires
        evaluated(sc, x) is Ok,
        forall|i: int|
            0 <= i < list.len() ==> evaluated(
                sc,
                #[trigger] applied(BinaryOp::Eq, x, list[i]),
            ) is Ok,
    ensures
        ({
            let r = evaluated(sc, one_of(x, list, false));
            &&& is_condition(r)
            &&& is_true(r) <==> exists|i: int|
                0 <= i < list.len() && is_true(
                    evaluated(sc, #[trigger] applied(BinaryOp::Eq, x, list[i])),
                )
            &&& is_false(r) <==> forall|i: int|
                0 <= i < list.len() ==> is_false(
                    evaluated(sc, #[trigger] applied(BinaryOp::Eq, x, list[i])),
                )
            &&& evaluated(sc, one_of(x, list, true)) == evaluated(
                sc,
                Expr::Not(Box::new(one_of(x, list, false))),
            )
        }),
{
    list_value(sc, x, list, false);
    list_value(sc, x, list, true);
    not_value(sc, one_of(x, list, false));
    let v = evaluated(sc, x)->Ok_0;
    among_the_rest(sc, x, v, list, 0);
}

proof fn among_the_rest(sc: Scene, x: Expr, v: Datum, list: Seq<Expr>, k: int)
    requires
        0 <= k <= list.len(),
        evaluated(sc, x) == Ok::<Datum, Failure>(v),
        forall|i: int|
            0 <= i < list.len() ==> evaluated(
                sc,
                #[trigger] applied(BinaryOp::Eq, x, list[i]),
            ) is Ok,
    ensures
        ({
            let r = eval::among(sc, v, list, k);
            &&& r is Ok
            &&& r->Ok_0 == Some(true) <==> exists|i: int|
                k <= i < list.len() && is_true(
                    evaluated(sc, #[trigger] applied(BinaryOp::Eq, x, list[i])),
                )
            &&& r->Ok_0 == Some(false) <==> forall|i: int|
                k <= i < list.len() ==> is_false(
                    evaluated(sc, #[trigger] applied(BinaryOp::Eq, x, list[i])),
                )
        }),
    decreases list.len() - k,
{
    list_step(sc, v, list, k);
    if k < list.len() {
        among_the_rest(sc, x, v, list, k + 1);
        operator_value(sc, BinaryOp::Eq, x, list[k]);
        let e = applied(BinaryOp::Eq, x, list[k]);
        assert(evaluated(sc, e) is Ok);
        if is_true(evaluated(sc, e)) {
            assert(exists|i: int|
                k <= i < list.len() && is_true(
                    evaluated(sc, #[trigger] applied(BinaryOp::Eq, x, list[i])),
                ));
        }
    }
}

/// CASE gives the result of the first case whose condition is TRUE, and what stands
/// behind ELSE only where no condition is.
pub proof fn the_first_case_that_applies(
    sc: Scene,
    whens: Seq<(Expr, Expr)>,
    else_: Option<Box<Expr>>,
    k: int,
)
    requires
        0 <= k <= whens.len(),
        forall|i: int|
            0 <= i < k ==> is_condition(evaluated(sc, (#[trigger] whens[i]).0)) && !is_true(
                evaluated(sc, whens[i].0),
            ),
        k < whens.len() ==> is_true(evaluated(sc, whens[k].0)),
    ensures
        evaluated(sc, Expr::Case { operand: None, whens, else_ }) == if k < whens.len() {
            evaluated(sc, whens[k].1)
        } else {
            match else_ {
                Some(e) => evaluated(sc, *e),
                None => Ok(Datum::Null),
            }
        },
{
    case_value(sc, None, whens, else_);
    skipped_cases(sc, None, Expr::RowNum, whens, 0, k);
}

/// CASE of an operand gives the result of the first case that it equals.
pub proof fn the_first_case_that_is_equal(
    sc: Scene,
    x: Expr,
    whens: Seq<(Expr, Expr)>,
    else_: Option<Box<Expr>>,
    k: int,
)
    requires
        evaluated(sc, x) is Ok,
        0 <= k <= whens.len(),
        forall|i: int|
            0 <= i < k ==> evaluated(
                sc,
                applied(BinaryOp::Eq, x, (#[trigger] whens[i]).0),
            ) is Ok && !is_true(evaluated(sc, applied(BinaryOp::Eq, x, whens[i].0))),
        k < whens.len() ==> is_true(evaluated(sc, applied(BinaryOp::Eq, x, whens[k].0))),
    ensures
        evaluated(sc, Expr::Case { operand: Some(Box::new(x)), whens, else_ }) == if k
            < whens.len() {
            evaluated(sc, whens[k].1)
        } else {
            match else_ {
                Some(e) => evaluated(sc, *e),
                None => Ok(Datum::Null),
            }
        },
{
    case_value(sc, Some(Box::new(x)), whens, else_);
    skipped_cases(sc, Some(evaluated(sc, x)->Ok_0), x, whens, 0, k);
}

proof fn skipped_cases(
    sc: Scene,
    v: Option<Datum>,
    x: Expr,
    whens: Seq<(Expr, Expr)>,
    from: int,
    k: int,
)
    requires
        0 <= from <= k <= whens.len(),
        v is Some ==> evaluated(sc, x) == Ok::<Datum, Failure>(v->0),
        v is Some ==> forall|i: int|
            from <= i < k ==> evaluated(
                sc,
                applied(BinaryOp::Eq, x, (#[trigger] whens[i]).0),
            ) is Ok && !is_true(evaluated(sc, applied(BinaryOp::Eq, x, whens[i].0))),
        v is Some && k < whens.len() ==> is_true(
            evaluated(sc, applied(BinaryOp::Eq, x, whens[k].0)),
        ),
        v is None ==> forall|i: int|
            from <= i < k ==> is_condition(evaluated(sc, (#[trigger] whens[i]).0)) && !is_true(
                evaluated(sc, whens[i].0),
            ),
        v is None && k < whens.len() ==> is_true(evaluated(sc, whens[k].0)),
    ensures
        eval::chosen(sc, v, whens, from) == if k < whens.len() {
            Some(evaluated(sc, whens[k].1))
        } else {
            None
        },
    decreases k - from,
{
    case_step(sc, v, whens, from);
    if from < whens.len() {
        operator_value(sc, BinaryOp::Eq, x, whens[from].0);
    }
    if from < k {
        skipped_cases(sc, v, x, whens, from + 1, k);
    }
}

} // verus!
