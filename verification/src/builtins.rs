//! What the functions of SQL give, said of the texts and numbers that they are given.

use vstd::arithmetic::power::{lemma_pow_adds, lemma_pow_positive, pow};
use vstd::prelude::*;

use crate::conditions::worth;
use crate::env::Setting;
use crate::error::Failure;
use crate::functions;
use crate::number;
use crate::number::{Dec, Rounding};
use crate::strings;
use crate::value;
use crate::value::{Datum, Relation};

verus! {

// ---- NULL ----

/// COALESCE gives the first value that is not NULL, and NULL when all are.
pub proof fn coalesce_gives_the_first_value(a: Seq<Datum>, k: int)
    requires
        a.len() >= 2,
        0 <= k <= a.len(),
        forall|i: int| 0 <= i < k ==> (#[trigger] a[i]) is Null,
        k < a.len() ==> !(a[k] is Null),
    ensures
        functions::coalesce(a) == Ok::<Datum, Failure>(
            if k < a.len() {
                a[k]
            } else {
                Datum::Null
            },
        ),
{
    first_from(a, 0, k);
}

proof fn first_from(a: Seq<Datum>, i: int, k: int)
    requires
        0 <= i <= k <= a.len(),
        forall|j: int| i <= j < k ==> (#[trigger] a[j]) is Null,
        k < a.len() ==> !(a[k] is Null),
    ensures
        functions::first_some(a, i) == if k < a.len() {
            a[k]
        } else {
            Datum::Null
        },
    decreases k - i,
{
    if i < k {
        assert(a[i] is Null);
        first_from(a, i + 1, k);
    }
}

/// NVL is COALESCE of two values; NVL2 gives its second value for one that is not NULL and
/// its third for NULL.
pub proof fn null_is_replaced(x: Datum, y: Datum, z: Datum)
    ensures
        functions::nvl(seq![x, y]) == functions::coalesce(seq![x, y]),
        functions::nvl2(seq![x, y, z]) == Ok::<Datum, Failure>(
            if x is Null {
                z
            } else {
                y
            },
        ),
{
    reveal_with_fuel(functions::first_some, 3);
}

/// Whether two values are equal; NULL equals nothing.
pub open spec fn equals(env: Setting, a: Datum, b: Datum) -> bool {
    value::relation(a, b, env.date_format, env.year()) == Ok::<Option<Relation>, Failure>(
        Some(Relation::Equal),
    )
}

/// NULLIF gives NULL for two equal values and else the first.
pub proof fn nullif_of_equal_values(env: Setting, x: Datum, y: Datum)
    requires
        value::relation(x, y, env.date_format, env.year()) is Ok,
    ensures
        functions::nullif(env, seq![x, y]) == Ok::<Datum, Failure>(
            if equals(env, x, y) {
                Datum::Null
            } else {
                x
            },
        ),
{
}

/// Whether DECODE finds its first argument in the search of a place: they are equal, or both
/// NULL.
pub open spec fn decodes(env: Setting, a: Seq<Datum>, i: int) -> bool {
    (a[0] is Null && a[i] is Null) || equals(env, a[0], a[i])
}

/// DECODE gives what stands behind the first search that it finds, and the odd one out at the
/// end, or NULL, when it finds none.
pub proof fn decode_gives_what_it_finds(env: Setting, a: Seq<Datum>, k: int)
    requires
        3 <= a.len() <= 255,
        0 <= k,
        2 * k + 1 <= a.len(),
        forall|j: int|
            0 <= j < k ==> !decodes(env, a, 2 * j + 1) && (#[trigger] value::relation(
                a[0],
                a[2 * j + 1],
                env.date_format,
                env.year(),
            )) is Ok,
        2 * k + 2 < a.len() ==> decodes(env, a, 2 * k + 1),
    ensures
        functions::decode(env, a) == Ok::<Datum, Failure>(
            if 2 * k + 2 < a.len() {
                a[2 * k + 2]
            } else if 2 * k + 2 == a.len() {
                a[2 * k + 1]
            } else {
                Datum::Null
            },
        ),
{
    decoded_from(env, a, 0, k);
}

proof fn decoded_from(env: Setting, a: Seq<Datum>, j: int, k: int)
    requires
        0 <= j <= k,
        2 * k + 1 <= a.len(),
        forall|i: int|
            j <= i < k ==> !decodes(env, a, 2 * i + 1) && (#[trigger] value::relation(
                a[0],
                a[2 * i + 1],
                env.date_format,
                env.year(),
            )) is Ok,
    ensures
        functions::decoded(env, a, 2 * j + 1) == functions::decoded(env, a, 2 * k + 1),
    decreases k - j,
{
    if j < k {
        assert(value::relation(a[0], a[2 * j + 1], env.date_format, env.year()) is Ok);
        decoded_from(env, a, j + 1, k);
    }
}

// ---- texts ----

/// An integer as a number.
pub open spec fn num(n: int) -> Datum {
    Datum::Number(number::integer(n))
}

proof fn integer_of(n: int)
    requires
        i64::MIN <= n <= i64::MAX,
    ensures
        functions::as_int(num(n)) == Ok::<Option<int>, Failure>(Some(n)),
{
    number::lowest_not_above(n, 0);
    worth_of_lowest(n, 0, 0);
    assert(pow(10, 0) == 1) by {
        reveal(pow);
    }
    assert(number::at_scale(number::integer(n), 0) == n);
}

/// SUBSTR from a place on gives what is there, a place before the end counts from the back,
/// and with a length it gives no more than that many characters. The part up to a place and
/// the part behind it make up the text.
pub proof fn substr_cuts_at_its_place(env: Setting, s: Seq<char>, p: int, n: int)
    requires
        0 < p <= s.len() <= i64::MAX,
        1 <= n <= i64::MAX,
    ensures
        functions::substr(env, seq![Datum::Text(s), num(p)]) == Ok::<Datum, Failure>(
            Datum::Text(s.skip(p - 1)),
        ),
        functions::substr(env, seq![Datum::Text(s), num(-p)]) == Ok::<Datum, Failure>(
            Datum::Text(s.skip(s.len() - p)),
        ),
        ({
            let r = functions::substr(env, seq![Datum::Text(s), num(p), num(n)]);
            let end = if p - 1 + n < s.len() {
                p - 1 + n
            } else {
                s.len() as int
            };
            r == Ok::<Datum, Failure>(Datum::Text(s.subrange(p - 1, end)))
        }),
        s.take(p - 1) + s.skip(p - 1) == s,
{
    integer_of(p);
    integer_of(-p);
    integer_of(n);
    assert(s.take(p - 1) + s.skip(p - 1) =~= s);
}

/// SUBSTR from a place that the text does not have gives NULL.
pub proof fn substr_outside_is_null(env: Setting, s: Seq<char>, p: int)
    requires
        i64::MIN <= p <= i64::MAX,
        p > s.len() || p < -(s.len() as int),
    ensures
        functions::substr(env, seq![Datum::Text(s), num(p)]) == Ok::<Datum, Failure>(Datum::Null),
{
    integer_of(p);
}

/// How often a text stands in another at places from `i` to `j`, `j` not among them.
pub open spec fn occurrences(s: Seq<char>, sub: Seq<char>, i: int, j: int) -> nat
    decreases j - i,
{
    if i >= j {
        0
    } else {
        occurrences(s, sub, i, j - 1) + if strings::holds_at(s, sub, j - 1) {
            1nat
        } else {
            0
        }
    }
}

proof fn one_place_less(s: Seq<char>, sub: Seq<char>, i: int, j: int)
    requires
        i < j,
    ensures
        occurrences(s, sub, i, j) == occurrences(s, sub, i + 1, j) + if strings::holds_at(
            s,
            sub,
            i,
        ) {
            1nat
        } else {
            0
        },
    decreases j - i,
{
    if i + 1 < j {
        one_place_less(s, sub, i, j - 1);
    } else {
        assert(occurrences(s, sub, i, i) == 0);
        assert(occurrences(s, sub, i + 1, j) == 0);
    }
}

/// INSTR gives the place of the occurrence that it is asked for, counted from the place where
/// it starts, and 0 when there are not so many.
pub proof fn instr_counts_occurrences(s: Seq<char>, sub: Seq<char>, p: int, occ: int)
    requires
        p > 0,
        occ >= 1,
    ensures
        ({
            let r = strings::position(s, sub, p, occ);
            if r == 0 {
                occurrences(s, sub, p - 1, s.len() as int + 1) < occ
            } else {
                &&& r >= p
                &&& strings::holds_at(s, sub, r - 1)
                &&& occurrences(s, sub, p - 1, r - 1) == occ - 1
            }
        }),
{
    found_from(s, sub, p - 1, occ);
}

proof fn found_from(s: Seq<char>, sub: Seq<char>, i: int, occ: int)
    requires
        i >= 0,
        occ >= 1,
    ensures
        ({
            let r = strings::find_forward(s, sub, i, occ);
            if r == 0 {
                occurrences(s, sub, i, s.len() as int + 1) < occ
            } else {
                &&& r > i
                &&& strings::holds_at(s, sub, r - 1)
                &&& occurrences(s, sub, i, r - 1) == occ - 1
            }
        }),
    decreases s.len() - i + 1,
{
    if i + sub.len() > s.len() {
        none_left(s, sub, i, s.len() as int + 1);
    } else {
        one_place_less(s, sub, i, s.len() as int + 1);
        if strings::holds_at(s, sub, i) {
            if occ > 1 {
                found_from(s, sub, i + 1, occ - 1);
                let r = strings::find_forward(s, sub, i + 1, occ - 1);
                if r != 0 {
                    one_place_less(s, sub, i, r - 1);
                }
            }
        } else {
            found_from(s, sub, i + 1, occ);
            let r = strings::find_forward(s, sub, i + 1, occ);
            if r != 0 {
                one_place_less(s, sub, i, r - 1);
            }
        }
    }
}

proof fn none_left(s: Seq<char>, sub: Seq<char>, i: int, j: int)
    requires
        i + sub.len() > s.len(),
    ensures
        occurrences(s, sub, i, j) == 0,
    decreases j - i,
{
    if i < j {
        none_left(s, sub, i, j - 1);
    }
}

/// INSTR from the back gives the last place, at or before the one it starts from, where the
/// text stands.
pub proof fn instr_from_the_back(s: Seq<char>, sub: Seq<char>, p: int)
    requires
        p < 0,
    ensures
        ({
            let r = strings::position(s, sub, p, 1);
            let start = s.len() + p - sub.len() + 1;
            if r == 0 {
                forall|j: int| 0 <= j <= start ==> !#[trigger] strings::holds_at(s, sub, j)
            } else {
                &&& 1 <= r <= start + 1
                &&& strings::holds_at(s, sub, r - 1)
                &&& forall|j: int| r <= j <= start ==> !#[trigger] strings::holds_at(s, sub, j)
            }
        }),
{
    found_back(s, sub, s.len() + p - sub.len() + 1);
}

proof fn found_back(s: Seq<char>, sub: Seq<char>, i: int)
    ensures
        ({
            let r = strings::find_backward(s, sub, i, 1);
            if r == 0 {
                forall|j: int| 0 <= j <= i ==> !#[trigger] strings::holds_at(s, sub, j)
            } else {
                &&& 1 <= r <= i + 1
                &&& strings::holds_at(s, sub, r - 1)
                &&& forall|j: int| r <= j <= i ==> !#[trigger] strings::holds_at(s, sub, j)
            }
        }),
    decreases i + 1,
{
    if i >= 0 && !strings::holds_at(s, sub, i) {
        found_back(s, sub, i - 1);
    }
}

proof fn replaced_behind(s: Seq<char>, from: Seq<char>, to: Seq<char>, i: int, k: int)
    requires
        0 <= i,
        0 <= k,
        i + k <= s.len(),
        from.len() > 0,
    ensures
        strings::replaced(s, from, to, i + k) == strings::replaced(s.skip(i), from, to, k),
    decreases s.len() - i - k,
{
    let t = s.skip(i);
    if i + k < s.len() {
        assert(strings::holds_at(s, from, i + k) == strings::holds_at(t, from, k)) by {
            if i + k + from.len() <= s.len() {
                assert(s.subrange(i + k, i + k + from.len()) =~= t.subrange(k, k + from.len()));
            }
        }
        if strings::holds_at(s, from, i + k) {
            replaced_behind(s, from, to, i, k + from.len());
        } else {
            assert(s[i + k] == t[k]);
            replaced_behind(s, from, to, i, k + 1);
        }
    } else {
        assert(s.skip(i + k) =~= t.skip(k));
    }
}

/// REPLACE puts the new text for the first occurrence and goes on behind that, and leaves a
/// text without an occurrence as it is.
pub proof fn replace_goes_from_left_to_right(
    s: Seq<char>,
    from: Seq<char>,
    to: Seq<char>,
    k: int,
)
    requires
        from.len() > 0,
        0 <= k <= s.len(),
        forall|j: int| 0 <= j < k ==> !#[trigger] strings::holds_at(s, from, j),
        k < s.len() ==> strings::holds_at(s, from, k),
    ensures
        strings::replaced(s, from, to, 0) == if k < s.len() {
            s.take(k) + to + strings::replaced(s.skip(k + from.len()), from, to, 0)
        } else {
            s
        },
{
    kept_upto(s, from, to, 0, k);
    assert(s.subrange(0, k) =~= s.take(k));
    if k < s.len() {
        replaced_behind(s, from, to, k + from.len(), 0);
        let rest = strings::replaced(s, from, to, k + from.len());
        assert(s.take(k) + (to + rest) =~= s.take(k) + to + rest);
    } else {
        assert(s.take(k) + s.skip(k) =~= s);
    }
}

proof fn kept_upto(s: Seq<char>, from: Seq<char>, to: Seq<char>, i: int, k: int)
    requires
        from.len() > 0,
        0 <= i <= k <= s.len(),
        forall|j: int| 0 <= j < k ==> !#[trigger] strings::holds_at(s, from, j),
    ensures
        strings::replaced(s, from, to, i) == s.subrange(i, k) + strings::replaced(s, from, to, k),
    decreases k - i,
{
    if i < k {
        assert(!strings::holds_at(s, from, i));
        kept_upto(s, from, to, i + 1, k);
        let rest = strings::replaced(s, from, to, k);
        assert(seq![s[i]] + (s.subrange(i + 1, k) + rest) =~= s.subrange(i, k) + rest);
    } else {
        let rest = strings::replaced(s, from, to, k);
        assert(s.subrange(i, k) + rest =~= rest);
    }
}

/// TRANSLATE makes something of each character by itself: what stands at its place in the
/// other list, nothing where that is shorter, and the character where it is in no list.
pub proof fn translate_goes_by_characters(
    a: Seq<char>,
    b: Seq<char>,
    from: Seq<char>,
    to: Seq<char>,
    k: int,
)
    ensures
        strings::translated(a + b, from, to) == strings::translated(a, from, to)
            + strings::translated(b, from, to),
        0 <= k < from.len() && (forall|j: int| 0 <= j < k ==> #[trigger] from[j] != from[k])
            ==> strings::translated(seq![from[k]], from, to) == if k < to.len() {
            seq![to[k]]
        } else {
            Seq::empty()
        },
        forall|c: char|
            !#[trigger] from.contains(c) ==> strings::translated(seq![c], from, to) == seq![c],
    decreases b.len(),
{
    let (x, y) = (strings::translated(a, from, to), strings::translated(b, from, to));
    if b.len() > 0 {
        translate_goes_by_characters(a, b.drop_last(), from, to, k);
        assert((a + b).drop_last() =~= a + b.drop_last());
        let z = strings::translated(b.drop_last(), from, to);
        let last = strings::mapped(b.last(), from, to);
        assert(x + z + last =~= x + (z + last));
    } else {
        assert(a + b =~= a);
        assert(x + y =~= x);
    }
    if 0 <= k < from.len() && (forall|j: int| 0 <= j < k ==> #[trigger] from[j] != from[k]) {
        first_place(from, from[k], 0, k);
        one_character(from[k], from, to);
    }
    assert forall|c: char| !#[trigger] from.contains(c) implies strings::translated(
        seq![c],
        from,
        to,
    ) == seq![c] by {
        no_place(from, c, 0);
        one_character(c, from, to);
    }
}

proof fn one_character(c: char, from: Seq<char>, to: Seq<char>)
    ensures
        strings::translated(seq![c], from, to) == strings::mapped(c, from, to),
{
    reveal_with_fuel(strings::translated, 2);
    assert(seq![c].drop_last() =~= Seq::<char>::empty());
    assert(Seq::<char>::empty() + strings::mapped(c, from, to) =~= strings::mapped(c, from, to));
}

proof fn first_place(s: Seq<char>, c: char, i: int, k: int)
    requires
        0 <= i <= k < s.len(),
        s[k] == c,
        forall|j: int| 0 <= j < k ==> #[trigger] s[j] != c,
    ensures
        strings::index_from(s, c, i) == Some(k),
    decreases k - i,
{
    if i < k {
        assert(s[i] != c);
        first_place(s, c, i + 1, k);
    }
}

proof fn no_place(s: Seq<char>, c: char, i: int)
    requires
        0 <= i,
        !s.contains(c),
    ensures
        strings::index_from(s, c, i) is None,
    decreases s.len() - i,
{
    if i < s.len() {
        assert(s[i] != c);
        no_place(s, c, i + 1);
    }
}

/// LTRIM and RTRIM take away characters of their set alone, and as many as stand there.
pub proof fn trims_take_the_set_away(s: Seq<char>, set: Seq<char>)
    ensures
        ({
            let r = strings::trim_front(s, set);
            &&& exists|k: int|
                0 <= k <= s.len() && r == #[trigger] s.skip(k) && forall|j: int|
                    0 <= j < k ==> set.contains(#[trigger] s[j])
            &&& r.len() > 0 ==> !set.contains(r[0])
        }),
        ({
            let r = strings::trim_back(s, set);
            &&& exists|k: int|
                0 <= k <= s.len() && r == #[trigger] s.take(k) && forall|j: int|
                    k <= j < s.len() ==> set.contains(#[trigger] s[j])
            &&& r.len() > 0 ==> !set.contains(r.last())
        }),
    decreases s.len(),
{
    if s.len() > 0 && set.contains(s[0]) {
        let t = s.skip(1);
        trims_take_the_set_away(t, set);
        let r = strings::trim_front(t, set);
        let k = choose|k: int|
            0 <= k <= t.len() && r == #[trigger] t.skip(k) && forall|j: int|
                0 <= j < k ==> set.contains(#[trigger] t[j]);
        assert(t.skip(k) =~= s.skip(k + 1));
        assert forall|j: int| 0 <= j < k + 1 implies set.contains(#[trigger] s[j]) by {
            if j > 0 {
                assert(t[j - 1] == s[j]);
            }
        }
    } else {
        assert(s.skip(0) =~= s);
    }
    if s.len() > 0 && set.contains(s.last()) {
        let t = s.drop_last();
        trims_take_the_set_away(t, set);
        let r = strings::trim_back(t, set);
        let k = choose|k: int|
            0 <= k <= t.len() && r == #[trigger] t.take(k) && forall|j: int|
                k <= j < t.len() ==> set.contains(#[trigger] t[j]);
        assert(t.take(k) =~= s.take(k));
        assert forall|j: int| k <= j < s.len() implies set.contains(#[trigger] s[j]) by {
            if j < t.len() {
                assert(t[j] == s[j]);
            }
        }
    } else {
        assert(s.take(s.len() as int) =~= s);
    }
}

/// LPAD puts its filling in front of the text and RPAD behind it, over and over; a text that
/// is longer is cut at its end.
pub proof fn padding_keeps_the_text(s: Seq<char>, n: int, pad: Seq<char>)
    requires
        n >= 0,
        pad.len() > 0,
    ensures
        s.len() <= n ==> ({
            let l = strings::fitted(s, n, pad, true);
            let r = strings::fitted(s, n, pad, false);
            &&& l.skip(n - s.len()) =~= s
            &&& r.take(s.len() as int) =~= s
            &&& forall|i: int|
                0 <= i < n - s.len() ==> #[trigger] l[i] == pad[i % pad.len() as int]
            &&& forall|i: int|
                s.len() <= i < n ==> #[trigger] r[i] == pad[(i - s.len()) % pad.len() as int]
        }),
        s.len() > n ==> strings::fitted(s, n, pad, true) == s.take(n) && strings::fitted(
            s,
            n,
            pad,
            false,
        ) == s.take(n),
{
}

/// ASCII is the number of the first character, and CHR gives the character of a number back.
pub proof fn characters_and_their_numbers(env: Setting, c: char)
    requires
        functions::as_int(num(c as u32 as int)) == Ok::<Option<int>, Failure>(
            Some(c as u32 as int),
        ),
    ensures
        functions::ascii(env, seq![Datum::Text(seq![c])]) == Ok::<Datum, Failure>(
            num(c as u32 as int),
        ),
        functions::chr(seq![num(c as u32 as int)]) == Ok::<Datum, Failure>(Datum::Text(seq![c])),
{
}

/// CONCAT joins two texts, and LENGTH counts characters.
pub proof fn joined_texts(env: Setting, a: Seq<char>, b: Seq<char>)
    requires
        a.len() + b.len() <= i64::MAX,
        a.len() > 0,
    ensures
        functions::concat(env, seq![Datum::Text(a), Datum::Text(b)]) == Ok::<Datum, Failure>(
            Datum::Text(a + b),
        ),
        functions::concat(env, seq![Datum::Text(a), Datum::Null]) == Ok::<Datum, Failure>(
            Datum::Text(a),
        ),
        functions::length(env, seq![Datum::Text(a)], false) == Ok::<Datum, Failure>(
            num(a.len() as int),
        ),
{
    assert(a + Seq::<char>::empty() =~= a);
}

// ---- numbers ----

/// A number in lowest terms is worth what it was.
pub proof fn worth_of_lowest(i: int, sc: int, s: int)
    requires
        sc <= s,
    ensures
        worth(number::lowest(i, sc), s) == i * pow(10, (s - sc) as nat),
    decreases number::abs(i),
{
    if i == 0 {
        assert(0 * pow(10, (s - sc) as nat) == 0);
        assert(0 * pow(10, s as nat) == 0);
    } else if i % 10 == 0 {
        worth_of_lowest(i / 10, sc - 1, s);
        assert(pow(10, (s - sc + 1) as nat) == 10 * pow(10, (s - sc) as nat)) by {
            reveal(pow);
        }
        let p = pow(10, (s - sc) as nat);
        assert((i / 10) * (10 * p) == i * p) by (nonlinear_arith)
            requires
                i % 10 == 0,
        ;
    }
}

/// Which side of a number its rounding lies on, and how near. The unit is `10^-places`.
pub open spec fn is_rounding(n: int, r: int, unit: int, mode: Rounding) -> bool {
    &&& r % unit == 0
    &&& match mode {
        Rounding::Down => (0 <= n ==> 0 <= r <= n && n < r + unit) && (n <= 0 ==> n <= r <= 0 && r
            - unit < n),
        Rounding::HalfUp => (0 <= n ==> 2 * (n - r) < unit && 2 * (r - n) <= unit) && (n <= 0
            ==> 2 * (r - n) < unit && 2 * (n - r) <= unit),
        Rounding::HalfEven => 2 * (n - r) <= unit && 2 * (r - n) <= unit && (2 * (n - r) == unit
            || 2 * (r - n) == unit ==> (r / unit) % 2 == 0),
        Rounding::Ceiling => n <= r && r < n + unit,
        Rounding::Floor => r <= n && n < r + unit,
    }
}

proof fn rounded_integer(i: int, p: int, mode: Rounding)
    requires
        p > 0,
    ensures
        is_rounding(i, number::rounded_quotient(i, p, mode) * p, p, mode),
{
    let a = number::abs(i);
    let (q, r) = (a / p, a % p);
    assert(a == q * p + r && 0 <= r < p) by {
        vstd::arithmetic::div_mod::lemma_fundamental_div_mod(a, p);
        assert(p * q == q * p) by (nonlinear_arith);
    }
    assert(q >= 0) by (nonlinear_arith)
        requires
            a >= 0,
            p > 0,
            q == a / p,
    ;
    let m = number::rounded_quotient(i, p, mode);
    assert((m * p) % p == 0) by {
        vstd::arithmetic::div_mod::lemma_mod_multiples_basic(m, p);
    }
    assert((m * p) / p == m) by {
        vstd::arithmetic::div_mod::lemma_fundamental_div_mod_converse(m * p, p, m, 0);
    }
    assert((q + 1) * p == q * p + p) by (nonlinear_arith);
    assert((-q) * p == -(q * p)) by (nonlinear_arith);
    assert((-(q + 1)) * p == -(q * p + p)) by (nonlinear_arith);
    assert(0 <= q * p) by (nonlinear_arith)
        requires
            q >= 0,
            p > 0,
    ;
}

/// Rounding gives a number of the unit it is rounded to: CEIL the next one up, FLOOR the next
/// one down, TRUNC the next towards zero, and ROUND the nearest, away from zero when halfway.
pub proof fn rounding_goes_to_the_unit(d: Dec, places: int, mode: Rounding)
    requires
        places < d.scale,
    ensures
        is_rounding(
            d.int_val,
            worth(number::rounded(d, places, mode), d.scale),
            pow(10, (d.scale - places) as nat),
            mode,
        ),
{
    let p = pow(10, (d.scale - places) as nat);
    lemma_pow_positive(10, (d.scale - places) as nat);
    rounded_integer(d.int_val, p, mode);
    worth_of_lowest(number::rounded_quotient(d.int_val, p, mode), places, d.scale);
}

/// What rounds to a unit and has no more digits stays as it is; CEIL, FLOOR, ROUND and TRUNC
/// each round in their own way.
pub proof fn the_functions_that_round(env: Setting, n: Dec, p: int)
    requires
        number::in_range(n),
        -number::MAX_SCALE <= p <= i64::MAX,
        functions::as_int(num(p)) == Ok::<Option<int>, Failure>(Some(p)),
    ensures
        number::rounded(n, n.scale, Rounding::HalfUp) == n,
        ({
            let c = functions::one_number(functions::OneNumber::Ceil, seq![Datum::Number(n)]);
            let r = number::rounded(n, 0, Rounding::Ceiling);
            number::in_range(r) ==> c == functions::Reply::Exactly(Ok(Datum::Number(r)))
        }),
        ({
            let c = functions::one_number(functions::OneNumber::Floor, seq![Datum::Number(n)]);
            let r = number::rounded(n, 0, Rounding::Floor);
            number::in_range(r) ==> c == functions::Reply::Exactly(Ok(Datum::Number(r)))
        }),
        ({
            let r = number::rounded(n, p, Rounding::HalfUp);
            number::in_range(r) ==> functions::round(env, seq![Datum::Number(n), num(p)], true)
                == Ok::<Datum, Failure>(Datum::Number(r))
        }),
        ({
            let r = number::rounded(n, p, Rounding::Down);
            number::in_range(r) ==> functions::round(env, seq![Datum::Number(n), num(p)], false)
                == Ok::<Datum, Failure>(Datum::Number(r))
        }),
        functions::one_number(functions::OneNumber::Abs, seq![Datum::Number(n)])
            == functions::Reply::Exactly(
            Ok(
                Datum::Number(
                    if n.int_val < 0 {
                        number::negated(n)
                    } else {
                        n
                    },
                ),
            ),
        ),
        functions::one_number(functions::OneNumber::Sign, seq![Datum::Number(n)])
            == functions::Reply::Exactly(
            Ok(
                num(
                    if n.int_val < 0 {
                        -1
                    } else if n.int_val > 0 {
                        1
                    } else {
                        0
                    },
                ),
            ),
        ),
{
}

/// GREATEST and LEAST of numbers give one of them, and none is greater, or less.
pub proof fn the_greatest_and_the_least(
    env: Setting,
    a: Seq<Datum>,
    ns: Seq<Dec>,
    s: int,
    greatest: bool,
)
    requires
        1 <= a.len() <= 255,
        ns.len() == a.len(),
        forall|i: int| 0 <= i < a.len() ==> #[trigger] a[i] == Datum::Number(ns[i]),
        forall|i: int| 0 <= i < a.len() ==> (#[trigger] ns[i]).scale <= s,
    ensures
        ({
            let r = functions::extreme(env, a, greatest);
            exists|k: int|
                0 <= k < a.len() && r == Ok::<Datum, Failure>(#[trigger] a[k]) && forall|i: int|
                    0 <= i < a.len() ==> if greatest {
                        worth(#[trigger] ns[i], s) <= worth(ns[k], s)
                    } else {
                        worth(ns[k], s) <= worth(ns[i], s)
                    }
        }),
{
    assert(!exists|i: int| 0 <= i < a.len() && (#[trigger] a[i]) is Null);
    best_upto(env, a, ns, s, greatest, a.len() as int);
}

proof fn best_upto(
    env: Setting,
    a: Seq<Datum>,
    ns: Seq<Dec>,
    s: int,
    greatest: bool,
    n: int,
)
    requires
        1 <= n <= a.len(),
        ns.len() == a.len(),
        forall|i: int| 0 <= i < a.len() ==> #[trigger] a[i] == Datum::Number(ns[i]),
        forall|i: int| 0 <= i < a.len() ==> (#[trigger] ns[i]).scale <= s,
    ensures
        exists|k: int|
            0 <= k < n && functions::best_of(env, a, greatest, n) == Ok::<Datum, Failure>(
                #[trigger] a[k],
            ) && forall|i: int|
                0 <= i < n ==> if greatest {
                    worth(#[trigger] ns[i], s) <= worth(ns[k], s)
                } else {
                    worth(ns[k], s) <= worth(ns[i], s)
                },
    decreases n,
{
    if n == 1 {
        assert(functions::best_of(env, a, greatest, 1) == Ok::<Datum, Failure>(a[0]));
    } else {
        best_upto(env, a, ns, s, greatest, n - 1);
        let k = choose|k: int|
            0 <= k < n - 1 && functions::best_of(env, a, greatest, n - 1) == Ok::<Datum, Failure>(
                #[trigger] a[k],
            ) && forall|i: int|
                0 <= i < n - 1 ==> if greatest {
                    worth(#[trigger] ns[i], s) <= worth(ns[k], s)
                } else {
                    worth(ns[k], s) <= worth(ns[i], s)
                };
        assert(a[n - 1] == Datum::Number(ns[n - 1]) && a[k] == Datum::Number(ns[k]));
        assert(ns[n - 1].scale <= s && ns[k].scale <= s);
        crate::conditions::order_at_any_scale(ns[n - 1], ns[k], s);
        crate::conditions::order_at_any_scale(ns[k], ns[n - 1], s);
        let r = functions::best_of(env, a, greatest, n);
        assert(r == Ok::<Datum, Failure>(a[n - 1]) || r == Ok::<Datum, Failure>(a[k]));
    }
}

} // verus!
