//! What the calendar and the formats of numbers come to, said of days, months and digits.

use vstd::prelude::*;

use crate::datetime;
use crate::datetime::{days_in, months_later, truncated, valid, Moment};
use crate::error::Failure;
use crate::functions;
use crate::number;
use crate::number::Dec;
use crate::numfmt;
use crate::numfmt::Shape;
use crate::strings;
use crate::text;

verus! {

// ---- months ----

/// The months between a date and one that lies some months later are those months, where the
/// day of the month is one that every month has or the last of its month.
pub proof fn months_added_are_between(m: Moment, n: int)
    requires
        valid(m),
        m.day <= 28 || m.day == days_in(m.year, m.month),
    ensures
        functions::months_apart(months_later(m, n), m) == Ok::<Dec, Failure>(number::integer(n)),
        functions::months_apart(m, months_later(m, n)) == Ok::<Dec, Failure>(number::integer(-n)),
{
    let x = months_later(m, n);
    let total = m.year * 12 + (m.month - 1) + n;
    assert(x.year * 12 + x.month - 1 == total);
}

/// A date some months later has the day of the month that it had, or the last day where the
/// month is shorter; the last day of a month goes to the last day.
pub proof fn the_day_of_the_month_is_kept(m: Moment, n: int)
    requires
        valid(m),
    ensures
        ({
            let x = months_later(m, n);
            let last = days_in(x.year, x.month);
            &&& 1 <= x.month <= 12
            &&& 12 * x.year + x.month == 12 * m.year + m.month + n
            &&& m.day < days_in(m.year, m.month) && m.day <= last ==> x.day == m.day
            &&& m.day == days_in(m.year, m.month) || m.day > last ==> x.day == last
        }),
{
}

/// Going back as many months as forward comes to the same date, where every month has the
/// day and the day is the last of neither month.
pub proof fn months_there_and_back(m: Moment, n: int)
    requires
        valid(m),
        m.day < 28,
    ensures
        months_later(months_later(m, n), -n) == m,
{
}

/// February has a day more every fourth year, but for the hundredth years of which four do
/// not divide the hundreds; twelve months have 365 days, and 366 with that day.
pub proof fn the_length_of_years(year: int)
    ensures
        days_in(year, 1) + days_in(year, 2) + days_in(year, 3) + days_in(year, 4) + days_in(year, 5)
            + days_in(year, 6) + days_in(year, 7) + days_in(year, 8) + days_in(year, 9) + days_in(
            year,
            10,
        ) + days_in(year, 11) + days_in(year, 12) == if days_in(year, 2) == 29 {
            366int
        } else {
            365
        },
        days_in(year, 2) == 28 || days_in(year, 2) == 29,
        days_in(year + 400, 2) == days_in(year, 2),
        days_in(4 * year, 2) == 28 ==> (4 * year) % 100 == 0,
        days_in(400 * year, 2) == 29,
        days_in(2 * year + 1, 2) == 28,
{
}

// ---- units ----

/// Whether two moments lie in one unit of the calendar or the clock.
pub open spec fn same_unit(unit: Seq<char>, a: Moment, b: Moment) -> bool {
    let year = a.year == b.year;
    let month = year && a.month == b.month;
    let day = month && a.day == b.day;
    let hour = day && a.hour == b.hour;
    if unit == "YYYY"@ {
        year
    } else if unit == "Q"@ {
        year && (a.month - 1) / 3 == (b.month - 1) / 3
    } else if unit == "MM"@ {
        month
    } else if unit == "DD"@ {
        day
    } else if unit == "HH24"@ {
        hour
    } else {
        hour && a.minute == b.minute
    }
}

/// Whether a moment is no later than another, by its parts.
pub open spec fn not_after(a: Moment, b: Moment) -> bool {
    if a.year != b.year {
        a.year < b.year
    } else if a.month != b.month {
        a.month < b.month
    } else if a.day != b.day {
        a.day < b.day
    } else if a.hour != b.hour {
        a.hour < b.hour
    } else if a.minute != b.minute {
        a.minute < b.minute
    } else if a.second != b.second {
        a.second < b.second
    } else {
        a.nano <= b.nano
    }
}

/// TRUNC gives the first moment of the unit in which a moment lies.
pub proof fn truncating_gives_the_first_of_the_unit(m: Moment, unit: Seq<char>, k: Moment)
    requires
        valid(m),
        valid(k),
        text::upper(unit) == unit,
        unit == "YYYY"@ || unit == "Q"@ || unit == "MM"@ || unit == "DD"@ || unit == "HH24"@
            || unit == "MI"@,
    ensures
        truncated(m, unit) is Ok,
        same_unit(unit, truncated(m, unit)->Ok_0, m),
        valid(truncated(m, unit)->Ok_0),
        same_unit(unit, k, m) ==> not_after(truncated(m, unit)->Ok_0, k),
{
    reveal_strlit("DD");
    reveal_strlit("DDD");
    reveal_strlit("J");
    reveal_strlit("MM");
    reveal_strlit("MON");
    reveal_strlit("MONTH");
    reveal_strlit("RM");
    reveal_strlit("YYYY");
    reveal_strlit("YYY");
    reveal_strlit("YY");
    reveal_strlit("Y");
    reveal_strlit("YEAR");
    reveal_strlit("SYYYY");
    reveal_strlit("RRRR");
    reveal_strlit("RR");
    reveal_strlit("Q");
    reveal_strlit("HH");
    reveal_strlit("HH12");
    reveal_strlit("HH24");
    reveal_strlit("MI");
    assert("MM"@[0] != "DD"@[0]);
    assert("Q"@[0] != "J"@[0] && "Q"@[0] != "Y"@[0]);
    assert("HH24"@[0] != "YYYY"@[0] && "HH24"@[0] != "YEAR"@[0] && "HH24"@[0] != "RRRR"@[0]);
    assert("MI"@[0] != "DD"@[0] && "MI"@[1] != "MM"@[1] && "MI"@[0] != "RM"@[0]);
    assert("MI"@[0] != "YY"@[0] && "MI"@[0] != "RR"@[0] && "MI"@[0] != "HH"@[0]);
}

/// Weeks begin on a Sunday for `D` and on a Monday for `IW`: TRUNC goes back to the start of
/// that day, and less than seven days.
pub proof fn weeks_begin_on_their_day(m: Moment, unit: Seq<char>)
    requires
        valid(m),
        text::upper(unit) == unit,
        unit == "D"@ || unit == "IW"@,
    ensures
        exists|d: int|
            {
                &&& 0 <= d < 7
                &&& truncated(m, unit) == #[trigger] datetime::days_back(datetime::midnight(m), d)
                &&& (datetime::day_number(m) - d - 1) % 7 == if unit == "D"@ {
                    6int
                } else {
                    0
                }
            },
{
    reveal_strlit("D");
    reveal_strlit("IW");
    reveal_strlit("DD");
    reveal_strlit("DDD");
    reveal_strlit("J");
    reveal_strlit("MM");
    reveal_strlit("MON");
    reveal_strlit("MONTH");
    reveal_strlit("RM");
    reveal_strlit("YYYY");
    reveal_strlit("YYY");
    reveal_strlit("YY");
    reveal_strlit("Y");
    reveal_strlit("YEAR");
    reveal_strlit("SYYYY");
    reveal_strlit("RRRR");
    reveal_strlit("RR");
    reveal_strlit("Q");
    reveal_strlit("HH");
    reveal_strlit("HH12");
    reveal_strlit("HH24");
    reveal_strlit("MI");
    reveal_strlit("DY");
    reveal_strlit("DAY");
    assert("D"@[0] != "J"@[0] && "D"@[0] != "Y"@[0] && "D"@[0] != "Q"@[0]);
    assert("IW"@[0] != "DD"@[0] && "IW"@[0] != "MM"@[0] && "IW"@[0] != "RM"@[0]);
    assert("IW"@[0] != "YY"@[0] && "IW"@[0] != "RR"@[0] && "IW"@[0] != "HH"@[0]);
    assert("IW"@[0] != "MI"@[0] && "IW"@[0] != "DY"@[0]);
    if unit == "D"@ {
        let d = (datetime::weekday(m) + 1) % 7;
        assert(unit.len() == 1);
        assert(unit != "J"@ && unit != "Y"@ && unit != "Q"@);
        assert(unit != "DD"@ && unit != "DDD"@ && unit != "MM"@ && unit != "RM"@);
        assert(unit != "MI"@);
        assert(truncated(m, unit) == datetime::days_back(datetime::midnight(m), d));
    } else {
        let d = datetime::weekday(m);
        assert(truncated(m, unit) == datetime::days_back(datetime::midnight(m), d));
    }
}

// ---- numbers by a model ----

/// The digits of a text, in their order.
pub open spec fn digits_in(s: Seq<char>) -> Seq<char>
    decreases s.len(),
{
    if s.len() == 0 {
        Seq::empty()
    } else if '0' <= s[0] <= '9' {
        seq![s[0]] + digits_in(s.skip(1))
    } else {
        digits_in(s.skip(1))
    }
}

/// The digits that a model shows in front of the point are those of the number, with zeros in
/// front or not.
pub proof fn a_model_shows_all_digits(f: Seq<char>, d: Seq<char>) -> (z: nat)
    requires
        d.len() <= numfmt::slots_from(f, 0),
        forall|i: int| 0 <= i < d.len() ==> '0' <= #[trigger] d[i] <= '9',
    ensures
        digits_in(numfmt::int_chars(f, d)) == Seq::new(z, |i: int| '0') + d,
{
    let s = numfmt::int_chars(f, d);
    let z = digits_from(f, d, 0);
    assert(s.skip(0) =~= s);
    z
}

proof fn digits_from(f: Seq<char>, d: Seq<char>, i: int) -> (z: nat)
    requires
        0 <= i <= f.len(),
        forall|i: int| 0 <= i < d.len() ==> '0' <= #[trigger] d[i] <= '9',
    ensures
        ({
            let n = numfmt::slots_from(f, i);
            let shown = digits_in(numfmt::int_chars(f, d).skip(i));
            &&& n >= 0
            &&& d.len() <= n ==> shown == Seq::new(z, |i: int| '0') + d
            &&& d.len() > n ==> shown == d.skip(d.len() - n)
        }),
    decreases f.len() - i,
{
    let s = numfmt::int_chars(f, d);
    let n = numfmt::slots_from(f, i);
    if i == f.len() {
        assert(s.skip(i) =~= Seq::<char>::empty());
        assert(d.len() > 0 ==> d.skip(d.len() as int) =~= Seq::<char>::empty());
        assert(d.len() == 0 ==> Seq::new(0, |i: int| '0') + d =~= Seq::<char>::empty());
        0
    } else {
        let z = digits_from(f, d, i + 1);
        let used = numfmt::slots_from(f, i + 1);
        let rest = digits_in(s.skip(i + 1));
        assert(s.skip(i).skip(1) =~= s.skip(i + 1));
        assert(s.skip(i)[0] == s[i]);
        if numfmt::is_slot(f[i]) && used < d.len() {
            assert(seq![d[d.len() - 1 - used]] + d.skip(d.len() - used) =~= d.skip(
                d.len() - 1 - used,
            ));
            assert(n == d.len() ==> d.skip(0) =~= Seq::new(0, |i: int| '0') + d);
            0
        } else if s[i] == '0' {
            assert(seq!['0'] + (Seq::new(z, |i: int| '0') + d) =~= Seq::new(
                z + 1,
                |i: int| '0',
            ) + d);
            z + 1
        } else {
            z
        }
    }
}

/// A separator stands between digits and nowhere else: what a model shows at one is a comma
/// or a space, and a comma only behind a digit.
pub proof fn separators_stand_behind_digits(f: Seq<char>, d: Seq<char>, i: int)
    requires
        0 <= i < f.len(),
        !numfmt::is_slot(f[i]),
    ensures
        numfmt::int_chars(f, d)[i] == ',' || numfmt::int_chars(f, d)[i] == ' ',
        d.len() > numfmt::slots_from(f, i + 1) ==> numfmt::int_chars(f, d)[i] == ',',
        d.len() <= numfmt::slots_from(f, i + 1) && !f.contains('0') ==> numfmt::int_chars(
            f,
            d,
        )[i] == ' ',
{
    zero_in(f, 0);
}

proof fn zero_in(f: Seq<char>, i: int)
    requires
        0 <= i,
    ensures
        strings::index_from(f, '0', i) is Some ==> f.contains('0'),
    decreases f.len() - i,
{
    if i < f.len() && f[i] != '0' {
        zero_in(f, i + 1);
    }
}

/// Numbers by one model without `FM` and with one sign at most are all of one length: a place
/// for the sign, one for the currency where it is asked for, and the places of the model.
pub proof fn numbers_by_a_model_are_aligned(
    shape: Shape,
    negative: bool,
    digits: Seq<char>,
    frac: Seq<char>,
)
    requires
        !shape.fm,
        !(shape.leading_sign && (shape.trailing_mi || shape.trailing_s)),
    ensures
        numfmt::assembled(shape, negative, digits, frac).len() == shape.int_fmt.len() + 1 + (
        if shape.dollar {
            1int
        } else {
            0
        }) + (if shape.frac_fmt is Some {
            1 + frac.len() as int
        } else {
            0
        }),
{
    reveal_strlit("-");
    reveal_strlit("+");
    reveal_strlit(" ");
    reveal_strlit("");
    reveal_strlit("$");
    crate::builtins::trims_take_the_set_away(numfmt::int_part(shape, digits), seq![' ']);
}

/// A minus stands before or behind a negative number and no other; a plus only where a sign
/// is asked for.
pub proof fn the_sign_of_a_number(shape: Shape, negative: bool)
    ensures
        ({
            let signs = numfmt::sign_before(shape, negative) + numfmt::sign_after(shape, negative);
            &&& signs.contains('-') == negative
            &&& signs.contains('+') == (!negative && (shape.leading_sign || (shape.trailing_s
                && !shape.trailing_mi)))
            &&& signs.len() <= 1 || shape.leading_sign
        }),
{
    reveal_strlit("-");
    reveal_strlit("+");
    reveal_strlit(" ");
    reveal_strlit("");
    let (a, b) = (numfmt::sign_before(shape, negative), numfmt::sign_after(shape, negative));
    let signs = a + b;
    if a.len() > 0 {
        assert(signs[0] == a[0]);
    }
    if b.len() > 0 {
        assert(signs[a.len() as int] == b[0]);
    }
}

} // verus!
