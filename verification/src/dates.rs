//! Dates that are written and read under one format model.

use vstd::arithmetic::power::pow;
use vstd::prelude::*;
use vstd::string::*;
use vstd::utf8::*;

use crate::datetime;
use crate::datetime::{Case, Elem, Fields, Moment};
use crate::error;
use crate::literals;
use crate::number;
use crate::text;

verus! {

/// Whether an element is a piece of punctuation: ASCII characters that are neither
/// letters nor digits.
pub open spec fn is_mark(fmt: Seq<char>, e: Elem) -> bool {
    e is Literal && ({
        let lit = fmt.subrange(e->Literal_0 as int, e->Literal_1 as int);
        e->Literal_0 <= e->Literal_1 <= fmt.len() && forall|k: int|
            0 <= k < lit.len() ==> '\0' <= #[trigger] lit[k] <= '\u{7f}' && !text::is_ascii_alnum(lit[k])
    })
}

/// Whether a model names every part of a moment, down to the nanosecond, from the
/// year on and with punctuation between them.
pub open spec fn is_full(fmt: Seq<char>) -> bool {
    datetime::elements(fmt, 0) is Some && ({
        let es = datetime::elements(fmt, 0)->0;
        &&& es.len() == 13
        &&& es[0].0 == Elem::Yyyy
        &&& es[2].0 == Elem::Mm
        &&& es[4].0 == Elem::Dd
        &&& es[6].0 == Elem::Hh24
        &&& es[8].0 == Elem::Mi
        &&& es[10].0 == Elem::Ss
        &&& es[12].0 == Elem::Ff(9)
        &&& is_mark(fmt, es[1].0)
        &&& is_mark(fmt, es[3].0)
        &&& is_mark(fmt, es[5].0)
        &&& is_mark(fmt, es[7].0)
        &&& is_mark(fmt, es[9].0)
        &&& is_mark(fmt, es[11].0)
    })
}

/// Whether a moment is one that four digits of a year can name.
pub open spec fn is_plain(m: Moment) -> bool {
    &&& 1 <= m.year <= 9999
    &&& datetime::valid_date(m.year, m.month, m.day)
    &&& 0 <= m.hour <= 23
    &&& 0 <= m.minute <= 59
    &&& 0 <= m.second <= 59
    &&& 0 <= m.nano < 1_000_000_000
}

/// A number below a power of ten has no more digits than that.
proof fn decimal_is_short(n: nat, width: nat)
    requires
        n < pow(10, width),
        width > 0,
    ensures
        text::decimal(n).len() <= width,
    decreases n,
{
    reveal(pow);
    if n >= 10 {
        if width == 1 {
            assert(pow(10, 1) == 10 * pow(10, 0));
        }
        assert(pow(10, width) == 10 * pow(10, (width - 1) as nat));
        decimal_is_short(n / 10, (width - 1) as nat);
    }
}

/// Digits filled to a width are of that width and stand for the number.
proof fn filled_digits(n: nat, width: nat)
    requires
        n < pow(10, width),
        width > 0,
    ensures
        ({
            let s = text::zero_filled(text::decimal(n), width);
            &&& s.len() == width
            &&& number::all_digits(s)
            &&& number::digits_value(s) == n
        }),
{
    decimal_is_short(n, width);
    literals::decimal_reads_back(n);
    let d = text::decimal(n);
    if d.len() < width {
        literals::zeros_do_not_count((width - d.len()) as nat, d);
    }
}

proof fn digits_end_there(s: Seq<char>, i: int, width: int)
    requires
        0 <= i,
        0 <= width,
        i + width <= s.len(),
        forall|k: int| i <= k < i + width ==> text::is_digit(#[trigger] s[k]),
    ensures
        datetime::digits_end(s, i, width) == i + width,
    decreases width,
{
    if width > 0 {
        assert(text::is_digit(s[i]));
        digits_end_there(s, i + 1, width - 1);
    }
}

/// A number that was written to a width is read back.
proof fn number_is_read(s: Seq<char>, i: int, width: int, n: nat)
    requires
        0 <= i,
        0 < width,
        i + width <= s.len(),
        n < pow(10, width as nat),
        s.subrange(i, i + width) == text::zero_filled(text::decimal(n), width as nat),
    ensures
        datetime::number_at(s, i, width) == Ok::<(int, int), error::Failure>((n as int, i + width)),
        text::is_digit(s[i]),
        text::is_digit(s[i + width - 1]),
{
    filled_digits(n, width as nat);
    let part = s.subrange(i, i + width);
    assert forall|k: int| i <= k < i + width implies text::is_digit(#[trigger] s[k]) by {
        assert(s[k] == part[k - i]);
    }
    digits_end_there(s, i, width);
}

/// Punctuation is passed over up to the next digit.
proof fn marks_are_skipped(s: Seq<char>, i: int, n: int)
    requires
        0 <= i,
        0 <= n,
        i + n < s.len(),
        text::is_digit(s[i + n]),
        forall|k: int| i <= k < i + n ==> !text::is_ascii_alnum(#[trigger] s[k]),
    ensures
        datetime::skip_punctuation(s, i) == i + n,
    decreases n,
{
    if n > 0 {
        assert(!text::is_ascii_alnum(s[i]));
        marks_are_skipped(s, i + 1, n - 1);
    }
}

/// A text that starts and ends with digits is not trimmed.
proof fn nothing_to_trim(s: Seq<char>)
    requires
        s.len() > 0,
        text::is_digit(s[0]),
        text::is_digit(s.last()),
    ensures
        text::trimmed(s) == s,
{
    assert(s.skip(0) =~= s);
}

/// What the elements from a number and the mark behind it on read.
proof fn number_and_mark(
    b: Seq<u8>,
    fmt: Seq<char>,
    es: Seq<(Elem, Case)>,
    f: Fields,
    width: int,
    n: nat,
)
    requires
        es.len() >= 2,
        is_mark(fmt, es[1].0),
        0 < width,
        n < pow(10, width as nat),
        ({
            let s = datetime::latin(b);
            let lit = fmt.subrange(es[1].0->Literal_0 as int, es[1].0->Literal_1 as int);
            let end = f.at + width;
            &&& end + lit.len() < s.len() <= usize::MAX
            &&& s.subrange(f.at as int, end) == text::zero_filled(text::decimal(n), width as nat)
            &&& s.subrange(end, end + lit.len()) == lit
            &&& text::is_digit(s[end + lit.len()])
        }),
    ensures
        ({
            let s = datetime::latin(b);
            let lit = fmt.subrange(es[1].0->Literal_0 as int, es[1].0->Literal_1 as int);
            let end = f.at + width;
            &&& datetime::number_at(s, f.at as int, width) == Ok::<(int, int), error::Failure>(
                (n as int, end),
            )
            &&& text::is_digit(s[f.at as int])
            &&& forall|g: Fields|
                g.at == end ==> #[trigger] datetime::read_element(b, fmt, es[1].0, g) == Ok::<
                    Fields,
                    error::Failure,
                >(Fields { at: (end + lit.len()) as usize, ..g })
        }),
{
    let s = datetime::latin(b);
    let lit = fmt.subrange(es[1].0->Literal_0 as int, es[1].0->Literal_1 as int);
    let end = f.at + width;
    number_is_read(s, f.at as int, width, n);
    assert forall|k: int| end <= k < end + lit.len() implies !text::is_ascii_alnum(
        #[trigger] s[k],
    ) by {
        assert(s[k] == s.subrange(end, end + lit.len())[k - end]);
        assert(s[k] == lit[k - end]);
    }
    marks_are_skipped(s, end, lit.len() as int);
    assert(datetime::all_punctuation(lit)) by {
        assert forall|k: int| 0 <= k < lit.len() implies !text::alphanumeric(#[trigger] lit[k]) by {
            assert(lit[k] <= '\u{7f}');
            assert((lit[k] as u32) < 128);
        }
    }
}

/// Whether an element is a part of a moment that is written to a fixed width.
pub open spec fn is_part(e: Elem) -> bool {
    e is Yyyy || e is Mm || e is Dd || e is Hh24 || e is Mi || e is Ss || e == Elem::Ff(9)
}

pub open spec fn width_of(e: Elem) -> int {
    if e is Yyyy {
        4
    } else if e is Ff {
        9
    } else {
        2
    }
}

/// What an element names of a moment.
pub open spec fn part_of(m: Moment, e: Elem) -> int {
    match e {
        Elem::Yyyy => m.year,
        Elem::Mm => m.month,
        Elem::Dd => m.day,
        Elem::Hh24 => m.hour,
        Elem::Mi => m.minute,
        Elem::Ss => m.second,
        _ => m.nano,
    }
}

/// The parts with that of an element taken from a moment.
pub open spec fn put(f: Fields, e: Elem, m: Moment) -> Fields {
    match e {
        Elem::Yyyy => Fields { year: Some(m.year as i32), ..f },
        Elem::Mm => Fields { month: m.month as u32, ..f },
        Elem::Dd => Fields { day: m.day as u32, ..f },
        Elem::Hh24 => Fields { hour: m.hour as u32, ..f },
        Elem::Mi => Fields { minute: m.minute as u32, ..f },
        Elem::Ss => Fields { second: m.second as u32, ..f },
        _ => Fields { nanos: m.nano as u32, ..f },
    }
}

/// Whether elements are parts with marks between them.
pub open spec fn alternates(fmt: Seq<char>, es: Seq<(Elem, Case)>) -> bool
    decreases es.len(),
{
    es.len() >= 1 && is_part(es[0].0) && (es.len() == 1 || (is_mark(fmt, es[1].0) && alternates(
        fmt,
        es.skip(2),
    )))
}

/// The parts that alternating elements take from a moment.
pub open spec fn taken(m: Moment, es: Seq<(Elem, Case)>, f: Fields) -> Fields
    decreases es.len(),
{
    if es.len() == 0 {
        f
    } else if es.len() == 1 {
        put(f, es[0].0, m)
    } else {
        taken(m, es.skip(2), put(f, es[0].0, m))
    }
}

/// What a part is written as.
proof fn part_is_filled(m: Moment, fmt: Seq<char>, e: Elem, case: Case)
    requires
        is_plain(m),
        is_part(e),
    ensures
        part_of(m, e) >= 0,
        part_of(m, e) < pow(10, width_of(e) as nat),
        datetime::shows(m, fmt, e, case, false) == text::zero_filled(
            text::decimal(part_of(m, e) as nat),
            width_of(e) as nat,
        ),
{
    assert(pow(10, 2) == 100 && pow(10, 4) == 10_000 && pow(10, 9) == 1_000_000_000) by {
        reveal_with_fuel(pow, 10);
    }
    assert(m.month <= 12 && m.day <= 31);
    if e is Ff {
        filled_digits(m.nano as nat, 9);
        let s = text::zero_filled(text::decimal(m.nano as nat), 9);
        assert(s.take(9) =~= s);
    }
}

/// The element of a part reads the part.
proof fn part_is_read(b: Seq<u8>, fmt: Seq<char>, e: Elem, f: Fields, m: Moment)
    requires
        is_plain(m),
        is_part(e),
        f.at + width_of(e) <= usize::MAX,
        datetime::number_at(datetime::latin(b), f.at as int, width_of(e)) == Ok::<
            (int, int),
            error::Failure,
        >((part_of(m, e), f.at + width_of(e))),
    ensures
        datetime::read_element(b, fmt, e, f) == Ok::<Fields, error::Failure>(
            Fields { at: (f.at + width_of(e)) as usize, ..put(f, e, m) },
        ),
{
    assert(datetime::ten_to(0) == 1);
    assert(m.nano * datetime::ten_to(0) == m.nano);
}

/// What alternating elements wrote, they read.
proof fn elements_read_back(
    m: Moment,
    b: Seq<u8>,
    fmt: Seq<char>,
    es: Seq<(Elem, Case)>,
    f: Fields,
)
    requires
        is_plain(m),
        alternates(fmt, es),
        b.len() <= usize::MAX,
        f.at <= b.len(),
        datetime::latin(b).skip(f.at as int) == datetime::rendered(m, fmt, es, false),
    ensures
        datetime::read_elements(b, fmt, es, f) == Ok::<Fields, error::Failure>(
            Fields { at: b.len() as usize, ..taken(m, es, f) },
        ),
        f.at < b.len(),
        text::is_digit(datetime::latin(b)[f.at as int]),
        text::is_digit(datetime::latin(b).last()),
    decreases es.len(),
{
    let s = datetime::latin(b);
    let e = es[0].0;
    let w = width_of(e);
    let n = part_of(m, e);
    part_is_filled(m, fmt, e, es[0].1);
    filled_digits(n as nat, w as nat);
    let first = datetime::shows(m, fmt, e, es[0].1, false);
    let rest = datetime::rendered(m, fmt, es.skip(1), false);
    let all = s.skip(f.at as int);
    assert(all == first + rest);
    assert(first.len() == w);
    assert(s.subrange(f.at as int, f.at + w) =~= first) by {
        assert(all.take(w) =~= first);
    }
    let end = f.at + w;
    if es.len() == 1 {
        assert(es.skip(1).len() == 0);
        assert(rest.len() == 0);
        assert(all.len() == w);
        number_is_read(s, f.at as int, w, n as nat);
        part_is_read(b, fmt, e, f, m);
        let g = Fields { at: end as usize, ..put(f, e, m) };
        assert(datetime::read_elements(b, fmt, es.skip(1), g) == Ok::<Fields, error::Failure>(g));
    } else {
        let more = es.skip(1);
        let mark = es[1].0;
        let lit = fmt.subrange(mark->Literal_0 as int, mark->Literal_1 as int);
        assert(more[0] == es[1]);
        assert(more.skip(1) =~= es.skip(2));
        let tail = datetime::rendered(m, fmt, es.skip(2), false);
        assert(rest == lit + tail);
        assert(all.skip(w) =~= rest);
        assert(s.skip(end) =~= rest);
        assert(s.subrange(end, end + lit.len()) =~= lit) by {
            assert(rest.take(lit.len() as int) =~= lit);
        }
        assert(s.skip(end + lit.len()) =~= tail) by {
            assert(rest.skip(lit.len() as int) =~= tail);
        }
        let g = Fields { at: end as usize, ..put(f, e, m) };
        let h = Fields { at: (end + lit.len()) as usize, ..g };
        elements_read_back(m, b, fmt, es.skip(2), h);
        number_and_mark(b, fmt, es, f, w, n as nat);
        part_is_read(b, fmt, e, f, m);
        assert(datetime::read_element(b, fmt, mark, g) == Ok::<Fields, error::Failure>(h));
        assert(datetime::read_elements(b, fmt, more, g) == datetime::read_elements(
            b,
            fmt,
            es.skip(2),
            h,
        ));
        taken_keeps_place(m, es.skip(2), put(f, e, m), h.at);
    }
}

/// The parts do not depend on the place.
proof fn taken_keeps_place(m: Moment, es: Seq<(Elem, Case)>, f: Fields, at: usize)
    ensures
        taken(m, es, Fields { at, ..f }) == (Fields { at, ..taken(m, es, f) }),
    decreases es.len(),
{
    if es.len() > 1 {
        taken_keeps_place(m, es.skip(2), put(f, es[0].0, m), at);
        assert(put(Fields { at, ..f }, es[0].0, m) == (Fields { at, ..put(f, es[0].0, m) }));
    }
}

/// All that is written is ASCII.
proof fn rendered_in_ascii(m: Moment, fmt: Seq<char>, es: Seq<(Elem, Case)>)
    requires
        is_plain(m),
        alternates(fmt, es),
    ensures
        is_ascii_chars(datetime::rendered(m, fmt, es, false)),
    decreases es.len(),
{
    let e = es[0].0;
    part_is_filled(m, fmt, e, es[0].1);
    filled_digits(part_of(m, e) as nat, width_of(e) as nat);
    let first = datetime::shows(m, fmt, e, es[0].1, false);
    let rest = datetime::rendered(m, fmt, es.skip(1), false);
    if es.len() == 1 {
        assert(es.skip(1).len() == 0);
        assert(rest.len() == 0);
    } else {
        let mark = es[1].0;
        let lit = fmt.subrange(mark->Literal_0 as int, mark->Literal_1 as int);
        assert(es.skip(1)[0] == es[1]);
        assert(es.skip(1).skip(1) =~= es.skip(2));
        rendered_in_ascii(m, fmt, es.skip(2));
        let tail = datetime::rendered(m, fmt, es.skip(2), false);
        assert(rest == lit + tail);
        assert forall|k: int| 0 <= k < rest.len() implies '\0' <= #[trigger] rest[k] <= '\u{7f}' by {
            if k < lit.len() {
                assert(rest[k] == lit[k]);
            } else {
                assert(rest[k] == tail[k - lit.len()]);
                assert(tail[k - lit.len()] <= '\u{7f}');
            }
        }
    }
    let t = first + rest;
    assert forall|k: int| 0 <= k < t.len() implies '\0' <= #[trigger] t[k] <= '\u{7f}' by {
        if k < first.len() {
            assert(t[k] == first[k]);
            assert(text::is_digit(first[k]));
        } else {
            assert(t[k] == rest[k - first.len()]);
        }
    }
}

/// TO_DATE undoes TO_CHAR under a model that names every part: a moment that was
/// written is read back, whatever the year is.
pub proof fn a_written_date_is_read_back(m: Moment, fmt: Seq<char>, this_year: int)
    requires
        is_plain(m),
        is_full(fmt),
        datetime::formatted(m, fmt).len() <= usize::MAX,
    ensures
        datetime::read_moment(datetime::formatted(m, fmt), fmt, this_year) == Ok::<
            Moment,
            error::Failure,
        >(m),
{
    let es = datetime::elements(fmt, 0)->0;
    let t = datetime::formatted(m, fmt);
    let e2 = es.skip(2);
    let e4 = e2.skip(2);
    let e6 = e4.skip(2);
    let e8 = e6.skip(2);
    let e10 = e8.skip(2);
    let e12 = e10.skip(2);
    assert(e2[0] == es[2] && e2[1] == es[3]);
    assert(e4[0] == es[4] && e4[1] == es[5]);
    assert(e6[0] == es[6] && e6[1] == es[7]);
    assert(e8[0] == es[8] && e8[1] == es[9]);
    assert(e10[0] == es[10] && e10[1] == es[11]);
    assert(e12[0] == es[12] && e12.len() == 1);
    assert(alternates(fmt, e12));
    assert(alternates(fmt, e10));
    assert(alternates(fmt, e8));
    assert(alternates(fmt, e6));
    assert(alternates(fmt, e4));
    assert(alternates(fmt, e2));
    assert(alternates(fmt, es));
    rendered_in_ascii(m, fmt, es);
    let b = encode_utf8(t);
    is_ascii_chars_encode_utf8(t);
    assert(datetime::latin(b) =~= t) by {
        assert forall|i: int| 0 <= i < t.len() implies datetime::latin(b)[i] == t[i] by {
            assert(t[i] as u8 == b[i]);
        }
    }
    let f = datetime::no_fields();
    assert(t.skip(0) =~= t);
    elements_read_back(m, b, fmt, es, f);
    nothing_to_trim(t);
    let f1 = put(f, Elem::Yyyy, m);
    let f2 = put(f1, Elem::Mm, m);
    let f3 = put(f2, Elem::Dd, m);
    let f4 = put(f3, Elem::Hh24, m);
    let f5 = put(f4, Elem::Mi, m);
    let f6 = put(f5, Elem::Ss, m);
    let f7 = put(f6, Elem::Ff(9), m);
    assert(taken(m, e12, f6) == f7);
    assert(taken(m, e10, f5) == f7);
    assert(taken(m, e8, f4) == f7);
    assert(taken(m, e6, f3) == f7);
    assert(taken(m, e4, f2) == f7);
    assert(taken(m, e2, f1) == f7);
    assert(taken(m, es, f) == f7);
}

/// A text does not hold a word where one of its letters differs.
proof fn not_the_word(s: Seq<char>, i: int, word: Seq<char>, k: int)
    requires
        0 <= i,
        0 <= k < word.len(),
        i + k < s.len(),
        text::upper_ascii(s[i + k]) != word[k],
    ensures
        !text::word_at(s, i, word),
{
}

proof fn element_0(s: Seq<char>)
    requires
        s == "YYYY-MM-DD HH24:MI:SS.FF9"@,
    ensures
        datetime::element_at(s, 0) == Some((Elem::Yyyy, 4int)),
{
    reveal_strlit("YYYY-MM-DD HH24:MI:SS.FF9");
    reveal_strlit("FF");
    not_the_word(s, 0, "FF"@, 0);
    reveal_strlit("YYYY");
    assert(text::word_at(s, 0, "YYYY"@));
}

proof fn element_5(s: Seq<char>)
    requires
        s == "YYYY-MM-DD HH24:MI:SS.FF9"@,
    ensures
        datetime::element_at(s, 5) == Some((Elem::Mm, 2int)),
{
    reveal_strlit("YYYY-MM-DD HH24:MI:SS.FF9");
    reveal_strlit("FF");
    not_the_word(s, 5, "FF"@, 0);
    reveal_strlit("YYYY");
    not_the_word(s, 5, "YYYY"@, 0);
    reveal_strlit("RRRR");
    not_the_word(s, 5, "RRRR"@, 0);
    reveal_strlit("YY");
    not_the_word(s, 5, "YY"@, 0);
    reveal_strlit("RR");
    not_the_word(s, 5, "RR"@, 0);
    reveal_strlit("MONTH");
    not_the_word(s, 5, "MONTH"@, 1);
    reveal_strlit("MON");
    not_the_word(s, 5, "MON"@, 1);
    reveal_strlit("MM");
    assert(text::word_at(s, 5, "MM"@));
}

proof fn element_8(s: Seq<char>)
    requires
        s == "YYYY-MM-DD HH24:MI:SS.FF9"@,
    ensures
        datetime::element_at(s, 8) == Some((Elem::Dd, 2int)),
{
    reveal_strlit("YYYY-MM-DD HH24:MI:SS.FF9");
    reveal_strlit("FF");
    not_the_word(s, 8, "FF"@, 0);
    reveal_strlit("YYYY");
    not_the_word(s, 8, "YYYY"@, 0);
    reveal_strlit("RRRR");
    not_the_word(s, 8, "RRRR"@, 0);
    reveal_strlit("YY");
    not_the_word(s, 8, "YY"@, 0);
    reveal_strlit("RR");
    not_the_word(s, 8, "RR"@, 0);
    reveal_strlit("MONTH");
    not_the_word(s, 8, "MONTH"@, 0);
    reveal_strlit("MON");
    not_the_word(s, 8, "MON"@, 0);
    reveal_strlit("MM");
    not_the_word(s, 8, "MM"@, 0);
    reveal_strlit("DDD");
    not_the_word(s, 8, "DDD"@, 2);
    reveal_strlit("DD");
    assert(text::word_at(s, 8, "DD"@));
}

proof fn element_11(s: Seq<char>)
    requires
        s == "YYYY-MM-DD HH24:MI:SS.FF9"@,
    ensures
        datetime::element_at(s, 11) == Some((Elem::Hh24, 4int)),
{
    reveal_strlit("YYYY-MM-DD HH24:MI:SS.FF9");
    reveal_strlit("FF");
    not_the_word(s, 11, "FF"@, 0);
    reveal_strlit("YYYY");
    not_the_word(s, 11, "YYYY"@, 0);
    reveal_strlit("RRRR");
    not_the_word(s, 11, "RRRR"@, 0);
    reveal_strlit("YY");
    not_the_word(s, 11, "YY"@, 0);
    reveal_strlit("RR");
    not_the_word(s, 11, "RR"@, 0);
    reveal_strlit("MONTH");
    not_the_word(s, 11, "MONTH"@, 0);
    reveal_strlit("MON");
    not_the_word(s, 11, "MON"@, 0);
    reveal_strlit("MM");
    not_the_word(s, 11, "MM"@, 0);
    reveal_strlit("DDD");
    not_the_word(s, 11, "DDD"@, 0);
    reveal_strlit("DD");
    not_the_word(s, 11, "DD"@, 0);
    reveal_strlit("DAY");
    not_the_word(s, 11, "DAY"@, 0);
    reveal_strlit("DY");
    not_the_word(s, 11, "DY"@, 0);
    reveal_strlit("D");
    not_the_word(s, 11, "D"@, 0);
    reveal_strlit("HH24");
    assert(text::word_at(s, 11, "HH24"@));
}

proof fn element_16(s: Seq<char>)
    requires
        s == "YYYY-MM-DD HH24:MI:SS.FF9"@,
    ensures
        datetime::element_at(s, 16) == Some((Elem::Mi, 2int)),
{
    reveal_strlit("YYYY-MM-DD HH24:MI:SS.FF9");
    reveal_strlit("FF");
    not_the_word(s, 16, "FF"@, 0);
    reveal_strlit("YYYY");
    not_the_word(s, 16, "YYYY"@, 0);
    reveal_strlit("RRRR");
    not_the_word(s, 16, "RRRR"@, 0);
    reveal_strlit("YY");
    not_the_word(s, 16, "YY"@, 0);
    reveal_strlit("RR");
    not_the_word(s, 16, "RR"@, 0);
    reveal_strlit("MONTH");
    not_the_word(s, 16, "MONTH"@, 1);
    reveal_strlit("MON");
    not_the_word(s, 16, "MON"@, 1);
    reveal_strlit("MM");
    not_the_word(s, 16, "MM"@, 1);
    reveal_strlit("DDD");
    not_the_word(s, 16, "DDD"@, 0);
    reveal_strlit("DD");
    not_the_word(s, 16, "DD"@, 0);
    reveal_strlit("DAY");
    not_the_word(s, 16, "DAY"@, 0);
    reveal_strlit("DY");
    not_the_word(s, 16, "DY"@, 0);
    reveal_strlit("D");
    not_the_word(s, 16, "D"@, 0);
    reveal_strlit("HH24");
    not_the_word(s, 16, "HH24"@, 0);
    reveal_strlit("HH12");
    not_the_word(s, 16, "HH12"@, 0);
    reveal_strlit("HH");
    not_the_word(s, 16, "HH"@, 0);
    reveal_strlit("MI");
    assert(text::word_at(s, 16, "MI"@));
}

proof fn element_19(s: Seq<char>)
    requires
        s == "YYYY-MM-DD HH24:MI:SS.FF9"@,
    ensures
        datetime::element_at(s, 19) == Some((Elem::Ss, 2int)),
{
    reveal_strlit("YYYY-MM-DD HH24:MI:SS.FF9");
    reveal_strlit("FF");
    not_the_word(s, 19, "FF"@, 0);
    reveal_strlit("YYYY");
    not_the_word(s, 19, "YYYY"@, 0);
    reveal_strlit("RRRR");
    not_the_word(s, 19, "RRRR"@, 0);
    reveal_strlit("YY");
    not_the_word(s, 19, "YY"@, 0);
    reveal_strlit("RR");
    not_the_word(s, 19, "RR"@, 0);
    reveal_strlit("MONTH");
    not_the_word(s, 19, "MONTH"@, 0);
    reveal_strlit("MON");
    not_the_word(s, 19, "MON"@, 0);
    reveal_strlit("MM");
    not_the_word(s, 19, "MM"@, 0);
    reveal_strlit("DDD");
    not_the_word(s, 19, "DDD"@, 0);
    reveal_strlit("DD");
    not_the_word(s, 19, "DD"@, 0);
    reveal_strlit("DAY");
    not_the_word(s, 19, "DAY"@, 0);
    reveal_strlit("DY");
    not_the_word(s, 19, "DY"@, 0);
    reveal_strlit("D");
    not_the_word(s, 19, "D"@, 0);
    reveal_strlit("HH24");
    not_the_word(s, 19, "HH24"@, 0);
    reveal_strlit("HH12");
    not_the_word(s, 19, "HH12"@, 0);
    reveal_strlit("HH");
    not_the_word(s, 19, "HH"@, 0);
    reveal_strlit("MI");
    not_the_word(s, 19, "MI"@, 0);
    reveal_strlit("SS");
    assert(text::word_at(s, 19, "SS"@));
}

proof fn element_22(s: Seq<char>)
    requires
        s == "YYYY-MM-DD HH24:MI:SS.FF9"@,
    ensures
        datetime::element_at(s, 22) == Some((Elem::Ff(9), 3int)),
{
    reveal_strlit("YYYY-MM-DD HH24:MI:SS.FF9");
    reveal_strlit("FF");
    assert(text::word_at(s, 22, "FF"@));
}

/// The model that names every part with the usual punctuation is full.
pub proof fn the_usual_model_is_full()
    ensures
        is_full("YYYY-MM-DD HH24:MI:SS.FF9"@),
{
    reveal_strlit("YYYY-MM-DD HH24:MI:SS.FF9");
    let s = "YYYY-MM-DD HH24:MI:SS.FF9"@;
    element_0(s);
    element_5(s);
    element_8(s);
    element_11(s);
    element_16(s);
    element_19(s);
    element_22(s);
    let e0 = (Elem::Yyyy, datetime::case_at(s, 0));
    assert(datetime::next_element(s, 0) == Some((e0, 4int)));
    let e4 = (Elem::Literal(4usize, 5usize), datetime::case_at(s, 4));
    assert(datetime::next_element(s, 4) == Some((e4, 5int)));
    let e5 = (Elem::Mm, datetime::case_at(s, 5));
    assert(datetime::next_element(s, 5) == Some((e5, 7int)));
    let e7 = (Elem::Literal(7usize, 8usize), datetime::case_at(s, 7));
    assert(datetime::next_element(s, 7) == Some((e7, 8int)));
    let e8 = (Elem::Dd, datetime::case_at(s, 8));
    assert(datetime::next_element(s, 8) == Some((e8, 10int)));
    let e10 = (Elem::Literal(10usize, 11usize), datetime::case_at(s, 10));
    assert(datetime::next_element(s, 10) == Some((e10, 11int)));
    let e11 = (Elem::Hh24, datetime::case_at(s, 11));
    assert(datetime::next_element(s, 11) == Some((e11, 15int)));
    let e15 = (Elem::Literal(15usize, 16usize), datetime::case_at(s, 15));
    assert(datetime::next_element(s, 15) == Some((e15, 16int)));
    let e16 = (Elem::Mi, datetime::case_at(s, 16));
    assert(datetime::next_element(s, 16) == Some((e16, 18int)));
    let e18 = (Elem::Literal(18usize, 19usize), datetime::case_at(s, 18));
    assert(datetime::next_element(s, 18) == Some((e18, 19int)));
    let e19 = (Elem::Ss, datetime::case_at(s, 19));
    assert(datetime::next_element(s, 19) == Some((e19, 21int)));
    let e21 = (Elem::Literal(21usize, 22usize), datetime::case_at(s, 21));
    assert(datetime::next_element(s, 21) == Some((e21, 22int)));
    let e22 = (Elem::Ff(9), datetime::case_at(s, 22));
    assert(datetime::next_element(s, 22) == Some((e22, 25int)));
    let r25: Seq<(Elem, Case)> = Seq::empty();
    assert(datetime::elements(s, 25) == Some(r25));
    let r22 = seq![e22] + r25;
    assert(datetime::elements(s, 22) == Some(r22));
    let r21 = seq![e21] + r22;
    assert(datetime::elements(s, 21) == Some(r21));
    let r19 = seq![e19] + r21;
    assert(datetime::elements(s, 19) == Some(r19));
    let r18 = seq![e18] + r19;
    assert(datetime::elements(s, 18) == Some(r18));
    let r16 = seq![e16] + r18;
    assert(datetime::elements(s, 16) == Some(r16));
    let r15 = seq![e15] + r16;
    assert(datetime::elements(s, 15) == Some(r15));
    let r11 = seq![e11] + r15;
    assert(datetime::elements(s, 11) == Some(r11));
    let r10 = seq![e10] + r11;
    assert(datetime::elements(s, 10) == Some(r10));
    let r8 = seq![e8] + r10;
    assert(datetime::elements(s, 8) == Some(r8));
    let r7 = seq![e7] + r8;
    assert(datetime::elements(s, 7) == Some(r7));
    let r5 = seq![e5] + r7;
    assert(datetime::elements(s, 5) == Some(r5));
    let r4 = seq![e4] + r5;
    assert(datetime::elements(s, 4) == Some(r4));
    let r0 = seq![e0] + r4;
    assert(datetime::elements(s, 0) == Some(r0));
    assert(s.subrange(4, 5) =~= seq![s[4]]);
    assert(is_mark(s, e4.0));
    assert(s.subrange(7, 8) =~= seq![s[7]]);
    assert(is_mark(s, e7.0));
    assert(s.subrange(10, 11) =~= seq![s[10]]);
    assert(is_mark(s, e10.0));
    assert(s.subrange(15, 16) =~= seq![s[15]]);
    assert(is_mark(s, e15.0));
    assert(s.subrange(18, 19) =~= seq![s[18]]);
    assert(is_mark(s, e18.0));
    assert(s.subrange(21, 22) =~= seq![s[21]]);
    assert(is_mark(s, e21.0));
}

} // verus!
