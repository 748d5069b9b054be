//! Dates with a time of day, and Oracle's date format models
//! (`YYYY-MM-DD HH24:MI:SS`, `DD-MON-RR`, ...) for TO_CHAR and TO_DATE.
//!
//! The calendar is that of the `chrono` crate, leap seconds included.

use chrono::{Datelike, Local, NaiveDate, NaiveTime, TimeDelta, Timelike};
use vstd::prelude::*;
use vstd::string::*;
use vstd::utf8::*;

use crate::error;
use crate::error::OraError;
use crate::number;
use crate::text;
use crate::text::utf8_text;

verus! {

pub const DEFAULT_DATE_FORMAT: &'static str = "DD-MON-RR";

pub const DEFAULT_TIMESTAMP_FORMAT: &'static str = "DD-MON-RR HH.MI.SSXFF AM";

pub const MIN_YEAR: i32 = -262143;

pub const MAX_YEAR: i32 = 262142;

/// A day in the calendar and a time of day.
pub struct Moment {
    pub year: int,
    pub month: int,
    pub day: int,
    pub hour: int,
    pub minute: int,
    pub second: int,
    /// A thousand million and more stands for a leap second.
    pub nano: int,
}

pub open spec fn is_leap(year: int) -> bool {
    year % 4 == 0 && (year % 100 != 0 || year % 400 == 0)
}

pub open spec fn days_in(year: int, month: int) -> int {
    if month == 2 {
        if is_leap(year) {
            29
        } else {
            28
        }
    } else if month == 4 || month == 6 || month == 9 || month == 11 {
        30
    } else {
        31
    }
}

pub open spec fn valid_date(year: int, month: int, day: int) -> bool {
    MIN_YEAR <= year <= MAX_YEAR && 1 <= month <= 12 && 1 <= day <= days_in(year, month)
}

pub open spec fn valid_time(hour: int, minute: int, second: int, nano: int) -> bool {
    &&& 0 <= hour < 24
    &&& 0 <= minute < 60
    &&& 0 <= second < 60
    &&& 0 <= nano
    &&& nano < 1_000_000_000 || (second == 59 && nano < 2_000_000_000)
}

pub open spec fn valid(m: Moment) -> bool {
    valid_date(m.year, m.month, m.day) && valid_time(m.hour, m.minute, m.second, m.nano)
}

/// The days of a year before a month.
pub open spec fn days_before(year: int, month: int) -> int
    decreases month,
{
    if month <= 1 {
        0
    } else {
        days_before(year, month - 1) + days_in(year, month - 1)
    }
}

/// The day of the year.
pub open spec fn ordinal(m: Moment) -> int {
    days_before(m.year, m.month) + m.day
}

/// The number of a day; the first of January of the year 1 has the number 1.
pub open spec fn day_number(m: Moment) -> int {
    let y = m.year - 1;
    365 * y + y / 4 - y / 100 + y / 400 + ordinal(m)
}

/// The day of the week: 0 for a Monday, 6 for a Sunday.
pub open spec fn weekday(m: Moment) -> int {
    (day_number(m) - 1) % 7
}

/// The seconds up to a moment, leap seconds apart.
pub open spec fn instant(m: Moment) -> int {
    day_number(m) * 86400 + m.hour * 3600 + m.minute * 60 + m.second
}

/// Whether the calendar holds the second with that number.
pub open spec fn in_calendar(t: int) -> bool {
    let first = moment(MIN_YEAR as int, 1, 1, 0, 0, 0, 0);
    let last = moment(MAX_YEAR as int, 12, 31, 23, 59, 59, 0);
    instant(first) <= t <= instant(last)
}

/// A date with a time of day.
#[derive(Debug, Clone, Copy, PartialEq, Eq)]
pub struct DateTime {
    year: i32,
    month: u32,
    day: u32,
    hour: u32,
    minute: u32,
    second: u32,
    nano: u32,
}

impl View for DateTime {
    type V = Moment;

    closed spec fn view(&self) -> Moment {
        Moment {
            year: self.year as int,
            month: self.month as int,
            day: self.day as int,
            hour: self.hour as int,
            minute: self.minute as int,
            second: self.second as int,
            nano: self.nano as int,
        }
    }
}

pub open spec fn moment(
    year: int,
    month: int,
    day: int,
    hour: int,
    minute: int,
    second: int,
    nano: int,
) -> Moment {
    Moment { year, month, day, hour, minute, second, nano }
}

/// The same moment without a fraction of a second.
pub open spec fn whole_seconds(m: Moment) -> Moment {
    Moment { nano: 0, ..m }
}

/// The start of a moment's day.
pub open spec fn midnight(m: Moment) -> Moment {
    Moment { hour: 0, minute: 0, second: 0, nano: 0, ..m }
}

/// What `NaiveDateTime::checked_add_signed` gives for a number of seconds.
pub uninterp spec fn shifted(m: Moment, seconds: int) -> Option<Moment>;

/// A number with zeros in front up to a width.
pub open spec fn filled(n: int, width: nat) -> Seq<char> {
    text::zero_filled(text::decimal(n as nat), width)
}

/// A year as `NaiveDate`'s `Display` writes it: four digits, and a sign in front
/// of a year outside of these.
pub open spec fn shown_year(year: int) -> Seq<char> {
    if 0 <= year <= 9999 {
        filled(year, 4)
    } else if year < 0 {
        seq!['-'] + filled(-year, 4)
    } else {
        seq!['+'] + filled(year, 4)
    }
}

/// A fraction of a second as `NaiveTime`'s `Display` writes it: in three, six or
/// nine digits, the fewest that hold it, and not at all when it is zero.
pub open spec fn shown_fraction(nano: int) -> Seq<char> {
    if nano == 0 {
        seq![]
    } else if nano % 1_000_000 == 0 {
        seq!['.'] + filled(nano / 1_000_000, 3)
    } else if nano % 1000 == 0 {
        seq!['.'] + filled(nano / 1000, 6)
    } else {
        seq!['.'] + filled(nano, 9)
    }
}

/// What `NaiveDateTime`'s `Display` writes: the day, a space and the time. In a
/// leap second the seconds are 60.
pub open spec fn shown(m: Moment) -> Seq<char> {
    let leap: int = m.nano / 1_000_000_000;
    shown_year(m.year) + seq!['-'] + filled(m.month, 2) + seq!['-'] + filled(m.day, 2) + seq![' ']
        + filled(m.hour, 2) + seq![':'] + filled(m.minute, 2) + seq![':'] + filled(
        m.second + leap,
        2,
    ) + shown_fraction(m.nano % 1_000_000_000)
}

/// `NaiveDateTime::checked_add_signed` of a number of seconds: the moment that
/// many seconds later, or nothing when that is outside the calendar. A leap
/// second is left for the second behind it when going on, and for the one in
/// front of that when going back.
#[verifier::external_body]
fn shift_raw(d: &DateTime, seconds: i64) -> (r: Option<DateTime>)
    requires
        -1_000_000_000_000 <= seconds <= 1_000_000_000_000,
    ensures
        match r {
            Some(x) => shifted(d@, seconds as int) == Some(x@),
            None => shifted(d@, seconds as int) is None,
        },
        d@.nano < 1_000_000_000 ==> (r matches Some(x) ==> instant(x@) == instant(d@) + seconds
            && x@.nano == d@.nano) && (r is None <==> !in_calendar(instant(d@) + seconds)),
{
    let date = NaiveDate::from_ymd_opt(d.year, d.month, d.day)?;
    let time = NaiveTime::from_hms_nano_opt(d.hour, d.minute, d.second, d.nano)?;
    let x = date.and_time(time).checked_add_signed(TimeDelta::seconds(seconds))?;
    Some(DateTime {
        year: x.year(),
        month: x.month(),
        day: x.day(),
        hour: x.hour(),
        minute: x.minute(),
        second: x.second(),
        nano: x.nanosecond(),
    })
}

/// `NaiveDate::weekday`, counted from Monday.
#[verifier::external_body]
fn weekday_raw(d: &DateTime) -> (r: u32)
    ensures
        r == weekday(d@),
{
    NaiveDate::from_ymd_opt(d.year, d.month, d.day).unwrap_or_default().weekday().num_days_from_monday()
}

/// `NaiveDateTime`'s `Display`: the day as year, month and day with hyphens, a
/// space, and the time with colons and its fraction.
#[verifier::external_body]
fn shown_raw(d: &DateTime) -> (s: String)
    ensures
        s@ == shown(d@),
{
    let date = NaiveDate::from_ymd_opt(d.year, d.month, d.day).unwrap_or_default();
    let time = NaiveTime::from_hms_nano_opt(d.hour, d.minute, d.second, d.nano).unwrap_or_default();
    date.and_time(time).to_string()
}

/// The year by `chrono::Local::now`; nothing is promised of it.
#[verifier::external_body]
fn current_year() -> (y: i32) {
    Local::now().year()
}

pub fn leap_year(year: i32) -> (r: bool)
    ensures
        r == is_leap(year as int),
{
    // A multiple of 400 keeps the remainders and leaves no negative year.
    let y: i64 = year as i64 + 4_000_000_000;
    assert(y % 4 == year as int % 4);
    assert(y % 100 == year as int % 100);
    assert(y % 400 == year as int % 400);
    y % 4 == 0 && (y % 100 != 0 || y % 400 == 0)
}

/// How many days a month has.
pub fn last_day_of(year: i32, month: u32) -> (r: u32)
    requires
        1 <= month <= 12,
    ensures
        r == days_in(year as int, month as int),
        28 <= r <= 31,
{
    if month == 2 {
        if leap_year(year) {
            29
        } else {
            28
        }
    } else if month == 4 || month == 6 || month == 9 || month == 11 {
        30
    } else {
        31
    }
}

impl DateTime {
    #[verifier::type_invariant]
    spec fn is_valid(self) -> bool {
        valid(self@)
    }

    /// The moment with these parts, if there is one.
    pub fn new(
        year: i32,
        month: u32,
        day: u32,
        hour: u32,
        minute: u32,
        second: u32,
        nano: u32,
    ) -> (r: Option<DateTime>)
        ensures
            ({
                let m = moment(
                    year as int,
                    month as int,
                    day as int,
                    hour as int,
                    minute as int,
                    second as int,
                    nano as int,
                );
                match r {
                    Some(d) => d@ == m && valid(m),
                    None => !valid(m),
                }
            }),
    {
        if year < MIN_YEAR || year > MAX_YEAR || month < 1 || month > 12 || day < 1 {
            return None;
        }
        if day > last_day_of(year, month) || hour >= 24 || minute >= 60 || second >= 60 {
            return None;
        }
        if nano >= 2_000_000_000 || (nano >= 1_000_000_000 && second != 59) {
            return None;
        }
        Some(DateTime { year, month, day, hour, minute, second, nano })
    }

    pub fn start_of_1970() -> (r: DateTime)
        ensures
            r@ == moment(1970, 1, 1, 0, 0, 0, 0),
    {
        DateTime { year: 1970, month: 1, day: 1, hour: 0, minute: 0, second: 0, nano: 0 }
    }

    pub fn year(&self) -> (r: i32)
        ensures
            r == self@.year,
            valid(self@),
    {
        proof {
            use_type_invariant(&*self);
        }
        self.year
    }

    pub fn month(&self) -> (r: u32)
        ensures
            r == self@.month,
            valid(self@),
    {
        proof {
            use_type_invariant(&*self);
        }
        self.month
    }

    pub fn day(&self) -> (r: u32)
        ensures
            r == self@.day,
            valid(self@),
    {
        proof {
            use_type_invariant(&*self);
        }
        self.day
    }

    pub fn hour(&self) -> (r: u32)
        ensures
            r == self@.hour,
            valid(self@),
    {
        proof {
            use_type_invariant(&*self);
        }
        self.hour
    }

    pub fn minute(&self) -> (r: u32)
        ensures
            r == self@.minute,
            valid(self@),
    {
        proof {
            use_type_invariant(&*self);
        }
        self.minute
    }

    pub fn second(&self) -> (r: u32)
        ensures
            r == self@.second,
            valid(self@),
    {
        proof {
            use_type_invariant(&*self);
        }
        self.second
    }

    pub fn nanosecond(&self) -> (r: u32)
        ensures
            r == self@.nano,
            valid(self@),
    {
        proof {
            use_type_invariant(&*self);
        }
        self.nano
    }

    /// The same moment with another fraction of a second.
    pub fn with_nanosecond(&self, nano: u32) -> (r: DateTime)
        requires
            nano < 1_000_000_000 || nano <= self@.nano,
        ensures
            r@ == (Moment { nano: nano as int, ..self@ }),
    {
        proof {
            use_type_invariant(&*self);
        }
        DateTime {
            year: self.year,
            month: self.month,
            day: self.day,
            hour: self.hour,
            minute: self.minute,
            second: self.second,
            nano,
        }
    }

    /// The same time on another day.
    pub fn with_date(&self, year: i32, month: u32, day: u32) -> (r: DateTime)
        requires
            valid_date(year as int, month as int, day as int),
        ensures
            r@ == (Moment { year: year as int, month: month as int, day: day as int, ..self@ }),
    {
        proof {
            use_type_invariant(&*self);
        }
        DateTime {
            year,
            month,
            day,
            hour: self.hour,
            minute: self.minute,
            second: self.second,
            nano: self.nano,
        }
    }

    /// The same day at another time.
    pub fn with_time(&self, hour: u32, minute: u32, second: u32) -> (r: DateTime)
        requires
            hour < 24,
            minute < 60,
            second < 60,
        ensures
            r@ == (Moment {
                hour: hour as int,
                minute: minute as int,
                second: second as int,
                nano: 0,
                ..self@
            }),
    {
        proof {
            use_type_invariant(&*self);
        }
        DateTime {
            year: self.year,
            month: self.month,
            day: self.day,
            hour,
            minute,
            second,
            nano: 0,
        }
    }

    /// Every moment is a valid one.
    pub fn check(&self)
        ensures
            valid(self@),
    {
        proof {
            use_type_invariant(&*self);
        }
    }

    /// Whether two moments are the same.
    pub fn same(&self, other: &DateTime) -> (r: bool)
        ensures
            r == (self@ == other@),
    {
        self.year() == other.year() && self.month() == other.month() && self.day() == other.day()
            && self.hour() == other.hour() && self.minute() == other.minute() && self.second()
            == other.second() && self.nanosecond() == other.nanosecond()
    }

    /// The moment some seconds later; nothing when it is outside the calendar.
    pub fn shift(&self, seconds: i64) -> (r: Option<DateTime>)
        requires
            -1_000_000_000_000 <= seconds <= 1_000_000_000_000,
        ensures
            match r {
                Some(x) => shifted(self@, seconds as int) == Some(x@),
                None => shifted(self@, seconds as int) is None,
            },
    {
        shift_raw(self, seconds)
    }

    /// The day of the week: 0 for a Monday, 6 for a Sunday.
    pub fn weekday(&self) -> (r: u32)
        ensures
            r == weekday(self@),
            r < 7,
    {
        weekday_raw(self)
    }
}

/// An element of a format model.
#[derive(Debug, Clone, Copy, PartialEq, Eq, Structural)]
pub enum Elem {
    Yyyy,
    Yy,
    Rr,
    Mm,
    Mon,
    Month,
    Dd,
    Ddd,
    D,
    Dy,
    Day,
    Hh24,
    Hh12,
    Mi,
    Ss,
    Ff(u8),
    Am,
    /// `X`: the local radix character.
    X,
    Fm,
    /// The characters of the model from the first place to the second.
    Literal(usize, usize),
}

/// Letter case of a format element, which Oracle mirrors in month/day names.
#[derive(Debug, Clone, Copy, PartialEq, Eq, Structural)]
pub enum Case {
    Upper,
    Capital,
    Lower,
}

pub open spec fn is_capital(c: char) -> bool {
    'A' <= c <= 'Z'
}

/// The case of the element that starts at a place: that of its first two
/// letters.
pub open spec fn case_at(fmt: Seq<char>, i: int) -> Case {
    let first = 0 <= i < fmt.len() && is_capital(fmt[i]);
    let second = 0 <= i + 1 < fmt.len() && is_capital(fmt[i + 1]);
    if first && second {
        Case::Upper
    } else if first {
        Case::Capital
    } else {
        Case::Lower
    }
}

fn case_of(fmt: &[char], i: usize) -> (r: Case)
    requires
        i < fmt@.len(),
    ensures
        r == case_at(fmt@, i as int),
{
    let first = 'A' <= fmt[i] && fmt[i] <= 'Z';
    let second = i + 1 < fmt.len() && 'A' <= fmt[i + 1] && fmt[i + 1] <= 'Z';
    if first && second {
        Case::Upper
    } else if first {
        Case::Capital
    } else {
        Case::Lower
    }
}

/// The element that a model's letters at a place name, and how many letters
/// that takes. The longer names come first.
pub open spec fn element_at(fmt: Seq<char>, i: int) -> Option<(Elem, int)> {
    if text::word_at(fmt, i, "FF"@) {
        if fmt.len() - i > 2 && '1' <= fmt[i + 2] <= '9' {
            Some((Elem::Ff((fmt[i + 2] as u8 - 48) as u8), 3))
        } else {
            Some((Elem::Ff(9), 2))
        }
    } else if text::word_at(fmt, i, "YYYY"@) || text::word_at(fmt, i, "RRRR"@) {
        Some((Elem::Yyyy, 4))
    } else if text::word_at(fmt, i, "YY"@) {
        Some((Elem::Yy, 2))
    } else if text::word_at(fmt, i, "RR"@) {
        Some((Elem::Rr, 2))
    } else if text::word_at(fmt, i, "MONTH"@) {
        Some((Elem::Month, 5))
    } else if text::word_at(fmt, i, "MON"@) {
        Some((Elem::Mon, 3))
    } else if text::word_at(fmt, i, "MM"@) {
        Some((Elem::Mm, 2))
    } else if text::word_at(fmt, i, "DDD"@) {
        Some((Elem::Ddd, 3))
    } else if text::word_at(fmt, i, "DD"@) {
        Some((Elem::Dd, 2))
    } else if text::word_at(fmt, i, "DAY"@) {
        Some((Elem::Day, 3))
    } else if text::word_at(fmt, i, "DY"@) {
        Some((Elem::Dy, 2))
    } else if text::word_at(fmt, i, "D"@) {
        Some((Elem::D, 1))
    } else if text::word_at(fmt, i, "HH24"@) {
        Some((Elem::Hh24, 4))
    } else if text::word_at(fmt, i, "HH12"@) {
        Some((Elem::Hh12, 4))
    } else if text::word_at(fmt, i, "HH"@) {
        Some((Elem::Hh12, 2))
    } else if text::word_at(fmt, i, "MI"@) {
        Some((Elem::Mi, 2))
    } else if text::word_at(fmt, i, "SS"@) {
        Some((Elem::Ss, 2))
    } else if text::word_at(fmt, i, "AM"@) || text::word_at(fmt, i, "PM"@) {
        Some((Elem::Am, 2))
    } else if text::word_at(fmt, i, "A.M."@) || text::word_at(fmt, i, "P.M."@) {
        Some((Elem::Am, 4))
    } else if text::word_at(fmt, i, "FM"@) {
        Some((Elem::Fm, 2))
    } else if text::word_at(fmt, i, "X"@) {
        Some((Elem::X, 1))
    } else {
        None
    }
}

fn element(fmt: &[char], i: usize) -> (r: Option<(Elem, usize)>)
    requires
        i < fmt@.len(),
    ensures
        match r {
            Some((e, n)) => element_at(fmt@, i as int) == Some((e, n as int)) && 0 < n && i + n
                <= fmt@.len(),
            None => element_at(fmt@, i as int) is None,
        },
{
    proof {
        reveal_strlit("FF");
        reveal_strlit("YYYY");
        reveal_strlit("RRRR");
        reveal_strlit("YY");
        reveal_strlit("RR");
        reveal_strlit("MONTH");
        reveal_strlit("MON");
        reveal_strlit("MM");
        reveal_strlit("DDD");
        reveal_strlit("DD");
        reveal_strlit("DAY");
        reveal_strlit("DY");
        reveal_strlit("D");
        reveal_strlit("HH24");
        reveal_strlit("HH12");
        reveal_strlit("HH");
        reveal_strlit("MI");
        reveal_strlit("SS");
        reveal_strlit("AM");
        reveal_strlit("PM");
        reveal_strlit("A.M.");
        reveal_strlit("P.M.");
        reveal_strlit("FM");
        reveal_strlit("X");
    }
    if text::has_word(fmt, i, "FF") {
        if fmt.len() - i > 2 && '1' <= fmt[i + 2] && fmt[i + 2] <= '9' {
            Some((Elem::Ff(fmt[i + 2] as u8 - 48), 3))
        } else {
            Some((Elem::Ff(9), 2))
        }
    } else if text::has_word(fmt, i, "YYYY") || text::has_word(fmt, i, "RRRR") {
        Some((Elem::Yyyy, 4))
    } else if text::has_word(fmt, i, "YY") {
        Some((Elem::Yy, 2))
    } else if text::has_word(fmt, i, "RR") {
        Some((Elem::Rr, 2))
    } else if text::has_word(fmt, i, "MONTH") {
        Some((Elem::Month, 5))
    } else if text::has_word(fmt, i, "MON") {
        Some((Elem::Mon, 3))
    } else if text::has_word(fmt, i, "MM") {
        Some((Elem::Mm, 2))
    } else if text::has_word(fmt, i, "DDD") {
        Some((Elem::Ddd, 3))
    } else if text::has_word(fmt, i, "DD") {
        Some((Elem::Dd, 2))
    } else if text::has_word(fmt, i, "DAY") {
        Some((Elem::Day, 3))
    } else if text::has_word(fmt, i, "DY") {
        Some((Elem::Dy, 2))
    } else if text::has_word(fmt, i, "D") {
        Some((Elem::D, 1))
    } else if text::has_word(fmt, i, "HH24") {
        Some((Elem::Hh24, 4))
    } else if text::has_word(fmt, i, "HH12") {
        Some((Elem::Hh12, 4))
    } else if text::has_word(fmt, i, "HH") {
        Some((Elem::Hh12, 2))
    } else if text::has_word(fmt, i, "MI") {
        Some((Elem::Mi, 2))
    } else if text::has_word(fmt, i, "SS") {
        Some((Elem::Ss, 2))
    } else if text::has_word(fmt, i, "AM") || text::has_word(fmt, i, "PM") {
        Some((Elem::Am, 2))
    } else if text::has_word(fmt, i, "A.M.") || text::has_word(fmt, i, "P.M.") {
        Some((Elem::Am, 4))
    } else if text::has_word(fmt, i, "FM") {
        Some((Elem::Fm, 2))
    } else if text::has_word(fmt, i, "X") {
        Some((Elem::X, 1))
    } else {
        None
    }
}

pub open spec fn is_punctuation(c: char) -> bool {
    c == '-' || c == '/' || c == ',' || c == '.' || c == ';' || c == ':' || c == ' '
}

/// Where the next `"` stands, from `i` on.
pub open spec fn closing_quote(fmt: Seq<char>, i: int) -> Option<int>
    decreases fmt.len() - i,
{
    if i < 0 || i >= fmt.len() {
        None
    } else if fmt[i] == '"' {
        Some(i)
    } else {
        closing_quote(fmt, i + 1)
    }
}

/// The next element of a model, with its case, and where the one behind it
/// starts. A text in double quotes and a punctuation character stand for
/// themselves.
pub open spec fn next_element(fmt: Seq<char>, i: int) -> Option<((Elem, Case), int)> {
    let case = case_at(fmt, i);
    if fmt[i] == '"' {
        match closing_quote(fmt, i + 1) {
            Some(end) => Some(((Elem::Literal((i + 1) as usize, end as usize), case), end + 1)),
            None => None,
        }
    } else if is_punctuation(fmt[i]) {
        Some(((Elem::Literal(i as usize, (i + 1) as usize), case), i + 1))
    } else {
        match element_at(fmt, i) {
            Some((e, n)) => Some(((e, case), i + n)),
            None => None,
        }
    }
}

/// The elements of a model from a place on; nothing when it is no model.
pub open spec fn elements(fmt: Seq<char>, i: int) -> Option<Seq<(Elem, Case)>>
    decreases fmt.len() - i,
{
    if i >= fmt.len() {
        Some(Seq::empty())
    } else {
        match next_element(fmt, i) {
            Some((e, next)) => if i < next <= fmt.len() {
                match elements(fmt, next) {
                    Some(rest) => Some(seq![e] + rest),
                    None => None,
                }
            } else {
                None
            },
            None => None,
        }
    }
}

pub open spec fn unknown_format() -> error::Failure {
    error::failure(1821, "date format not recognized"@)
}

/// Whether the places that an element names are inside its model, and the
/// digits that it asks for are at most nine.
pub open spec fn fits(e: Elem, len: int) -> bool {
    match e {
        Elem::Literal(from, to) => from <= to <= len,
        Elem::Ff(p) => 1 <= p <= 9,
        _ => true,
    }
}

fn tokenize(fmt: &[char]) -> (r: Result<Vec<(Elem, Case)>, OraError>)
    ensures
        match r {
            Ok(v) => elements(fmt@, 0) == Some(v@) && forall|k: int|
                0 <= k < v@.len() ==> fits((#[trigger] v@[k]).0, fmt@.len() as int),
            Err(e) => elements(fmt@, 0) is None && e@ == unknown_format(),
        },
{
    let mut out: Vec<(Elem, Case)> = Vec::new();
    let mut i: usize = 0;
    let total: usize = fmt.len();
    while i < total
        invariant
            i <= total == fmt@.len(),
            elements(fmt@, 0) == (match elements(fmt@, i as int) {
                Some(rest) => Some(out@ + rest),
                None => None,
            }),
            forall|k: int| 0 <= k < out@.len() ==> fits((#[trigger] out@[k]).0, fmt@.len() as int),
        decreases total - i,
    {
        let case = case_of(fmt, i);
        let ghost had = out@;
        let ghost at = i as int;
        if fmt[i] == '"' {
            let mut end: usize = i + 1;
            while end < total && fmt[end] != '"'
                invariant
                    i < end <= total == fmt@.len(),
                    closing_quote(fmt@, i + 1) == closing_quote(fmt@, end as int),
                decreases total - end,
            {
                end = end + 1;
            }
            if end == total {
                return Err(OraError::new(1821, "date format not recognized"));
            }
            out.push((Elem::Literal(i + 1, end), case));
            i = end + 1;
        } else if fmt[i] == '-' || fmt[i] == '/' || fmt[i] == ',' || fmt[i] == '.' || fmt[i] == ';'
            || fmt[i] == ':' || fmt[i] == ' ' {
            out.push((Elem::Literal(i, i + 1), case));
            i = i + 1;
        } else {
            match element(fmt, i) {
                Some((e, n)) => {
                    out.push((e, case));
                    i = i + n;
                },
                None => {
                    return Err(OraError::new(1821, "date format not recognized"));
                },
            }
        }
        proof {
            let e = out@.last();
            assert(next_element(fmt@, at) == Some((e, i as int)));
            match elements(fmt@, i as int) {
                Some(rest) => {
                    assert(had + (seq![e] + rest) =~= out@ + rest);
                },
                None => {},
            }
        }
    }
    assert(out@ + Seq::<(Elem, Case)>::empty() =~= out@);
    Ok(out)
}

/// Checks that a format model is valid (ORA-01821 otherwise).
pub fn validate_format(fmt: &str) -> (r: Result<(), OraError>)
    ensures
        match r {
            Ok(_) => elements(fmt@, 0) is Some,
            Err(e) => elements(fmt@, 0) is None && e@ == unknown_format(),
        },
{
    match tokenize(&text::chars_of(fmt)) {
        Ok(_) => Ok(()),
        Err(e) => Err(e),
    }
}

/// The name of a month.
pub open spec fn month_name(month: int) -> Seq<char> {
    if month == 1 {
        "JANUARY"@
    } else if month == 2 {
        "FEBRUARY"@
    } else if month == 3 {
        "MARCH"@
    } else if month == 4 {
        "APRIL"@
    } else if month == 5 {
        "MAY"@
    } else if month == 6 {
        "JUNE"@
    } else if month == 7 {
        "JULY"@
    } else if month == 8 {
        "AUGUST"@
    } else if month == 9 {
        "SEPTEMBER"@
    } else if month == 10 {
        "OCTOBER"@
    } else if month == 11 {
        "NOVEMBER"@
    } else {
        "DECEMBER"@
    }
}

/// The name of a day of the week, counted from Monday.
pub open spec fn day_name(weekday: int) -> Seq<char> {
    if weekday == 0 {
        "MONDAY"@
    } else if weekday == 1 {
        "TUESDAY"@
    } else if weekday == 2 {
        "WEDNESDAY"@
    } else if weekday == 3 {
        "THURSDAY"@
    } else if weekday == 4 {
        "FRIDAY"@
    } else if weekday == 5 {
        "SATURDAY"@
    } else {
        "SUNDAY"@
    }
}

fn month_text(month: u32) -> (s: &'static str)
    requires
        1 <= month <= 12,
    ensures
        s@ == month_name(month as int),
        3 <= s@.len() <= 9,
{
    proof {
        reveal_strlit("JANUARY");
        reveal_strlit("FEBRUARY");
        reveal_strlit("MARCH");
        reveal_strlit("APRIL");
        reveal_strlit("MAY");
        reveal_strlit("JUNE");
        reveal_strlit("JULY");
        reveal_strlit("AUGUST");
        reveal_strlit("SEPTEMBER");
        reveal_strlit("OCTOBER");
        reveal_strlit("NOVEMBER");
        reveal_strlit("DECEMBER");
    }
    if month == 1 {
        "JANUARY"
    } else if month == 2 {
        "FEBRUARY"
    } else if month == 3 {
        "MARCH"
    } else if month == 4 {
        "APRIL"
    } else if month == 5 {
        "MAY"
    } else if month == 6 {
        "JUNE"
    } else if month == 7 {
        "JULY"
    } else if month == 8 {
        "AUGUST"
    } else if month == 9 {
        "SEPTEMBER"
    } else if month == 10 {
        "OCTOBER"
    } else if month == 11 {
        "NOVEMBER"
    } else {
        "DECEMBER"
    }
}

fn day_text(weekday: u32) -> (s: &'static str)
    requires
        weekday < 7,
    ensures
        s@ == day_name(weekday as int),
        3 <= s@.len() <= 9,
{
    proof {
        reveal_strlit("MONDAY");
        reveal_strlit("TUESDAY");
        reveal_strlit("WEDNESDAY");
        reveal_strlit("THURSDAY");
        reveal_strlit("FRIDAY");
        reveal_strlit("SATURDAY");
        reveal_strlit("SUNDAY");
    }
    if weekday == 0 {
        "MONDAY"
    } else if weekday == 1 {
        "TUESDAY"
    } else if weekday == 2 {
        "WEDNESDAY"
    } else if weekday == 3 {
        "THURSDAY"
    } else if weekday == 4 {
        "FRIDAY"
    } else if weekday == 5 {
        "SATURDAY"
    } else {
        "SUNDAY"
    }
}

/// A name of ASCII letters in some case.
pub open spec fn in_case(s: Seq<char>, case: Case) -> Seq<char> {
    Seq::new(
        s.len(),
        |i: int|
            if case == Case::Upper || (case == Case::Capital && i == 0) {
                text::upper_ascii(s[i])
            } else {
                text::lower_ascii(s[i])
            },
    )
}

fn push_in_case(out: &mut String, s: &[char], case: Case)
    ensures
        final(out)@ == old(out)@ + in_case(s@, case),
{
    let ghost all = in_case(s@, case);
    assert(all.take(0) =~= Seq::<char>::empty());
    for i in 0..s.len()
        invariant
            all == in_case(s@, case),
            out@ == old(out)@ + all.take(i as int),
    {
        let c: char = s[i];
        if case == Case::Upper || (case == Case::Capital && i == 0) {
            out.push(text::to_upper_ascii(c));
        } else {
            out.push(text::to_lower_ascii(c));
        }
        assert(all.take(i + 1) =~= all.take(i as int).push(all[i as int]));
    }
    assert(all.take(all.len() as int) =~= all);
}

/// A number, with leading zeros unless these are off.
pub open spec fn padded(n: nat, width: nat, fm: bool) -> Seq<char> {
    if fm {
        text::decimal(n)
    } else {
        text::zero_filled(text::decimal(n), width)
    }
}

fn push_padded(out: &mut String, n: u32, width: usize, fm: bool)
    ensures
        final(out)@ == old(out)@ + padded(n as nat, width as nat, fm),
{
    if fm {
        text::push_decimal(out, n as u64);
    } else {
        out.append(&text::decimal_filled(n as u64, width));
    }
}

/// A text with spaces behind it up to nine characters.
pub open spec fn to_nine(s: Seq<char>) -> Seq<char> {
    if s.len() < 9 {
        s + Seq::new((9 - s.len()) as nat, |i: int| ' ')
    } else {
        s
    }
}

fn push_spaces(out: &mut String, n: usize)
    ensures
        final(out)@ == old(out)@ + Seq::new(n as nat, |i: int| ' '),
{
    for i in 0..n
        invariant
            out@ == old(out)@ + Seq::new(i as nat, |k: int| ' '),
    {
        out.push(' ');
        assert(out@ =~= old(out)@ + Seq::new((i + 1) as nat, |k: int| ' '));
    }
}

/// The last two digits of a year.
pub open spec fn short_year(year: int) -> Seq<char> {
    if year < 0 && (-year) % 100 != 0 {
        seq!['-'] + text::decimal(((-year) % 100) as nat)
    } else if year < 0 {
        text::zero_filled(text::decimal(0), 2)
    } else {
        text::zero_filled(text::decimal((year % 100) as nat), 2)
    }
}

/// What an element of a model shows of a moment.
pub open spec fn shows(m: Moment, fmt: Seq<char>, e: Elem, case: Case, fm: bool) -> Seq<char> {
    match e {
        Elem::Yyyy => padded((m.year as u32) as nat, 4, fm),
        Elem::Yy => short_year(m.year),
        Elem::Rr => short_year(m.year),
        Elem::Mm => padded(m.month as nat, 2, fm),
        Elem::Mon => in_case(month_name(m.month).take(3), case),
        Elem::Month => {
            let name = in_case(month_name(m.month), case);
            if fm {
                name
            } else {
                to_nine(name)
            }
        },
        Elem::Dd => padded(m.day as nat, 2, fm),
        Elem::Ddd => padded(ordinal(m) as nat, 3, fm),
        Elem::D => text::decimal(((weekday(m) + 1) % 7 + 1) as nat),
        Elem::Dy => in_case(day_name(weekday(m)).take(3), case),
        Elem::Day => {
            let name = in_case(day_name(weekday(m)), case);
            if fm {
                name
            } else {
                to_nine(name)
            }
        },
        Elem::Hh24 => padded(m.hour as nat, 2, fm),
        Elem::Hh12 => padded(
            (if m.hour % 12 == 0 {
                12
            } else {
                m.hour % 12
            }) as nat,
            2,
            fm,
        ),
        Elem::Mi => padded(m.minute as nat, 2, fm),
        Elem::Ss => padded(m.second as nat, 2, fm),
        Elem::Ff(p) => text::zero_filled(
            text::decimal((m.nano % 1_000_000_000) as nat),
            9,
        ).take(p as int),
        Elem::Am => in_case(
            if m.hour < 12 {
                "AM"@
            } else {
                "PM"@
            },
            case,
        ),
        Elem::X => seq!['.'],
        Elem::Fm => Seq::empty(),
        Elem::Literal(from, to) => fmt.subrange(from as int, to as int),
    }
}

/// What the elements of a model show of a moment, one behind the other. `FM`
/// switches padding off, and on again.
pub open spec fn rendered(m: Moment, fmt: Seq<char>, es: Seq<(Elem, Case)>, fm: bool) -> Seq<char>
    decreases es.len(),
{
    if es.len() == 0 {
        Seq::empty()
    } else {
        let fm2 = if es[0].0 == Elem::Fm {
            !fm
        } else {
            fm
        };
        shows(m, fmt, es[0].0, es[0].1, fm) + rendered(m, fmt, es.skip(1), fm2)
    }
}

/// TO_CHAR of a moment: what its format model shows of it.
pub open spec fn formatted(m: Moment, fmt: Seq<char>) -> Seq<char> {
    match elements(fmt, 0) {
        Some(es) => rendered(m, fmt, es, false),
        None => shown(m),
    }
}

fn day_of_year(d: &DateTime) -> (r: u32)
    ensures
        r == ordinal(d@),
{
    let year: i32 = d.year();
    let month: u32 = d.month();
    let mut n: u32 = 0;
    let mut k: u32 = 1;
    while k < month
        invariant
            1 <= k <= month <= 12,
            n == days_before(year as int, k as int),
            n <= 31 * (k - 1),
        decreases month - k,
    {
        n = n + last_day_of(year, k);
        k = k + 1;
    }
    n + d.day()
}

fn show(out: &mut String, d: &DateTime, fmt: &[char], e: Elem, case: Case, fm: bool)
    requires
        fits(e, fmt@.len() as int),
    ensures
        final(out)@ == old(out)@ + shows(d@, fmt@, e, case, fm),
{
    let year: i32 = d.year();
    match e {
        Elem::Yyyy => push_padded(out, year as u32, 4, fm),
        Elem::Yy | Elem::Rr => {
            if year < 0 {
                let r: i32 = (-year) % 100;
                if r != 0 {
                    out.push('-');
                    text::push_decimal(out, r as u64);
                } else {
                    out.append(&text::decimal_filled(0, 2));
                }
            } else {
                out.append(&text::decimal_filled((year % 100) as u64, 2));
            }
        },
        Elem::Mm => push_padded(out, d.month(), 2, fm),
        Elem::Mon => {
            let name = text::chars_of(month_text(d.month()));
            let short = text::slice(&name, 0, 3);
            assert(short@ =~= name@.take(3));
            push_in_case(out, &short, case);
        },
        Elem::Month => {
            let name = text::chars_of(month_text(d.month()));
            push_in_case(out, &name, case);
            if !fm {
                push_spaces(out, 9 - name.len());
            }
        },
        Elem::Dd => push_padded(out, d.day(), 2, fm),
        Elem::Ddd => push_padded(out, day_of_year(d), 3, fm),
        Elem::D => text::push_decimal(out, ((d.weekday() + 1) % 7 + 1) as u64),
        Elem::Dy => {
            let name = text::chars_of(day_text(d.weekday()));
            let short = text::slice(&name, 0, 3);
            assert(short@ =~= name@.take(3));
            push_in_case(out, &short, case);
        },
        Elem::Day => {
            let name = text::chars_of(day_text(d.weekday()));
            push_in_case(out, &name, case);
            if !fm {
                push_spaces(out, 9 - name.len());
            }
        },
        Elem::Hh24 => push_padded(out, d.hour(), 2, fm),
        Elem::Hh12 => {
            let h: u32 = d.hour() % 12;
            push_padded(
                out,
                if h == 0 {
                    12
                } else {
                    h
                },
                2,
                fm,
            );
        },
        Elem::Mi => push_padded(out, d.minute(), 2, fm),
        Elem::Ss => push_padded(out, d.second(), 2, fm),
        Elem::Ff(p) => {
            let nanos = text::chars_of(
                &text::decimal_filled((d.nanosecond() % 1_000_000_000) as u64, 9),
            );
            let short = text::slice(&nanos, 0, p as usize);
            assert(short@ =~= nanos@.take(p as int));
            out.append(&text::string_of(&short));
        },
        Elem::Am => {
            let half = text::chars_of(
                if d.hour() < 12 {
                    "AM"
                } else {
                    "PM"
                },
            );
            push_in_case(out, &half, case);
        },
        Elem::X => out.push('.'),
        Elem::Fm => {},
        Elem::Literal(from, to) => out.append(&text::string_of(&text::slice(fmt, from, to))),
    }
    assert(out@ =~= old(out)@ + shows(d@, fmt@, e, case, fm));
}

/// TO_CHAR(datetime, format).
pub fn format(d: &DateTime, fmt: &str) -> (r: String)
    ensures
        r@ == formatted(d@, fmt@),
{
    let model = text::chars_of(fmt);
    let elems = match tokenize(&model) {
        Ok(elems) => elems,
        Err(_) => {
            return shown_raw(d);
        },
    };
    let mut fm = false;
    let mut out = String::new();
    assert(elems@.skip(0) =~= elems@);
    for i in 0..elems.len()
        invariant
            model@ == fmt@,
            elements(fmt@, 0) == Some(elems@),
            forall|k: int| 0 <= k < elems@.len() ==> fits((#[trigger] elems@[k]).0, fmt@.len() as int),
            rendered(d@, fmt@, elems@, false) == out@ + rendered(
                d@,
                fmt@,
                elems@.skip(i as int),
                fm,
            ),
    {
        let (e, case) = elems[i];
        let ghost left = elems@.skip(i as int);
        let ghost had = out@;
        assert(left[0] == elems@[i as int]);
        show(&mut out, d, &model, e, case, fm);
        if matches!(e, Elem::Fm) {
            fm = !fm;
        }
        assert(left.skip(1) =~= elems@.skip(i + 1));
        assert(had + (shows(d@, fmt@, e, case, fm) + rendered(d@, fmt@, left.skip(1), fm)) =~= had
            + shows(d@, fmt@, e, case, fm) + rendered(d@, fmt@, left.skip(1), fm));
    }
    assert(elems@.skip(elems@.len() as int).len() == 0);
    assert(out@ + Seq::<char>::empty() =~= out@);
    out
}

/// What has been read of a date: the place behind it, and its parts. A part
/// that no element names keeps its value.
#[derive(Clone, Copy)]
pub struct Fields {
    pub at: usize,
    pub year: Option<i32>,
    pub month: u32,
    pub day: u32,
    pub hour: u32,
    pub minute: u32,
    pub second: u32,
    pub nanos: u32,
    pub pm: Option<bool>,
    pub hour12: bool,
}

pub open spec fn no_fields() -> Fields {
    Fields {
        at: 0,
        year: None,
        month: 1,
        day: 1,
        hour: 0,
        minute: 0,
        second: 0,
        nanos: 0,
        pm: None,
        hour12: false,
    }
}

/// Where a run of at most `max` digits from `i` on ends.
pub open spec fn digits_end(s: Seq<char>, i: int, max: int) -> int
    decreases max,
{
    if max > 0 && 0 <= i < s.len() && text::is_digit(s[i]) {
        digits_end(s, i + 1, max - 1)
    } else {
        i
    }
}

/// The number of at most `max` digits at a place, and where it ends.
pub open spec fn number_at(s: Seq<char>, i: int, max: int) -> Result<(int, int), error::Failure> {
    let end = digits_end(s, i, max);
    if end == i {
        Err(
            error::failure(
                1858,
                "a non-numeric character was found where a numeric was expected"@,
            ),
        )
    } else {
        Ok((number::digits_value(s.subrange(i, end)) as int, end))
    }
}

/// Bytes as characters, one for each.
pub open spec fn latin(b: Seq<u8>) -> Seq<char> {
    Seq::new(b.len(), |i: int| b[i] as char)
}

/// The rest of a text from a byte on, in upper case; nothing where that byte is
/// inside a character.
pub open spec fn upper_tail(b: Seq<u8>, i: int) -> Option<Seq<char>> {
    if 0 <= i <= b.len() && valid_utf8(b.skip(i)) {
        Some(text::upper(decode_utf8(b.skip(i))))
    } else {
        None
    }
}

/// Whether a text starts with a word.
pub open spec fn starts_with(s: Seq<char>, word: Seq<char>) -> bool {
    word.len() <= s.len() && s.take(word.len() as int) == word
}

/// The place some bytes further on, or the end.
pub open spec fn further(b: Seq<u8>, i: int, n: int) -> int {
    if i + n <= b.len() {
        i + n
    } else {
        b.len() as int
    }
}

/// The month, from `month` on, with whose name or its first three letters a text
/// in upper case starts, and how long that is.
pub open spec fn month_in(s: Seq<char>, month: int) -> Option<(int, int)>
    decreases 13 - month,
{
    if month > 12 {
        None
    } else if starts_with(s, month_name(month)) {
        Some((month, month_name(month).len() as int))
    } else if starts_with(s, month_name(month).take(3)) {
        Some((month, 3))
    } else {
        month_in(s, month + 1)
    }
}

/// How long the name of a day, or its first three letters, at the start of a text
/// in upper case is.
pub open spec fn day_in(s: Seq<char>, day: int) -> Option<int>
    decreases 7 - day,
{
    if day > 6 {
        None
    } else if starts_with(s, day_name(day)) {
        Some(day_name(day).len() as int)
    } else if starts_with(s, day_name(day).take(3)) {
        Some(3)
    } else {
        day_in(s, day + 1)
    }
}

/// With which half of the day a text in upper case starts, and how long that is.
pub open spec fn half_in(s: Seq<char>) -> Option<(bool, int)> {
    if starts_with(s, "PM"@) {
        Some((true, 2))
    } else if starts_with(s, "AM"@) {
        Some((false, 2))
    } else if starts_with(s, "P.M."@) {
        Some((true, 4))
    } else if starts_with(s, "A.M."@) {
        Some((false, 4))
    } else {
        None
    }
}

pub open spec fn no_match() -> error::Failure {
    error::failure(1861, "literal does not match format string"@)
}

/// Where the next ASCII letter or digit stands, from `i` on.
pub open spec fn skip_punctuation(s: Seq<char>, i: int) -> int
    decreases s.len() - i,
{
    if 0 <= i < s.len() && !text::is_ascii_alnum(s[i]) {
        skip_punctuation(s, i + 1)
    } else {
        i
    }
}

/// Whether no character of a text is a letter or a digit.
pub open spec fn all_punctuation(s: Seq<char>) -> bool {
    forall|k: int| 0 <= k < s.len() ==> !text::alphanumeric(#[trigger] s[k])
}

/// The year that the digits of an `RR` element stand for.
pub open spec fn round_year(y: int, len: int) -> int {
    if len > 2 {
        y
    } else if y < 50 {
        2000 + y
    } else {
        1900 + y
    }
}

pub open spec fn ten_to(n: int) -> int
    decreases n,
{
    if n <= 0 {
        1
    } else {
        10 * ten_to(n - 1)
    }
}

/// What an element of a model reads of a text. Places are counted in bytes. Any
/// punctuation matches any punctuation; a word matches in upper case, and takes as
/// many bytes as it has in the model.
pub open spec fn read_element(b: Seq<u8>, fmt: Seq<char>, e: Elem, f: Fields) -> Result<
    Fields,
    error::Failure,
> {
    let s = latin(b);
    let i = f.at as int;
    match e {
        Elem::Yyyy => match number_at(s, i, 4) {
            Ok((n, end)) => Ok(Fields { year: Some(n as i32), at: end as usize, ..f }),
            Err(x) => Err(x),
        },
        Elem::Yy => match number_at(s, i, 2) {
            Ok((n, end)) => Ok(Fields { year: Some((2000 + n) as i32), at: end as usize, ..f }),
            Err(x) => Err(x),
        },
        Elem::Rr => match number_at(s, i, 4) {
            Ok((n, end)) => Ok(
                Fields { year: Some(round_year(n, end - i) as i32), at: end as usize, ..f },
            ),
            Err(x) => Err(x),
        },
        Elem::Mm => match number_at(s, i, 2) {
            Ok((n, end)) => Ok(Fields { month: n as u32, at: end as usize, ..f }),
            Err(x) => Err(x),
        },
        Elem::Mon | Elem::Month => match upper_tail(b, i) {
            None => Err(no_match()),
            Some(rest) => match month_in(rest, 1) {
                Some((n, len)) => Ok(
                    Fields { month: n as u32, at: further(b, i, len) as usize, ..f },
                ),
                None => Err(error::failure(1843, "not a valid month"@)),
            },
        },
        Elem::Dd => match number_at(s, i, 2) {
            Ok((n, end)) => Ok(Fields { day: n as u32, at: end as usize, ..f }),
            Err(x) => Err(x),
        },
        Elem::Ddd | Elem::D => match number_at(s, i, 3) {
            Ok((n, end)) => Ok(Fields { at: end as usize, ..f }),
            Err(x) => Err(x),
        },
        Elem::Dy | Elem::Day => match upper_tail(b, i) {
            None => Err(no_match()),
            Some(rest) => match day_in(rest, 0) {
                Some(len) => Ok(Fields { at: further(b, i, len) as usize, ..f }),
                None => Err(error::failure(1846, "not a valid day of the week"@)),
            },
        },
        Elem::Hh24 => match number_at(s, i, 2) {
            Ok((n, end)) => Ok(Fields { hour: n as u32, at: end as usize, ..f }),
            Err(x) => Err(x),
        },
        Elem::Hh12 => match number_at(s, i, 2) {
            Ok((n, end)) => Ok(Fields { hour: n as u32, at: end as usize, hour12: true, ..f }),
            Err(x) => Err(x),
        },
        Elem::Mi => match number_at(s, i, 2) {
            Ok((n, end)) => Ok(Fields { minute: n as u32, at: end as usize, ..f }),
            Err(x) => Err(x),
        },
        Elem::Ss => match number_at(s, i, 2) {
            Ok((n, end)) => Ok(Fields { second: n as u32, at: end as usize, ..f }),
            Err(x) => Err(x),
        },
        Elem::Ff(_) => match number_at(s, i, 9) {
            Ok((n, end)) => Ok(
                Fields { nanos: (n * ten_to(9 - (end - i))) as u32, at: end as usize, ..f },
            ),
            Err(x) => Err(x),
        },
        Elem::Am => match upper_tail(b, i) {
            None => Err(no_match()),
            Some(rest) => match half_in(rest) {
                Some((pm, len)) => Ok(
                    Fields { pm: Some(pm), at: further(b, i, len) as usize, ..f },
                ),
                None => Err(error::failure(1855, "AM/A.M. or PM/P.M. required"@)),
            },
        },
        Elem::X => if i < s.len() && s[i] == '.' {
            Ok(Fields { at: (i + 1) as usize, ..f })
        } else {
            Ok(f)
        },
        Elem::Fm => Ok(f),
        Elem::Literal(from, to) => {
            let lit = fmt.subrange(from as int, to as int);
            if all_punctuation(lit) {
                Ok(Fields { at: skip_punctuation(s, i) as usize, ..f })
            } else {
                match upper_tail(b, i) {
                    Some(rest) => if starts_with(rest, text::upper(lit)) {
                        Ok(
                            Fields {
                                at: further(b, i, encode_utf8(lit).len() as int) as usize,
                                ..f
                            },
                        )
                    } else {
                        Err(no_match())
                    },
                    None => Err(no_match()),
                }
            }
        },
    }
}

/// What the elements of a model read of a text, one after the other.
pub open spec fn read_elements(
    b: Seq<u8>,
    fmt: Seq<char>,
    es: Seq<(Elem, Case)>,
    f: Fields,
) -> Result<Fields, error::Failure>
    decreases es.len(),
{
    if es.len() == 0 {
        Ok(f)
    } else {
        match read_element(b, fmt, es[0].0, f) {
            Ok(f2) => read_elements(b, fmt, es.skip(1), f2),
            Err(x) => Err(x),
        }
    }
}

/// The moment that the parts make, in the given year when they name none.
pub open spec fn assembled(f: Fields, this_year: int) -> Result<Moment, error::Failure> {
    let on_clock = f.hour12 || f.pm is Some;
    let hour = if !on_clock {
        f.hour as int
    } else if f.pm == Some(true) {
        f.hour % 12 + 12
    } else {
        (f.hour % 12) as int
    };
    let year = match f.year {
        Some(y) => y as int,
        None => this_year,
    };
    if on_clock && !(1 <= f.hour <= 12) {
        Err(error::failure(1849, "hour must be between 1 and 12"@))
    } else if hour > 23 {
        Err(error::failure(1850, "hour must be between 0 and 23"@))
    } else if f.minute > 59 {
        Err(error::failure(1851, "minutes must be between 0 and 59"@))
    } else if f.second > 59 {
        Err(error::failure(1852, "seconds must be between 0 and 59"@))
    } else if !(1 <= f.month <= 12) {
        Err(error::failure(1843, "not a valid month"@))
    } else if !valid_date(year, f.month as int, f.day as int) {
        Err(error::failure(1839, "date not valid for month specified"@))
    } else {
        Ok(
            moment(
                year,
                f.month as int,
                f.day as int,
                hour,
                f.minute as int,
                f.second as int,
                f.nanos as int,
            ),
        )
    }
}

/// TO_DATE: the moment that a text stands for under a format model.
pub open spec fn read_moment(s: Seq<char>, fmt: Seq<char>, this_year: int) -> Result<
    Moment,
    error::Failure,
> {
    match elements(fmt, 0) {
        None => Err(unknown_format()),
        Some(es) => {
            let input = encode_utf8(text::trimmed(s));
            match read_elements(input, fmt, es, no_fields()) {
                Err(x) => Err(x),
                Ok(f) => if f.at < input.len() {
                    Err(
                        error::failure(
                            1830,
                            "date format picture ends before converting entire input string"@,
                        ),
                    )
                } else {
                    assembled(f, this_year)
                },
            }
        },
    }
}

fn number(b: &[u8], i: usize, max: usize) -> (r: Result<(u32, usize), OraError>)
    requires
        i <= b@.len(),
        max <= 9,
    ensures
        match r {
            Ok((n, end)) => number_at(latin(b@), i as int, max as int) == Ok::<
                (int, int),
                error::Failure,
            >((n as int, end as int)) && i < end <= b@.len() && end - i <= max && n < ten_to(end - i),
            Err(e) => error::failed(number_at(latin(b@), i as int, max as int), e),
        },
{
    let mut end: usize = i;
    let mut n: u32 = 0;
    let total: usize = b.len();
    let ghost s = latin(b@);
    assert(s.subrange(i as int, i as int) =~= Seq::<char>::empty());
    proof {
        reveal_with_fuel(ten_to, 11);
    }
    while end < total && end - i < max && 48 <= b[end] && b[end] <= 57
        invariant
            i <= end <= total == b@.len(),
            s == latin(b@),
            end - i <= max <= 9,
            digits_end(s, i as int, max as int) == digits_end(s, end as int, max - (end - i)),
            n == number::digits_value(s.subrange(i as int, end as int)),
            n < ten_to(end - i),
            ten_to(9) == 1_000_000_000,
        decreases total - end,
    {
        let c: u8 = b[end];
        proof {
            assert(s.subrange(i as int, end + 1).drop_last() =~= s.subrange(i as int, end as int));
            assert(s[end as int] == c as char);
            ten_to_grows(end - i, 8);
            reveal_with_fuel(ten_to, 2);
        }
        n = n * 10 + (c as u32 - 48);
        end = end + 1;
    }
    if end == i {
        return Err(
            OraError::new(
                1858,
                "a non-numeric character was found where a numeric was expected",
            ),
        );
    }
    Ok((n, end))
}

proof fn ten_to_grows(a: int, b: int)
    requires
        a <= b,
    ensures
        ten_to(a) <= ten_to(b),
        ten_to(a) >= 1,
    decreases b - a,
{
    if a < b {
        ten_to_grows(a, b - 1);
        if b > 0 {
            assert(ten_to(b) == 10 * ten_to(b - 1));
        }
    } else {
        ten_to_positive(a);
    }
}

proof fn ten_to_positive(a: int)
    ensures
        ten_to(a) >= 1,
    decreases a,
{
    if a > 0 {
        ten_to_positive(a - 1);
    }
}

fn begins_with(s: &[char], word: &[char]) -> (r: bool)
    ensures
        r == starts_with(s@, word@),
{
    if word.len() > s.len() {
        return false;
    }
    let head = text::slice(s, 0, word.len());
    assert(head@ =~= s@.take(word@.len() as int));
    text::same_chars(&head, word)
}

fn find_month(s: &[char]) -> (r: Option<(u32, usize)>)
    ensures
        match r {
            Some((n, len)) => month_in(s@, 1) == Some((n as int, len as int)) && len <= s@.len(),
            None => month_in(s@, 1) is None,
        },
{
    let mut month: u32 = 1;
    while month <= 12
        invariant
            1 <= month <= 13,
            month_in(s@, 1) == month_in(s@, month as int),
        decreases 13 - month,
    {
        let full = text::chars_of(month_text(month));
        let short = text::slice(&full, 0, 3);
        assert(short@ =~= full@.take(3));
        if begins_with(s, &full) {
            return Some((month, full.len()));
        }
        if begins_with(s, &short) {
            return Some((month, 3));
        }
        month = month + 1;
    }
    None
}

fn find_day(s: &[char]) -> (r: Option<usize>)
    ensures
        match r {
            Some(len) => day_in(s@, 0) == Some(len as int) && len <= s@.len(),
            None => day_in(s@, 0) is None,
        },
{
    let mut day: u32 = 0;
    while day < 7
        invariant
            0 <= day <= 7,
            day_in(s@, 0) == day_in(s@, day as int),
        decreases 7 - day,
    {
        let full = text::chars_of(day_text(day));
        let short = text::slice(&full, 0, 3);
        assert(short@ =~= full@.take(3));
        if begins_with(s, &full) {
            return Some(full.len());
        }
        if begins_with(s, &short) {
            return Some(3);
        }
        day = day + 1;
    }
    None
}

fn find_half(s: &[char]) -> (r: Option<(bool, usize)>)
    ensures
        match r {
            Some((pm, len)) => half_in(s@) == Some((pm, len as int)) && len <= 4,
            None => half_in(s@) is None,
        },
{
    if begins_with(s, &text::chars_of("PM")) {
        Some((true, 2))
    } else if begins_with(s, &text::chars_of("AM")) {
        Some((false, 2))
    } else if begins_with(s, &text::chars_of("P.M.")) {
        Some((true, 4))
    } else if begins_with(s, &text::chars_of("A.M.")) {
        Some((false, 4))
    } else {
        None
    }
}

fn rest_in_upper(b: &[u8], i: usize) -> (r: Option<Vec<char>>)
    requires
        i <= b@.len(),
    ensures
        match r {
            Some(v) => upper_tail(b@, i as int) == Some(v@),
            None => upper_tail(b@, i as int) is None,
        },
{
    let bytes = vstd::slice::slice_to_vec(vstd::slice::slice_subrange(b, i, b.len()));
    assert(bytes@ =~= b@.skip(i as int));
    match utf8_text(bytes) {
        Some(s) => Some(text::chars_of(&s.to_uppercase())),
        None => None,
    }
}

fn go_on(b: &[u8], i: usize, n: usize) -> (r: usize)
    requires
        i <= b@.len(),
    ensures
        r == further(b@, i as int, n as int),
        r <= b@.len(),
{
    let total: usize = b.len();
    if n <= total - i {
        i + n
    } else {
        total
    }
}

fn read_literal(b: &[u8], lit: &[char], i: usize) -> (r: Result<usize, OraError>)
    requires
        i <= b@.len(),
    ensures
        ({
            let found = match upper_tail(b@, i as int) {
                Some(rest) => starts_with(rest, text::upper(lit@)),
                None => false,
            };
            match r {
                Ok(end) => end <= b@.len() && if all_punctuation(lit@) {
                    end == skip_punctuation(latin(b@), i as int)
                } else {
                    found && end == further(b@, i as int, encode_utf8(lit@).len() as int)
                },
                Err(e) => !all_punctuation(lit@) && !found && e@ == no_match(),
            }
        }),
{
    let mut plain = true;
    for k in 0..lit.len()
        invariant
            plain ==> forall|j: int| 0 <= j < k ==> !text::alphanumeric(#[trigger] lit@[j]),
            !plain ==> !all_punctuation(lit@),
    {
        if lit[k].is_alphanumeric() {
            assert(text::alphanumeric(lit@[k as int]));
            plain = false;
        }
    }
    let total: usize = b.len();
    if plain {
        let ghost s = latin(b@);
        let mut end: usize = i;
        while end < total && !text::ascii_alnum(b[end] as char)
            invariant
                i <= end <= total == b@.len(),
                s == latin(b@),
                skip_punctuation(s, i as int) == skip_punctuation(s, end as int),
            decreases total - end,
        {
            end = end + 1;
        }
        return Ok(end);
    }
    let word = text::string_of(lit);
    if let Some(rest) = rest_in_upper(b, i) {
        if begins_with(&rest, &text::chars_of(&word.to_uppercase())) {
            return Ok(go_on(b, i, word.as_str().as_bytes().len()));
        }
    }
    Err(OraError::new(1861, "literal does not match format string"))
}

fn no_match_error() -> (e: OraError)
    ensures
        e@ == no_match(),
{
    OraError::new(1861, "literal does not match format string")
}

fn read(b: &[u8], fmt: &[char], e: Elem, f: Fields) -> (r: Result<Fields, OraError>)
    requires
        f.at <= b@.len(),
        fits(e, fmt@.len() as int),
        f.nanos < 1_000_000_000,
    ensures
        match r {
            Ok(f2) => read_element(b@, fmt@, e, f) == Ok::<Fields, error::Failure>(f2) && f2.at
                <= b@.len() && f2.nanos < 1_000_000_000,
            Err(x) => error::failed(read_element(b@, fmt@, e, f), x),
        },
{
    let i: usize = f.at;
    let total: usize = b.len();
    assert(total == b@.len());
    proof {
        reveal_with_fuel(ten_to, 11);
    }
    match e {
        Elem::Yyyy => match number(b, i, 4) {
            Ok((n, end)) => Ok(Fields { year: Some(n as i32), at: end, ..f }),
            Err(x) => Err(x),
        },
        Elem::Yy => match number(b, i, 2) {
            Ok((n, end)) => Ok(Fields { year: Some((2000 + n) as i32), at: end, ..f }),
            Err(x) => Err(x),
        },
        Elem::Rr => match number(b, i, 4) {
            Ok((n, end)) => {
                let y: u32 = if end - i > 2 {
                    n
                } else if n < 50 {
                    2000 + n
                } else {
                    1900 + n
                };
                Ok(Fields { year: Some(y as i32), at: end, ..f })
            },
            Err(x) => Err(x),
        },
        Elem::Mm => match number(b, i, 2) {
            Ok((n, end)) => Ok(Fields { month: n, at: end, ..f }),
            Err(x) => Err(x),
        },
        Elem::Mon | Elem::Month => match rest_in_upper(b, i) {
            None => Err(no_match_error()),
            Some(rest) => match find_month(&rest) {
                Some((n, len)) => Ok(Fields { month: n, at: go_on(b, i, len), ..f }),
                None => Err(OraError::new(1843, "not a valid month")),
            },
        },
        Elem::Dd => match number(b, i, 2) {
            Ok((n, end)) => Ok(Fields { day: n, at: end, ..f }),
            Err(x) => Err(x),
        },
        Elem::Ddd | Elem::D => match number(b, i, 3) {
            Ok((_, end)) => Ok(Fields { at: end, ..f }),
            Err(x) => Err(x),
        },
        Elem::Dy | Elem::Day => match rest_in_upper(b, i) {
            None => Err(no_match_error()),
            Some(rest) => match find_day(&rest) {
                Some(len) => Ok(Fields { at: go_on(b, i, len), ..f }),
                None => Err(OraError::new(1846, "not a valid day of the week")),
            },
        },
        Elem::Hh24 => match number(b, i, 2) {
            Ok((n, end)) => Ok(Fields { hour: n, at: end, ..f }),
            Err(x) => Err(x),
        },
        Elem::Hh12 => match number(b, i, 2) {
            Ok((n, end)) => Ok(Fields { hour: n, at: end, hour12: true, ..f }),
            Err(x) => Err(x),
        },
        Elem::Mi => match number(b, i, 2) {
            Ok((n, end)) => Ok(Fields { minute: n, at: end, ..f }),
            Err(x) => Err(x),
        },
        Elem::Ss => match number(b, i, 2) {
            Ok((n, end)) => Ok(Fields { second: n, at: end, ..f }),
            Err(x) => Err(x),
        },
        Elem::Ff(_) => match number(b, i, 9) {
            Ok((n, end)) => Ok(Fields { nanos: to_nanos(n, end - i), at: end, ..f }),
            Err(x) => Err(x),
        },
        Elem::Am => match rest_in_upper(b, i) {
            None => Err(no_match_error()),
            Some(rest) => match find_half(&rest) {
                Some((pm, len)) => Ok(Fields { pm: Some(pm), at: go_on(b, i, len), ..f }),
                None => Err(OraError::new(1855, "AM/A.M. or PM/P.M. required")),
            },
        },
        Elem::X => if i < b.len() && b[i] == 46 {
            Ok(Fields { at: i + 1, ..f })
        } else {
            Ok(f)
        },
        Elem::Fm => Ok(f),
        Elem::Literal(from, to) => {
            let lit = text::slice(fmt, from, to);
            match read_literal(b, &lit, i) {
                Ok(end) => Ok(Fields { at: end, ..f }),
                Err(x) => Err(x),
            }
        },
    }
}

/// The nanoseconds that the digits of a fraction stand for.
fn to_nanos(n: u32, len: usize) -> (r: u32)
    requires
        len <= 9,
        n < ten_to(len as int),
    ensures
        r == n * ten_to(9 - len),
        r < 1_000_000_000,
{
    let mut r: u32 = n;
    let mut k: usize = len;
    proof {
        reveal_with_fuel(ten_to, 11);
    }
    while k < 9
        invariant
            len <= k <= 9,
            r == n * ten_to(k - len),
            r < ten_to(k as int),
            ten_to(9) == 1_000_000_000,
        decreases 9 - k,
    {
        proof {
            ten_to_grows(k as int, 8);
            reveal_with_fuel(ten_to, 2);
            let p = ten_to(k - len);
            assert(n * (10 * p) == 10 * (n * p)) by (nonlinear_arith);
        }
        r = r * 10;
        k = k + 1;
    }
    r
}

fn assemble(f: Fields, this_year: i32) -> (r: Result<DateTime, OraError>)
    requires
        f.nanos < 1_000_000_000,
    ensures
        match r {
            Ok(d) => assembled(f, this_year as int) == Ok::<Moment, error::Failure>(d@),
            Err(e) => error::failed(assembled(f, this_year as int), e),
        },
{
    let mut hour: u32 = f.hour;
    if f.hour12 || f.pm.is_some() {
        if hour < 1 || hour > 12 {
            return Err(OraError::new(1849, "hour must be between 1 and 12"));
        }
        hour = hour % 12;
        if let Some(pm) = f.pm {
            if pm {
                hour = hour + 12;
            }
        }
    }
    if hour > 23 {
        return Err(OraError::new(1850, "hour must be between 0 and 23"));
    }
    if f.minute > 59 {
        return Err(OraError::new(1851, "minutes must be between 0 and 59"));
    }
    if f.second > 59 {
        return Err(OraError::new(1852, "seconds must be between 0 and 59"));
    }
    if f.month < 1 || f.month > 12 {
        return Err(OraError::new(1843, "not a valid month"));
    }
    let year: i32 = match f.year {
        Some(y) => y,
        None => this_year,
    };
    match DateTime::new(year, f.month, f.day, hour, f.minute, f.second, f.nanos) {
        Some(d) => Ok(d),
        None => Err(OraError::new(1839, "date not valid for month specified")),
    }
}

/// TO_DATE(string, format), in the given year when the text names none.
pub fn parse_in(s: &str, fmt: &str, this_year: i32) -> (r: Result<DateTime, OraError>)
    ensures
        match r {
            Ok(d) => read_moment(s@, fmt@, this_year as int) == Ok::<Moment, error::Failure>(d@),
            Err(e) => error::failed(read_moment(s@, fmt@, this_year as int), e),
        },
{
    let model = text::chars_of(fmt);
    let elems = match tokenize(&model) {
        Ok(elems) => elems,
        Err(e) => {
            return Err(e);
        },
    };
    let trimmed = text::string_of(&text::trim(s));
    let input = trimmed.as_str().as_bytes();
    let mut f = Fields {
        at: 0,
        year: None,
        month: 1,
        day: 1,
        hour: 0,
        minute: 0,
        second: 0,
        nanos: 0,
        pm: None,
        hour12: false,
    };
    assert(elems@.skip(0) =~= elems@);
    for k in 0..elems.len()
        invariant
            model@ == fmt@,
            input@ == encode_utf8(text::trimmed(s@)),
            elements(fmt@, 0) == Some(elems@),
            forall|j: int| 0 <= j < elems@.len() ==> fits((#[trigger] elems@[j]).0, fmt@.len() as int),
            f.at <= input@.len(),
            f.nanos < 1_000_000_000,
            read_elements(input@, fmt@, elems@, no_fields()) == read_elements(
                input@,
                fmt@,
                elems@.skip(k as int),
                f,
            ),
    {
        let ghost left = elems@.skip(k as int);
        assert(left[0] == elems@[k as int]);
        assert(left.skip(1) =~= elems@.skip(k + 1));
        match read(input, &model, elems[k].0, f) {
            Ok(f2) => {
                f = f2;
            },
            Err(e) => {
                return Err(e);
            },
        }
    }
    assert(elems@.skip(elems@.len() as int).len() == 0);
    if f.at < input.len() {
        return Err(
            OraError::new(
                1830,
                "date format picture ends before converting entire input string",
            ),
        );
    }
    assemble(f, this_year)
}

/// TO_DATE(string, format). Oracle is lenient about separators and zero padding.
pub fn parse(s: &str, fmt: &str) -> (r: Result<DateTime, OraError>)
    ensures
        exists|this_year: i32|
            match r {
                Ok(d) => #[trigger] read_moment(s@, fmt@, this_year as int) == Ok::<
                    Moment,
                    error::Failure,
                >(d@),
                Err(e) => error::failed(read_moment(s@, fmt@, this_year as int), e),
            },
{
    parse_in(s, fmt, current_year())
}

/// The year and month some months after those of a moment.
pub open spec fn month_after(m: Moment, months: int) -> (int, int) {
    let total = m.year * 12 + (m.month - 1) + months;
    (total / 12, total % 12 + 1)
}

/// ADD_MONTHS: the last day of a month goes to the last day, and a day that
/// the other month does not have too.
pub open spec fn months_later(m: Moment, months: int) -> Moment {
    let (year, month) = month_after(m, months);
    let last = days_in(year, month);
    let day = if m.day == days_in(m.year, m.month) || m.day > last {
        last
    } else {
        m.day
    };
    Moment { year, month, day, ..m }
}

/// Adds months the way ADD_MONTHS does: the last day of a month maps to the last day.
pub fn add_months(d: &DateTime, months: i32) -> (r: DateTime)
    requires
        MIN_YEAR <= month_after(d@, months as int).0 <= MAX_YEAR,
    ensures
        r@ == months_later(d@, months as int),
{
    let year: i32 = d.year();
    let month: u32 = d.month();
    let day: u32 = d.day();
    // A multiple of twelve that leaves no negative number of months.
    let total: i64 = (year as i64 + 1_000_000_000) * 12 + (month as i64 - 1) + months as i64;
    assert(total / 12 - 1_000_000_000 == (year * 12 + (month - 1) + months) / 12);
    assert(total % 12 == (year * 12 + (month - 1) + months) % 12);
    let y: i32 = (total / 12 - 1_000_000_000) as i32;
    let m: u32 = (total % 12) as u32 + 1;
    let last: u32 = last_day_of(y, m);
    let to: u32 = if day == last_day_of(year, month) || day > last {
        last
    } else {
        day
    };
    d.with_date(y, m, to)
}

pub open spec fn beyond_calendar() -> error::Failure {
    error::failure(1841, "(full) year must be between -4713 and +9999, and not be 0"@)
}

pub fn out_of_calendar() -> (e: OraError)
    ensures
        e@ == beyond_calendar(),
{
    OraError::new(1841, "(full) year must be between -4713 and +9999, and not be 0")
}

/// The start of the unit that a moment is in: day, month, year, quarter, hour,
/// minute, or week from Sunday or from Monday.
pub open spec fn truncated(m: Moment, unit: Seq<char>) -> Result<Moment, error::Failure> {
    let u = text::upper(unit);
    if u == "DD"@ || u == "DDD"@ || u == "J"@ {
        Ok(midnight(m))
    } else if u == "MM"@ || u == "MON"@ || u == "MONTH"@ || u == "RM"@ {
        Ok(Moment { day: 1, ..midnight(m) })
    } else if u == "YYYY"@ || u == "YYY"@ || u == "YY"@ || u == "Y"@ || u == "YEAR"@ || u == "SYYYY"@ || u == "RRRR"@ || u == "RR"@ {
        Ok(Moment { month: 1, day: 1, ..midnight(m) })
    } else if u == "Q"@ {
        Ok(Moment { month: (m.month - 1) / 3 * 3 + 1, day: 1, ..midnight(m) })
    } else if u == "HH"@ || u == "HH12"@ || u == "HH24"@ {
        Ok(Moment { minute: 0, second: 0, nano: 0, ..m })
    } else if u == "MI"@ {
        Ok(Moment { second: 0, nano: 0, ..m })
    } else if u == "D"@ || u == "DY"@ || u == "DAY"@ {
        days_back(midnight(m), (weekday(m) + 1) % 7)
    } else if u == "IW"@ {
        days_back(midnight(m), weekday(m))
    } else {
        Err(error::failure(1898, "too many precision specifiers"@))
    }
}

/// The moment some days earlier.
pub open spec fn days_back(m: Moment, days: int) -> Result<Moment, error::Failure> {
    match shifted(m, -86400 * days) {
        Some(x) => Ok(x),
        None => Err(beyond_calendar()),
    }
}

/// TRUNC(date, format): truncates to the unit the format names.
pub fn trunc(d: &DateTime, unit: &str) -> (r: Result<DateTime, OraError>)
    ensures
        match r {
            Ok(x) => truncated(d@, unit@) == Ok::<Moment, error::Failure>(x@),
            Err(e) => error::failed(truncated(d@, unit@), e),
        },
{
    let u = unit.to_uppercase();
    let year: i32 = d.year();
    let month: u32 = d.month();
    let start = d.with_time(0, 0, 0);
    if text::same(&u, "DD") || text::same(&u, "DDD") || text::same(&u, "J") {
        Ok(start)
    } else if text::same(&u, "MM") || text::same(&u, "MON") || text::same(&u, "MONTH") || text::same(&u, "RM") {
        Ok(start.with_date(year, month, 1))
    } else if text::same(&u, "YYYY") || text::same(&u, "YYY") || text::same(&u, "YY") || text::same(&u, "Y") || text::same(&u, "YEAR") || text::same(&u, "SYYYY") || text::same(&u, "RRRR") || text::same(&u, "RR") {
        Ok(start.with_date(year, 1, 1))
    } else if text::same(&u, "Q") {
        Ok(start.with_date(year, (month - 1) / 3 * 3 + 1, 1))
    } else if text::same(&u, "HH") || text::same(&u, "HH12") || text::same(&u, "HH24") {
        Ok(d.with_time(d.hour(), 0, 0))
    } else if text::same(&u, "MI") {
        Ok(d.with_time(d.hour(), d.minute(), 0))
    } else if text::same(&u, "D") || text::same(&u, "DY") || text::same(&u, "DAY") {
        let back: i64 = ((d.weekday() + 1) % 7) as i64;
        match start.shift(-86400 * back) {
            Some(x) => Ok(x),
            None => Err(out_of_calendar()),
        }
    } else if text::same(&u, "IW") {
        let back: i64 = d.weekday() as i64;
        match start.shift(-86400 * back) {
            Some(x) => Ok(x),
            None => Err(out_of_calendar()),
        }
    } else {
        Err(OraError::new(1898, "too many precision specifiers"))
    }
}

/// Adding months keeps the time of day, gives a day of the calendar, and takes
/// the last day of a month to the last day of a month.
pub proof fn months_later_is_valid(m: Moment, months: int)
    requires
        valid(m),
        MIN_YEAR <= month_after(m, months).0 <= MAX_YEAR,
    ensures
        ({
            let x = months_later(m, months);
            &&& valid(x)
            &&& x.hour == m.hour && x.minute == m.minute && x.second == m.second && x.nano == m.nano
            &&& m.day == days_in(m.year, m.month) ==> x.day == days_in(x.year, x.month)
        }),
{
}

/// Adding no months changes nothing, and a whole number of years changes the
/// month neither.
pub proof fn months_later_by_years(m: Moment, years: int)
    requires
        valid(m),
    ensures
        months_later(m, 0) == m,
        months_later(m, 12 * years).year == m.year + years,
        months_later(m, 12 * years).month == m.month,
{
}

/// Truncating to a unit of the calendar or the clock twice is the same as once.
pub proof fn truncating_again_changes_nothing(m: Moment, unit: Seq<char>)
    requires
        valid(m),
    ensures
        ({
            let u = text::upper(unit);
            let week = u == "D"@ || u == "DY"@ || u == "DAY"@ || u == "IW"@;
            !week ==> match truncated(m, unit) {
                Ok(x) => truncated(x, unit) == Ok::<Moment, error::Failure>(x),
                Err(_) => true,
            }
        }),
{
}

} // verus!
