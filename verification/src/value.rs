//! SQL values and their types.

use std::cmp::Ordering;
use vstd::prelude::*;
use vstd::string::*;

use crate::datetime;
use crate::datetime::{DateTime, Moment};
use crate::error;
use crate::error::{Failure, OraError};
use crate::number;
use crate::number::{Dec, Number};
use crate::text;

verus! {

/// A SQL value. There is no empty string: Oracle treats `''` as NULL, and
/// [`Value::varchar`] enforces that.
#[derive(Debug, PartialEq, Eq)]
pub enum Value {
    Null,
    Number(Number),
    Varchar2(String),
    Date(DateTime),
    Timestamp(DateTime),
    Boolean(bool),
}

/// What a SQL value is.
pub enum Datum {
    Null,
    Number(Dec),
    Text(Seq<char>),
    Date(Moment),
    Timestamp(Moment),
    Boolean(bool),
}

impl View for Value {
    type V = Datum;

    open spec fn view(&self) -> Datum {
        match self {
            Value::Null => Datum::Null,
            Value::Number(n) => Datum::Number(n@),
            Value::Varchar2(s) => Datum::Text(s@),
            Value::Date(d) => Datum::Date(d@),
            Value::Timestamp(d) => Datum::Timestamp(d@),
            Value::Boolean(b) => Datum::Boolean(*b),
        }
    }
}

impl Clone for Value {
    fn clone(&self) -> (r: Value)
        ensures
            r@ == self@,
    {
        match self {
            Value::Null => Value::Null,
            Value::Number(n) => Value::Number(n.clone()),
            Value::Varchar2(s) => Value::Varchar2(s.clone()),
            Value::Date(d) => Value::Date(*d),
            Value::Timestamp(d) => Value::Timestamp(*d),
            Value::Boolean(b) => Value::Boolean(*b),
        }
    }
}

/// A text as a value: the empty one is NULL.
pub open spec fn varchar(s: Seq<char>) -> Datum {
    if s.len() == 0 {
        Datum::Null
    } else {
        Datum::Text(s)
    }
}

pub open spec fn invalid_number() -> Failure {
    error::failure(1722, "invalid number"@)
}

/// The number that a value converts to; NULL has none.
pub open spec fn as_number(v: Datum) -> Result<Option<Dec>, Failure> {
    match v {
        Datum::Null => Ok(None),
        Datum::Number(n) => Ok(Some(n)),
        Datum::Text(s) => match number::number_of(text::trimmed(s)) {
            Some(n) => Ok(Some(n)),
            None => Err(invalid_number()),
        },
        Datum::Date(_) => Err(error::inconsistent("NUMBER"@, "DATE"@)),
        Datum::Timestamp(_) => Err(error::inconsistent("NUMBER"@, "TIMESTAMP"@)),
        Datum::Boolean(_) => Err(error::inconsistent("NUMBER"@, "BOOLEAN"@)),
    }
}

/// The moment that a value converts to under a format model; NULL has none.
pub open spec fn as_moment(v: Datum, fmt: Seq<char>, this_year: int) -> Result<
    Option<Moment>,
    Failure,
> {
    match v {
        Datum::Null => Ok(None),
        Datum::Date(m) => Ok(Some(m)),
        Datum::Timestamp(m) => Ok(Some(m)),
        Datum::Text(s) => match datetime::read_moment(s, fmt, this_year) {
            Ok(m) => Ok(Some(m)),
            Err(e) => Err(e),
        },
        Datum::Number(_) => Err(error::inconsistent("DATE"@, "NUMBER"@)),
        Datum::Boolean(_) => Err(error::inconsistent("DATE"@, "BOOLEAN"@)),
    }
}

/// The default text of a value; that of NULL is empty.
pub open spec fn default_text(v: Datum) -> Seq<char> {
    match v {
        Datum::Null => Seq::empty(),
        Datum::Number(n) => number::number_text(n),
        Datum::Text(s) => s,
        Datum::Date(m) => datetime::formatted(m, datetime::DEFAULT_DATE_FORMAT@),
        Datum::Timestamp(m) => datetime::formatted(m, datetime::DEFAULT_TIMESTAMP_FORMAT@),
        Datum::Boolean(b) => if b {
            "TRUE"@
        } else {
            "FALSE"@
        },
    }
}

impl Value {
    /// Builds a VARCHAR2 value, turning the empty string into NULL as Oracle does.
    pub fn varchar(s: &str) -> (v: Value)
        ensures
            v@ == varchar(s@),
    {
        if s.is_empty() {
            Value::Null
        } else {
            Value::Varchar2(s.to_owned())
        }
    }

    pub fn number(n: i64) -> (v: Value)
        ensures
            v@ == Datum::Number(number::integer(n as int)),
    {
        Value::Number(Number::from_i64(n))
    }

    /// Parses a decimal literal such as `42`, `-1.5` or `1e3`.
    pub fn parse_number(s: &str) -> (r: Option<Value>)
        ensures
            match r {
                Some(v) => number::number_of(s@) is Some && v@ == Datum::Number(
                    number::number_of(s@)->0,
                ),
                None => number::number_of(s@) is None,
            },
    {
        match Number::parse(s) {
            Some(n) => Some(Value::Number(n)),
            None => None,
        }
    }

    /// Whether two values are the same.
    pub fn same(&self, other: &Value) -> (r: bool)
        ensures
            r == (self@ == other@),
    {
        match (self, other) {
            (Value::Null, Value::Null) => true,
            (Value::Number(a), Value::Number(b)) => a.same(b),
            (Value::Varchar2(a), Value::Varchar2(b)) => text::same(a, b),
            (Value::Date(a), Value::Date(b)) => a.same(b),
            (Value::Timestamp(a), Value::Timestamp(b)) => a.same(b),
            (Value::Boolean(a), Value::Boolean(b)) => *a == *b,
            _ => false,
        }
    }

    pub fn is_null(&self) -> (r: bool)
        ensures
            r == (self@ is Null),
    {
        matches!(self, Value::Null)
    }

    pub fn to_string(&self) -> (s: String)
        ensures
            s@ == default_text(self@),
    {
        match self {
            Value::Null => String::new(),
            Value::Number(n) => number::format_number(n),
            Value::Varchar2(s) => s.clone(),
            Value::Date(d) => datetime::format(d, datetime::DEFAULT_DATE_FORMAT),
            Value::Timestamp(d) => datetime::format(d, datetime::DEFAULT_TIMESTAMP_FORMAT),
            Value::Boolean(b) => if *b {
                "TRUE".to_owned()
            } else {
                "FALSE".to_owned()
            },
        }
    }

    /// Implicit conversion to NUMBER, as Oracle does for arithmetic on strings.
    pub fn to_number(&self) -> (r: Result<Option<Number>, OraError>)
        ensures
            match r {
                Ok(n) => as_number(self@) == Ok::<Option<Dec>, Failure>(opt_dec(n)),
                Err(e) => error::failed(as_number(self@), e),
            },
    {
        match self {
            Value::Null => Ok(None),
            Value::Number(n) => Ok(Some(n.clone())),
            Value::Varchar2(s) => {
                let t = text::string_of(&text::trim(s));
                match Number::parse(&t) {
                    Some(n) => Ok(Some(n)),
                    None => Err(OraError::new(1722, "invalid number")),
                }
            },
            Value::Date(_) => Err(OraError::inconsistent("NUMBER", "DATE")),
            Value::Timestamp(_) => Err(OraError::inconsistent("NUMBER", "TIMESTAMP")),
            Value::Boolean(_) => Err(OraError::inconsistent("NUMBER", "BOOLEAN")),
        }
    }

    /// Implicit conversion to a date, by a format model.
    pub fn to_datetime(&self, fmt: &str, this_year: i32) -> (r: Result<Option<DateTime>, OraError>)
        ensures
            match r {
                Ok(d) => as_moment(self@, fmt@, this_year as int) == Ok::<Option<Moment>, Failure>(
                    opt_moment(d),
                ),
                Err(e) => error::failed(as_moment(self@, fmt@, this_year as int), e),
            },
    {
        match self {
            Value::Null => Ok(None),
            Value::Date(d) => Ok(Some(*d)),
            Value::Timestamp(d) => Ok(Some(*d)),
            Value::Varchar2(s) => match datetime::parse_in(s, fmt, this_year) {
                Ok(d) => Ok(Some(d)),
                Err(e) => Err(e),
            },
            Value::Number(_) => Err(OraError::inconsistent("DATE", "NUMBER")),
            Value::Boolean(_) => Err(OraError::inconsistent("DATE", "BOOLEAN")),
        }
    }
}

pub open spec fn opt_dec(n: Option<Number>) -> Option<Dec> {
    match n {
        Some(n) => Some(n@),
        None => None,
    }
}

pub open spec fn opt_moment(d: Option<DateTime>) -> Option<Moment> {
    match d {
        Some(d) => Some(d@),
        None => None,
    }
}

/// How one value stands to another.
#[derive(Debug, Clone, Copy, PartialEq, Eq, Structural)]
pub enum Relation {
    Less,
    Equal,
    Greater,
}

/// The order of two texts, character by character.
pub open spec fn text_relation(a: Seq<char>, b: Seq<char>) -> Relation
    decreases a.len(),
{
    if a.len() == 0 && b.len() == 0 {
        Relation::Equal
    } else if a.len() == 0 {
        Relation::Less
    } else if b.len() == 0 {
        Relation::Greater
    } else if a[0] < b[0] {
        Relation::Less
    } else if a[0] > b[0] {
        Relation::Greater
    } else {
        text_relation(a.skip(1), b.skip(1))
    }
}

pub open spec fn number_relation(a: Dec, b: Dec) -> Relation {
    if number::less(a, b) {
        Relation::Less
    } else if number::equal(a, b) {
        Relation::Equal
    } else {
        Relation::Greater
    }
}

pub open spec fn int_relation(a: int, b: int) -> Relation {
    if a < b {
        Relation::Less
    } else if a == b {
        Relation::Equal
    } else {
        Relation::Greater
    }
}

/// The order of two moments: that of the first of their parts that differs.
pub open spec fn moment_relation(a: Moment, b: Moment) -> Relation {
    if a.year != b.year {
        int_relation(a.year, b.year)
    } else if a.month != b.month {
        int_relation(a.month, b.month)
    } else if a.day != b.day {
        int_relation(a.day, b.day)
    } else if a.hour != b.hour {
        int_relation(a.hour, b.hour)
    } else if a.minute != b.minute {
        int_relation(a.minute, b.minute)
    } else if a.second != b.second {
        int_relation(a.second, b.second)
    } else {
        int_relation(a.nano, b.nano)
    }
}

pub open spec fn bool_relation(a: bool, b: bool) -> Relation {
    int_relation(
        if a {
            1
        } else {
            0
        },
        if b {
            1
        } else {
            0
        },
    )
}

pub open spec fn is_moment(v: Datum) -> bool {
    v is Date || v is Timestamp
}

/// How one value stands to another; NULL stands to nothing. A date makes the
/// other value a date, and a number makes it a number.
pub open spec fn relation(a: Datum, b: Datum, fmt: Seq<char>, this_year: int) -> Result<
    Option<Relation>,
    Failure,
> {
    if a is Null || b is Null {
        Ok(None)
    } else if let (Datum::Boolean(x), Datum::Boolean(y)) = (a, b) {
        Ok(Some(bool_relation(x, y)))
    } else if is_moment(a) || is_moment(b) {
        match as_moment(a, fmt, this_year) {
            Err(e) => Err(e),
            Ok(x) => match as_moment(b, fmt, this_year) {
                Err(e) => Err(e),
                Ok(y) => Ok(Some(moment_relation(x->0, y->0))),
            },
        }
    } else if let (Datum::Text(x), Datum::Text(y)) = (a, b) {
        Ok(Some(text_relation(x, y)))
    } else {
        match as_number(a) {
            Err(e) => Err(e),
            Ok(x) => match as_number(b) {
                Err(e) => Err(e),
                Ok(y) => Ok(Some(number_relation(x->0, y->0))),
            },
        }
    }
}

fn relate_texts(a: &str, b: &str) -> (r: Relation)
    ensures
        r == text_relation(a@, b@),
{
    let x = text::chars_of(a);
    let y = text::chars_of(b);
    let mut i: usize = 0;
    assert(x@.skip(0) =~= x@);
    assert(y@.skip(0) =~= y@);
    while i < x.len() && i < y.len()
        invariant
            i <= x@.len(),
            i <= y@.len(),
            x@ == a@,
            y@ == b@,
            text_relation(x@, y@) == text_relation(x@.skip(i as int), y@.skip(i as int)),
        decreases x@.len() - i,
    {
        let (c, d) = (x[i], y[i]);
        if c < d {
            return Relation::Less;
        }
        if c > d {
            return Relation::Greater;
        }
        assert(x@.skip(i as int).skip(1) =~= x@.skip(i + 1));
        assert(y@.skip(i as int).skip(1) =~= y@.skip(i + 1));
        i = i + 1;
    }
    if i < x.len() {
        Relation::Greater
    } else if i < y.len() {
        Relation::Less
    } else {
        Relation::Equal
    }
}

fn relate_ints(a: i64, b: i64) -> (r: Relation)
    ensures
        r == int_relation(a as int, b as int),
{
    if a < b {
        Relation::Less
    } else if a == b {
        Relation::Equal
    } else {
        Relation::Greater
    }
}

fn relate_moments(a: &DateTime, b: &DateTime) -> (r: Relation)
    ensures
        r == moment_relation(a@, b@),
{
    if a.year() != b.year() {
        relate_ints(a.year() as i64, b.year() as i64)
    } else if a.month() != b.month() {
        relate_ints(a.month() as i64, b.month() as i64)
    } else if a.day() != b.day() {
        relate_ints(a.day() as i64, b.day() as i64)
    } else if a.hour() != b.hour() {
        relate_ints(a.hour() as i64, b.hour() as i64)
    } else if a.minute() != b.minute() {
        relate_ints(a.minute() as i64, b.minute() as i64)
    } else if a.second() != b.second() {
        relate_ints(a.second() as i64, b.second() as i64)
    } else {
        relate_ints(a.nanosecond() as i64, b.nanosecond() as i64)
    }
}

fn relate_numbers(a: &Number, b: &Number) -> (r: Relation)
    ensures
        r == number_relation(a@, b@),
{
    match a.order(b) {
        Ordering::Less => Relation::Less,
        Ordering::Equal => Relation::Equal,
        Ordering::Greater => Relation::Greater,
    }
}

/// How one value stands to another.
pub fn compare(a: &Value, b: &Value, fmt: &str, this_year: i32) -> (r: Result<
    Option<Relation>,
    OraError,
>)
    ensures
        match r {
            Ok(x) => relation(a@, b@, fmt@, this_year as int) == Ok::<Option<Relation>, Failure>(x),
            Err(e) => error::failed(relation(a@, b@, fmt@, this_year as int), e),
        },
{
    if a.is_null() || b.is_null() {
        return Ok(None);
    }
    if let (Value::Boolean(x), Value::Boolean(y)) = (a, b) {
        let m: i64 = if *x {
            1
        } else {
            0
        };
        let n: i64 = if *y {
            1
        } else {
            0
        };
        return Ok(Some(relate_ints(m, n)));
    }
    if matches!(a, Value::Date(_) | Value::Timestamp(_)) || matches!(
        b,
        Value::Date(_) | Value::Timestamp(_)
    ) {
        let x = match a.to_datetime(fmt, this_year) {
            Ok(x) => x,
            Err(e) => {
                return Err(e);
            },
        };
        let y = match b.to_datetime(fmt, this_year) {
            Ok(y) => y,
            Err(e) => {
                return Err(e);
            },
        };
        return match (x, y) {
            (Some(x), Some(y)) => Ok(Some(relate_moments(&x, &y))),
            _ => Ok(None),
        };
    }
    if let (Value::Varchar2(x), Value::Varchar2(y)) = (a, b) {
        return Ok(Some(relate_texts(x, y)));
    }
    let x = match a.to_number() {
        Ok(x) => x,
        Err(e) => {
            return Err(e);
        },
    };
    let y = match b.to_number() {
        Ok(y) => y,
        Err(e) => {
            return Err(e);
        },
    };
    match (x, y) {
        (Some(x), Some(y)) => Ok(Some(relate_numbers(&x, &y))),
        _ => Ok(None),
    }
}

/// The SQL type of a column or a variable.
#[derive(Debug, Clone, Copy, PartialEq, Eq, Structural)]
pub enum SqlType {
    /// NUMBER with its precision and scale. A precision of 0 sets no limit.
    Number { precision: u8, scale: i8 },
    /// VARCHAR2 with its maximum length in bytes. Length 0 means the column is
    /// always NULL (for example `SELECT NULL FROM DUAL`).
    Varchar2(u32),
    /// CHAR with its length in bytes, to which values are filled with spaces.
    Char(u32),
    Date,
    /// TIMESTAMP with its number of fractional digits.
    Timestamp(u8),
}

/// A text is never an empty value: it is NULL, and it has no number and no
/// moment then.
pub proof fn the_empty_text_is_null(fmt: Seq<char>, this_year: int)
    ensures
        varchar(Seq::empty()) == Datum::Null,
        as_number(varchar(Seq::empty())) == Ok::<Option<Dec>, Failure>(None),
        as_moment(varchar(Seq::empty()), fmt, this_year) == Ok::<Option<Moment>, Failure>(None),
        default_text(Datum::Null) == Seq::<char>::empty(),
{
}

/// Nothing stands in a relation to NULL.
pub proof fn null_relates_to_nothing(v: Datum, fmt: Seq<char>, this_year: int)
    ensures
        relation(Datum::Null, v, fmt, this_year) == Ok::<Option<Relation>, Failure>(None),
        relation(v, Datum::Null, fmt, this_year) == Ok::<Option<Relation>, Failure>(None),
{
}

} // verus!
