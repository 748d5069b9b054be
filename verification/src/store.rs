//! Converting values for storage in a column.

use vstd::prelude::*;
use vstd::string::*;
use vstd::utf8::*;

use crate::datetime;
use crate::datetime::{DateTime, Moment};
use crate::env::{Env, Setting};
use crate::error;
use crate::error::{Failure, OraError};
use crate::functions;
use crate::functions::Due;
use crate::number;
use crate::number::{Dec, Number, Rounding};
use crate::text;
use crate::value;
use crate::value::{Datum, SqlType, Value};

verus! {

/// The type name Oracle uses in messages.
pub open spec fn type_text(t: SqlType) -> Seq<char> {
    match t {
        SqlType::Number { .. } => "NUMBER"@,
        SqlType::Varchar2(_) => "VARCHAR2"@,
        SqlType::Char(_) => "CHAR"@,
        SqlType::Date => "DATE"@,
        SqlType::Timestamp(_) => "TIMESTAMP"@,
    }
}

pub fn name_of_type(t: SqlType) -> (s: String)
    ensures
        s@ == type_text(t),
{
    match t {
        SqlType::Number { .. } => "NUMBER".to_owned(),
        SqlType::Varchar2(_) => "VARCHAR2".to_owned(),
        SqlType::Char(_) => "CHAR".to_owned(),
        SqlType::Date => "DATE".to_owned(),
        SqlType::Timestamp(_) => "TIMESTAMP".to_owned(),
    }
}

/// Which column a value is for.
pub struct Place {
    pub user: Seq<char>,
    pub table: Seq<char>,
    pub column: Seq<char>,
}

pub open spec fn too_large(p: Place, actual: int, max: int) -> Failure {
    error::failure(
        12899,
        "value too large for column \""@ + p.user + "\".\""@ + p.table + "\".\""@ + p.column
            + "\" (actual: "@ + text::decimal(actual as nat) + ", maximum: "@ + text::decimal(
            max as nat,
        ) + ")"@,
    )
}

fn too_large_error(user: &str, table: &str, column: &str, actual: usize, max: u32) -> (e: OraError)
    ensures
        e@ == too_large(
            Place { user: user@, table: table@, column: column@ },
            actual as int,
            max as int,
        ),
{
    let mut m = "value too large for column \"".to_owned();
    m.append(user);
    m.append("\".\"");
    m.append(table);
    m.append("\".\"");
    m.append(column);
    m.append("\" (actual: ");
    m.append(&text::decimal_text(actual as u64));
    m.append(", maximum: ");
    m.append(&text::decimal_text(max as u64));
    m.append(")");
    OraError { code: 12899, message: m }
}

/// How many digits a number has in front of its decimal point.
pub open spec fn int_digits(d: Dec) -> Result<int, Failure> {
    match functions::in_range(number::rounded(number::magnitude(d), 0, Rounding::Down)) {
        Err(e) => Err(e),
        Ok(w) => Ok(
            if w.int_val == 0 {
                0
            } else {
                number::plain(number::at_scale(w, 0), 0).len() as int
            },
        ),
    }
}

fn count_int_digits(n: &Number) -> (r: Result<usize, OraError>)
    ensures
        match r {
            Ok(k) => int_digits(n@) == Ok::<int, Failure>(k as int),
            Err(e) => error::failed(int_digits(n@), e),
        },
{
    let a = n.abs();
    let w = match a.round(0, Rounding::Down) {
        Some(w) => w,
        None => {
            return Err(functions::numeric_overflow());
        },
    };
    if w.sign() == 0 {
        return Ok(0);
    }
    proof {
        number::rounded_scale(a@, 0, Rounding::Down);
    }
    let s = text::chars_of(&w.plain(0));
    Ok(s.len())
}

/// A number for a column with a precision: rounded to its scale, and no longer in front of
/// the decimal point than the precision leaves room for.
pub open spec fn fitted_number(n: Dec, precision: int, scale: int) -> Due {
    if precision == 0 {
        Ok(Datum::Number(n))
    } else {
        match functions::in_range(number::rounded(n, scale, Rounding::HalfUp)) {
            Err(e) => Err(e),
            Ok(n) => match int_digits(n) {
                Err(e) => Err(e),
                Ok(k) => if k > precision - scale {
                    Err(
                        error::failure(
                            1438,
                            "value larger than specified precision allowed for this column"@,
                        ),
                    )
                } else {
                    Ok(Datum::Number(n))
                },
            },
        }
    }
}

fn fit_number(n: Number, precision: u8, scale: i8) -> (r: Result<Value, OraError>)
    ensures
        functions::gives(fitted_number(n@, precision as int, scale as int), r),
{
    if precision == 0 {
        return Ok(Value::Number(n));
    }
    let n = match n.round(scale as i64, Rounding::HalfUp) {
        Some(n) => n,
        None => {
            return Err(functions::numeric_overflow());
        },
    };
    let k = count_int_digits(&n)?;
    let room: i32 = precision as i32 - scale as i32;
    if room < 0 || k > room as usize {
        return Err(
            OraError::new(1438, "value larger than specified precision allowed for this column"),
        );
    }
    Ok(Value::Number(n))
}

/// A text filled with spaces to a number of bytes.
pub open spec fn filled(s: Seq<char>, n: int) -> Seq<char> {
    let have = encode_utf8(s).len();
    if have < n {
        s + Seq::new((n - have) as nat, |i: int| ' ')
    } else {
        s
    }
}

fn fill(s: &str, n: usize) -> (r: String)
    ensures
        r@ == filled(s@, n as int),
{
    let have: usize = s.as_bytes().len();
    let mut r = s.to_owned();
    let mut k: usize = have;
    while k < n
        invariant
            have == encode_utf8(s@).len(),
            have <= n ==> have <= k <= n,
            have > n ==> k == have,
            r@ == s@ + Seq::new((k - have) as nat, |i: int| ' '),
        decreases n - k,
    {
        r.push(' ');
        assert(r@ =~= s@ + Seq::new((k + 1 - have) as nat, |i: int| ' '));
        k = k + 1;
    }
    assert(r@ =~= filled(s@, n as int));
    r
}

/// A text for a column of characters.
pub open spec fn fitted_text(p: Place, s: Seq<char>, max: int, fixed: bool) -> Due {
    let s = if fixed {
        filled(s, max)
    } else {
        s
    };
    if encode_utf8(s).len() > max {
        Err(too_large(p, encode_utf8(s).len() as int, max))
    } else {
        Ok(value::varchar(s))
    }
}

/// A power of ten.
pub open spec fn fraction_unit(precision: int) -> int {
    if precision >= 9 {
        1
    } else if precision == 8 {
        10
    } else if precision == 7 {
        100
    } else if precision == 6 {
        1_000
    } else if precision == 5 {
        10_000
    } else if precision == 4 {
        100_000
    } else if precision == 3 {
        1_000_000
    } else if precision == 2 {
        10_000_000
    } else if precision == 1 {
        100_000_000
    } else {
        1_000_000_000
    }
}

/// A moment whose fraction of a second has at most `precision` digits.
pub open spec fn rounded_fraction(m: Moment, precision: int) -> Result<Moment, Failure> {
    let unit = fraction_unit(precision);
    let nanos = (m.nano + unit / 2) / unit * unit;
    if nanos >= 1_000_000_000 {
        match datetime::shifted(datetime::whole_seconds(m), 1) {
            Some(m) => Ok(m),
            None => Err(datetime::beyond_calendar()),
        }
    } else {
        Ok(Moment { nano: nanos, ..m })
    }
}

fn unit_of(precision: u8) -> (r: u32)
    ensures
        r == fraction_unit(precision as int),
        1 <= r <= 1_000_000_000,
{
    if precision >= 9 {
        1
    } else if precision == 8 {
        10
    } else if precision == 7 {
        100
    } else if precision == 6 {
        1_000
    } else if precision == 5 {
        10_000
    } else if precision == 4 {
        100_000
    } else if precision == 3 {
        1_000_000
    } else if precision == 2 {
        10_000_000
    } else if precision == 1 {
        100_000_000
    } else {
        1_000_000_000
    }
}

fn round_fraction(d: &DateTime, precision: u8) -> (r: Result<DateTime, OraError>)
    ensures
        functions::gives_date(rounded_fraction(d@, precision as int), r),
{
    let unit: u64 = unit_of(precision) as u64;
    let nanos: u64 = d.nanosecond() as u64;
    let sum: u64 = nanos + unit / 2;
    assert(sum / unit * unit <= sum) by (nonlinear_arith)
        requires
            unit >= 1,
    ;
    let rounded: u64 = sum / unit * unit;
    if rounded >= 1_000_000_000 {
        match d.with_nanosecond(0).shift(1) {
            Some(x) => Ok(x),
            None => Err(datetime::out_of_calendar()),
        }
    } else {
        Ok(d.with_nanosecond(rounded as u32))
    }
}

pub open spec fn timestamp_due(m: Result<Option<Moment>, Failure>, precision: int) -> Due {
    match m {
        Err(e) => Err(e),
        Ok(None) => Ok(Datum::Null),
        Ok(Some(m)) => match rounded_fraction(m, precision) {
            Ok(m) => Ok(Datum::Timestamp(m)),
            Err(e) => Err(e),
        },
    }
}

/// A value as a column stores it, within the column's type, length and precision.
#[verifier::opaque]
pub open spec fn stored_value(env: Setting, p: Place, t: SqlType, v: Datum) -> Due {
    match v {
        Datum::Null => Ok(Datum::Null),
        Datum::Boolean(_) => Err(error::inconsistent(type_text(t), "BOOLEAN"@)),
        _ => match t {
            SqlType::Number { precision, scale } => if value::is_moment(v) {
                Err(error::inconsistent("NUMBER"@, "DATE"@))
            } else {
                match value::as_number(v) {
                    Err(e) => Err(e),
                    Ok(None) => Ok(Datum::Null),
                    Ok(Some(n)) => fitted_number(n, precision as int, scale as int),
                }
            },
            SqlType::Varchar2(max) => fitted_text(p, env.text_of(v)->0, max as int, false),
            SqlType::Char(max) => fitted_text(p, env.text_of(v)->0, max as int, true),
            SqlType::Date => if v is Number {
                Err(error::inconsistent("DATE"@, "NUMBER"@))
            } else {
                match value::as_moment(v, env.date_format, env.year()) {
                    Err(e) => Err(e),
                    Ok(None) => Ok(Datum::Null),
                    Ok(Some(m)) => Ok(Datum::Date(datetime::whole_seconds(m))),
                }
            },
            SqlType::Timestamp(precision) => if v is Number {
                Err(error::inconsistent("TIMESTAMP"@, "NUMBER"@))
            } else {
                timestamp_due(
                    value::as_moment(v, env.timestamp_format, env.year()),
                    precision as int,
                )
            },
        },
    }
}

/// Converts a value for storage in a column, enforcing the column's type, length and precision.
pub fn store_value(
    env: &Env,
    user: &str,
    table: &str,
    column: &str,
    sql_type: SqlType,
    v: Value,
) -> (r: Result<Value, OraError>)
    ensures
        functions::gives(
            stored_value(
                env@,
                Place { user: user@, table: table@, column: column@ },
                sql_type,
                v@,
            ),
            r,
        ),
{
    proof {
        reveal(stored_value);
    }
    if v.is_null() {
        return Ok(Value::Null);
    }
    if let Value::Boolean(_) = v {
        return Err(OraError::inconsistent(&name_of_type(sql_type), "BOOLEAN"));
    }
    match sql_type {
        SqlType::Number { precision, scale } => {
            match v {
                Value::Date(_) | Value::Timestamp(_) => {
                    return Err(OraError::inconsistent("NUMBER", "DATE"));
                },
                _ => {},
            }
            match v.to_number()? {
                Some(n) => fit_number(n, precision, scale),
                None => Ok(Value::Null),
            }
        },
        SqlType::Varchar2(max) => match env.to_text(&v) {
            Some(s) => {
                let have: usize = s.as_str().as_bytes().len();
                if have > max as usize {
                    return Err(too_large_error(user, table, column, have, max));
                }
                Ok(Value::varchar(&s))
            },
            None => Ok(Value::Null),
        },
        SqlType::Char(max) => match env.to_text(&v) {
            Some(t) => {
                let s = fill(&t, max as usize);
                let have: usize = s.as_str().as_bytes().len();
                if have > max as usize {
                    return Err(too_large_error(user, table, column, have, max));
                }
                Ok(Value::varchar(&s))
            },
            None => Ok(Value::Null),
        },
        SqlType::Date => {
            if let Value::Number(_) = v {
                return Err(OraError::inconsistent("DATE", "NUMBER"));
            }
            match v.to_datetime(&env.nls_date_format, env.year())? {
                Some(d) => Ok(Value::Date(d.with_nanosecond(0))),
                None => Ok(Value::Null),
            }
        },
        SqlType::Timestamp(precision) => {
            if let Value::Number(_) = v {
                return Err(OraError::inconsistent("TIMESTAMP", "NUMBER"));
            }
            match v.to_datetime(&env.nls_timestamp_format, env.year())? {
                Some(d) => match round_fraction(&d, precision) {
                    Ok(d) => Ok(Value::Timestamp(d)),
                    Err(e) => Err(e),
                },
                None => Ok(Value::Null),
            }
        },
    }
}

} // verus!
