//! Built-in scalar SQL functions.

use bigdecimal::{BigDecimal, ToPrimitive};
use std::str::FromStr;
use vstd::prelude::*;
use vstd::string::*;
use vstd::utf8::*;

use crate::datetime;
use crate::datetime::{DateTime, Moment};
use crate::env::{Env, Setting};
use crate::error;
use crate::error::{Failure, OraError};
use crate::number;
use crate::number::{Dec, Number, Rounding};
use crate::numfmt;
use crate::strings;
use crate::text;
use crate::value;
use crate::value::{Datum, Relation, Value};

verus! {

/// What a function is due to give.
pub type Due = Result<Datum, Failure>;

/// Whether a function gave what was due.
pub open spec fn gives(due: Due, r: Result<Value, OraError>) -> bool {
    match r {
        Ok(v) => due == Ok::<Datum, Failure>(v@),
        Err(e) => due == Err::<Datum, Failure>(e@),
    }
}

/// What some values are.
pub open spec fn views(a: Seq<Value>) -> Seq<Datum> {
    Seq::new(a.len(), |i: int| a[i]@)
}

pub open spec fn bad_arity() -> Failure {
    error::failure(909, "invalid number of arguments"@)
}

fn arg_count() -> (e: OraError)
    ensures
        e@ == bad_arity(),
{
    OraError::new(909, "invalid number of arguments")
}

fn check_args(args: &[Value], min: usize, max: usize) -> (r: Result<(), OraError>)
    ensures
        match r {
            Ok(_) => min <= args@.len() <= max,
            Err(e) => !(min <= args@.len() <= max) && e@ == bad_arity(),
        },
{
    if args.len() < min || args.len() > max {
        Err(arg_count())
    } else {
        Ok(())
    }
}

/// A result that is due when the number of arguments is right.
pub open spec fn with_args(a: Seq<Datum>, min: int, max: int, due: Due) -> Due {
    if a.len() < min || a.len() > max {
        Err(bad_arity())
    } else {
        due
    }
}

/// The integer part of a number, as far as 64 bits hold it; the greatest such
/// integer when they do not.
pub open spec fn int_of(n: Dec) -> int {
    let i = number::whole(n);
    if i64::MIN <= i <= i64::MAX {
        i
    } else {
        i64::MAX as int
    }
}

/// The integer that a value converts to; NULL has none.
pub open spec fn as_int(v: Datum) -> Result<Option<int>, Failure> {
    match value::as_number(v) {
        Err(e) => Err(e),
        Ok(None) => Ok(None),
        Ok(Some(n)) => Ok(Some(int_of(n))),
    }
}

pub open spec fn opt_int(n: Option<i64>) -> Option<int> {
    match n {
        Some(n) => Some(n as int),
        None => None,
    }
}

fn to_int(v: &Value) -> (r: Result<Option<i64>, OraError>)
    ensures
        match r {
            Ok(n) => as_int(v@) == Ok::<Option<int>, Failure>(opt_int(n)),
            Err(e) => error::failed(as_int(v@), e),
        },
{
    match v.to_number() {
        Ok(Some(n)) => match n.to_i64() {
            Some(i) => Ok(Some(i)),
            None => Ok(Some(i64::MAX)),
        },
        Ok(None) => Ok(None),
        Err(e) => Err(e),
    }
}

pub open spec fn overflow() -> Failure {
    error::failure(1426, "numeric overflow"@)
}

pub fn numeric_overflow() -> (e: OraError)
    ensures
        e@ == overflow(),
{
    OraError::new(1426, "numeric overflow")
}

/// A number as the result of a function, if it is in range.
pub open spec fn in_range(d: Dec) -> Result<Dec, Failure> {
    if number::in_range(d) {
        Ok(d)
    } else {
        Err(overflow())
    }
}

pub open spec fn numeric(r: Result<Dec, Failure>) -> Due {
    match r {
        Ok(d) => Ok(Datum::Number(d)),
        Err(e) => Err(e),
    }
}

/// Whether an operation on numbers gave what was due.
pub open spec fn gives_number(due: Result<Dec, Failure>, r: Result<Number, OraError>) -> bool {
    match r {
        Ok(n) => due == Ok::<Dec, Failure>(n@),
        Err(e) => due == Err::<Dec, Failure>(e@),
    }
}

/// A settled number, or the error when there is none.
pub fn settled(n: Option<Number>) -> (r: Result<Number, OraError>)
    ensures
        match n {
            Some(x) => r is Ok && r->Ok_0@ == x@,
            None => r is Err && r->Err_0@ == overflow(),
        },
{
    match n {
        Some(x) => Ok(x),
        None => Err(numeric_overflow()),
    }
}

pub open spec fn zero_divisor() -> Failure {
    error::failure(1476, "divisor is equal to zero"@)
}

pub open spec fn out_of_range(arg: Seq<char>) -> Failure {
    error::failure(1428, "argument '"@ + arg + "' is out of range"@)
}

fn range_error(arg: &str) -> (e: OraError)
    ensures
        e@ == out_of_range(arg@),
{
    let mut m = "argument '".to_owned();
    m.append(arg);
    m.append("' is out of range");
    OraError { code: 1428, message: m }
}

// ---- NULL handling ----

pub open spec fn nvl(a: Seq<Datum>) -> Due {
    with_args(
        a,
        2,
        2,
        Ok(
            if a[0] is Null {
                a[1]
            } else {
                a[0]
            },
        ),
    )
}

fn call_nvl(a: &[Value]) -> (r: Result<Value, OraError>)
    ensures
        gives(nvl(views(a@)), r),
{
    check_args(a, 2, 2)?;
    Ok(
        if a[0].is_null() {
            a[1].clone()
        } else {
            a[0].clone()
        },
    )
}

pub open spec fn nvl2(a: Seq<Datum>) -> Due {
    with_args(
        a,
        3,
        3,
        Ok(
            if a[0] is Null {
                a[2]
            } else {
                a[1]
            },
        ),
    )
}

fn call_nvl2(a: &[Value]) -> (r: Result<Value, OraError>)
    ensures
        gives(nvl2(views(a@)), r),
{
    check_args(a, 3, 3)?;
    Ok(
        if a[0].is_null() {
            a[2].clone()
        } else {
            a[1].clone()
        },
    )
}

/// The first value from `i` on that is not NULL; NULL when there is none.
pub open spec fn first_some(a: Seq<Datum>, i: int) -> Datum
    decreases a.len() - i,
{
    if i < 0 || i >= a.len() {
        Datum::Null
    } else if !(a[i] is Null) {
        a[i]
    } else {
        first_some(a, i + 1)
    }
}

pub open spec fn coalesce(a: Seq<Datum>) -> Due {
    if a.len() < 2 {
        Err(bad_arity())
    } else {
        Ok(first_some(a, 0))
    }
}

fn call_coalesce(a: &[Value]) -> (r: Result<Value, OraError>)
    ensures
        gives(coalesce(views(a@)), r),
{
    if a.len() < 2 {
        return Err(arg_count());
    }
    let n: usize = a.len();
    let mut i: usize = 0;
    while i < n
        invariant
            i <= n == a@.len(),
            n >= 2,
            first_some(views(a@), 0) == first_some(views(a@), i as int),
        decreases n - i,
    {
        if !a[i].is_null() {
            return Ok(a[i].clone());
        }
        i = i + 1;
    }
    Ok(Value::Null)
}

pub open spec fn nullif(env: Setting, a: Seq<Datum>) -> Due {
    with_args(
        a,
        2,
        2,
        match value::relation(a[0], a[1], env.date_format, env.year()) {
            Err(e) => Err(e),
            Ok(Some(Relation::Equal)) => Ok(Datum::Null),
            Ok(_) => Ok(a[0]),
        },
    )
}

fn call_nullif(env: &Env, a: &[Value]) -> (r: Result<Value, OraError>)
    ensures
        gives(nullif(env@, views(a@)), r),
{
    check_args(a, 2, 2)?;
    match value::compare(&a[0], &a[1], &env.nls_date_format, env.year()) {
        Err(e) => Err(e),
        Ok(Some(Relation::Equal)) => Ok(Value::Null),
        Ok(_) => Ok(a[0].clone()),
    }
}

/// DECODE from the `i`-th argument on: pairs of a value to look for and a
/// result, and a last result for when none was found. NULL is found by NULL.
pub open spec fn decoded(env: Setting, a: Seq<Datum>, i: int) -> Due
    decreases a.len() - i,
{
    if i < 0 || i >= a.len() {
        Ok(Datum::Null)
    } else if i + 1 >= a.len() {
        Ok(a[i])
    } else if a[0] is Null && a[i] is Null {
        Ok(a[i + 1])
    } else {
        match value::relation(a[0], a[i], env.date_format, env.year()) {
            Err(e) => Err(e),
            Ok(Some(Relation::Equal)) => Ok(a[i + 1]),
            Ok(_) => decoded(env, a, i + 2),
        }
    }
}

pub open spec fn decode(env: Setting, a: Seq<Datum>) -> Due {
    with_args(a, 3, 255, decoded(env, a, 1))
}

fn call_decode(env: &Env, a: &[Value]) -> (r: Result<Value, OraError>)
    ensures
        gives(decode(env@, views(a@)), r),
{
    check_args(a, 3, 255)?;
    let n: usize = a.len();
    let mut i: usize = 1;
    while i + 1 < n
        invariant
            1 <= i <= n + 1,
            n == a@.len(),
            3 <= n <= 255,
            decoded(env@, views(a@), 1) == decoded(env@, views(a@), i as int),
        decreases n + 2 - i,
    {
        if a[0].is_null() && a[i].is_null() {
            return Ok(a[i + 1].clone());
        }
        match value::compare(&a[0], &a[i], &env.nls_date_format, env.year()) {
            Err(e) => {
                return Err(e);
            },
            Ok(Some(Relation::Equal)) => {
                return Ok(a[i + 1].clone());
            },
            Ok(_) => {},
        }
        i = i + 2;
    }
    Ok(
        if i < n {
            a[i].clone()
        } else {
            Value::Null
        },
    )
}

// ---- strings ----

/// A function of the text of its one argument.
pub open spec fn on_text(env: Setting, a: Seq<Datum>, f: spec_fn(Seq<char>) -> Seq<char>) -> Due {
    with_args(
        a,
        1,
        1,
        Ok(
            match env.text_of(a[0]) {
                None => Datum::Null,
                Some(s) => value::varchar(f(s)),
            },
        ),
    )
}

/// The text of the one argument of a function; `None` for NULL.
fn one_text(env: &Env, a: &[Value]) -> (r: Result<Option<String>, OraError>)
    ensures
        match r {
            Ok(Some(s)) => a@.len() == 1 && env@.text_of(a@[0]@) == Some(s@),
            Ok(None) => a@.len() == 1 && env@.text_of(a@[0]@) is None,
            Err(e) => a@.len() != 1 && e@ == bad_arity(),
        },
{
    check_args(a, 1, 1)?;
    Ok(env.to_text(&a[0]))
}

fn call_upper(env: &Env, a: &[Value]) -> (r: Result<Value, OraError>)
    ensures
        gives(on_text(env@, views(a@), |s: Seq<char>| text::upper(s)), r),
{
    Ok(
        match one_text(env, a)? {
            None => Value::Null,
            Some(s) => Value::varchar(&s.to_uppercase()),
        },
    )
}

fn call_lower(env: &Env, a: &[Value]) -> (r: Result<Value, OraError>)
    ensures
        gives(on_text(env@, views(a@), |s: Seq<char>| text::lower(s)), r),
{
    Ok(
        match one_text(env, a)? {
            None => Value::Null,
            Some(s) => Value::varchar(&s.to_lowercase()),
        },
    )
}

fn call_initcap(env: &Env, a: &[Value]) -> (r: Result<Value, OraError>)
    ensures
        gives(on_text(env@, views(a@), |s: Seq<char>| strings::capitalized(s, true)), r),
{
    Ok(
        match one_text(env, a)? {
            None => Value::Null,
            Some(s) => Value::varchar(&strings::initcap(&text::chars_of(&s))),
        },
    )
}

fn call_reverse(env: &Env, a: &[Value]) -> (r: Result<Value, OraError>)
    ensures
        gives(on_text(env@, views(a@), |s: Seq<char>| s.reverse()), r),
{
    Ok(
        match one_text(env, a)? {
            None => Value::Null,
            Some(s) => Value::varchar(&strings::reverse(&text::chars_of(&s))),
        },
    )
}

/// LENGTH in characters, LENGTHB in bytes.
pub open spec fn length(env: Setting, a: Seq<Datum>, bytes: bool) -> Due {
    with_args(
        a,
        1,
        1,
        Ok(
            match env.text_of(a[0]) {
                None => Datum::Null,
                Some(s) => Datum::Number(
                    number::integer(
                        (if bytes {
                            encode_utf8(s).len()
                        } else {
                            s.len()
                        }) as i64 as int,
                    ),
                ),
            },
        ),
    )
}

fn call_length(env: &Env, a: &[Value], bytes: bool) -> (r: Result<Value, OraError>)
    ensures
        gives(length(env@, views(a@), bytes), r),
{
    Ok(
        match one_text(env, a)? {
            None => Value::Null,
            Some(s) => if bytes {
                Value::number(s.as_str().as_bytes().len() as i64)
            } else {
                Value::number(text::chars_of(&s).len() as i64)
            },
        },
    )
}

pub open spec fn substr(env: Setting, a: Seq<Datum>) -> Due {
    with_args(
        a,
        2,
        3,
        match as_int(a[1]) {
            Err(e) => Err(e),
            Ok(pos) => match (env.text_of(a[0]), pos) {
                (Some(s), Some(pos)) => {
                    let start = strings::start_of(pos, s.len() as int);
                    if start < 0 || start >= s.len() {
                        Ok(Datum::Null)
                    } else if a.len() < 3 {
                        Ok(value::varchar(s.skip(start)))
                    } else {
                        match as_int(a[2]) {
                            Err(e) => Err(e),
                            Ok(Some(n)) => if n >= 1 {
                                Ok(value::varchar(strings::part(s, start, n)))
                            } else {
                                Ok(Datum::Null)
                            },
                            Ok(None) => Ok(Datum::Null),
                        }
                    }
                },
                _ => Ok(Datum::Null),
            },
        },
    )
}

fn call_substr(env: &Env, a: &[Value]) -> (r: Result<Value, OraError>)
    ensures
        gives(substr(env@, views(a@)), r),
{
    check_args(a, 2, 3)?;
    let pos: Option<i64> = to_int(&a[1])?;
    let (s, pos): (String, i64) = match (env.to_text(&a[0]), pos) {
        (Some(s), Some(pos)) => (s, pos),
        _ => {
            return Ok(Value::Null);
        },
    };
    let chars = text::chars_of(&s);
    let len: i128 = chars.len() as i128;
    let start: i128 = if pos > 0 {
        pos as i128 - 1
    } else if pos == 0 {
        0
    } else {
        len + pos as i128
    };
    if start < 0 || start >= len {
        return Ok(Value::Null);
    }
    let from: usize = start as usize;
    if a.len() < 3 {
        let rest = text::slice(&chars, from, chars.len());
        assert(rest@ =~= s@.skip(from as int));
        return Ok(Value::varchar(&text::string_of(&rest)));
    }
    match to_int(&a[2])? {
        Some(n) => if n >= 1 {
            Ok(Value::varchar(&strings::substr(&chars, from, n)))
        } else {
            Ok(Value::Null)
        },
        None => Ok(Value::Null),
    }
}

/// An optional argument as an integer; 1 when it is not there.
pub open spec fn int_or_one(a: Seq<Datum>, i: int) -> Result<Option<int>, Failure> {
    if i < a.len() {
        as_int(a[i])
    } else {
        Ok(Some(1))
    }
}

fn get_int_or_one(a: &[Value], i: usize) -> (r: Result<Option<i64>, OraError>)
    ensures
        match r {
            Ok(n) => int_or_one(views(a@), i as int) == Ok::<Option<int>, Failure>(opt_int(n)),
            Err(e) => error::failed(int_or_one(views(a@), i as int), e),
        },
{
    if i < a.len() {
        to_int(&a[i])
    } else {
        Ok(Some(1))
    }
}

pub open spec fn instr(env: Setting, a: Seq<Datum>) -> Due {
    with_args(
        a,
        2,
        4,
        match (env.text_of(a[0]), env.text_of(a[1])) {
            (Some(s), Some(sub)) => match int_or_one(a, 2) {
                Err(e) => Err(e),
                Ok(pos) => match int_or_one(a, 3) {
                    Err(e) => Err(e),
                    Ok(occ) => match (pos, occ) {
                        (Some(pos), Some(occ)) => if pos == 0 {
                            Ok(Datum::Number(number::integer(0)))
                        } else if occ < 1 {
                            Err(out_of_range(text::decimal_int(occ)))
                        } else {
                            Ok(
                                Datum::Number(
                                    number::integer(
                                        strings::position(s, sub, pos, occ) as i64 as int,
                                    ),
                                ),
                            )
                        },
                        _ => Ok(Datum::Null),
                    },
                },
            },
            _ => Ok(Datum::Null),
        },
    )
}

fn call_instr(env: &Env, a: &[Value]) -> (r: Result<Value, OraError>)
    ensures
        gives(instr(env@, views(a@)), r),
{
    check_args(a, 2, 4)?;
    let (s, sub): (String, String) = match (env.to_text(&a[0]), env.to_text(&a[1])) {
        (Some(s), Some(sub)) => (s, sub),
        _ => {
            return Ok(Value::Null);
        },
    };
    let pos: Option<i64> = get_int_or_one(a, 2)?;
    let occ: Option<i64> = get_int_or_one(a, 3)?;
    let (pos, occ): (i64, i64) = match (pos, occ) {
        (Some(pos), Some(occ)) => (pos, occ),
        _ => {
            return Ok(Value::Null);
        },
    };
    if pos == 0 {
        return Ok(Value::number(0));
    }
    if occ < 1 {
        return Err(range_error(&text::integer_text(occ)));
    }
    Ok(Value::number(strings::instr(&text::chars_of(&s), &text::chars_of(&sub), pos, occ)))
}

pub open spec fn text_or_empty(env: Setting, a: Seq<Datum>, i: int) -> Seq<char> {
    if i < a.len() {
        match env.text_of(a[i]) {
            Some(s) => s,
            None => Seq::empty(),
        }
    } else {
        Seq::empty()
    }
}

fn get_text_or_empty(env: &Env, a: &[Value], i: usize) -> (s: String)
    ensures
        s@ == text_or_empty(env@, views(a@), i as int),
{
    if i < a.len() {
        match env.to_text(&a[i]) {
            Some(s) => s,
            None => String::new(),
        }
    } else {
        String::new()
    }
}

pub open spec fn replace(env: Setting, a: Seq<Datum>) -> Due {
    with_args(
        a,
        2,
        3,
        Ok(
            match env.text_of(a[0]) {
                None => Datum::Null,
                Some(s) => match env.text_of(a[1]) {
                    None => value::varchar(s),
                    Some(from) => value::varchar(
                        strings::replaced(s, from, text_or_empty(env, a, 2), 0),
                    ),
                },
            },
        ),
    )
}

fn call_replace(env: &Env, a: &[Value]) -> (r: Result<Value, OraError>)
    ensures
        gives(replace(env@, views(a@)), r),
{
    check_args(a, 2, 3)?;
    let s = match env.to_text(&a[0]) {
        Some(s) => s,
        None => {
            return Ok(Value::Null);
        },
    };
    let from = match env.to_text(&a[1]) {
        Some(s) => s,
        None => {
            return Ok(Value::varchar(&s));
        },
    };
    let to = get_text_or_empty(env, a, 2);
    Ok(
        Value::varchar(
            &strings::replace(&text::chars_of(&s), &text::chars_of(&from), &text::chars_of(&to)),
        ),
    )
}

pub open spec fn translate(env: Setting, a: Seq<Datum>) -> Due {
    with_args(
        a,
        3,
        3,
        Ok(
            match (env.text_of(a[0]), env.text_of(a[1]), env.text_of(a[2])) {
                (Some(s), Some(from), Some(to)) => value::varchar(
                    strings::translated(s, from, to),
                ),
                _ => Datum::Null,
            },
        ),
    )
}

fn call_translate(env: &Env, a: &[Value]) -> (r: Result<Value, OraError>)
    ensures
        gives(translate(env@, views(a@)), r),
{
    check_args(a, 3, 3)?;
    Ok(
        match (env.to_text(&a[0]), env.to_text(&a[1]), env.to_text(&a[2])) {
            (Some(s), Some(from), Some(to)) => Value::varchar(
                &strings::translate(
                    &text::chars_of(&s),
                    &text::chars_of(&from),
                    &text::chars_of(&to),
                ),
            ),
            _ => Value::Null,
        },
    )
}

/// An argument; NULL when it is not there.
pub open spec fn arg(a: Seq<Datum>, i: int) -> Datum {
    if i < a.len() {
        a[i]
    } else {
        Datum::Null
    }
}

fn get(a: &[Value], i: usize) -> (v: Value)
    ensures
        v@ == arg(views(a@), i as int),
{
    if i < a.len() {
        a[i].clone()
    } else {
        Value::Null
    }
}

/// TRIM, whose arguments are the side, the one character and the text.
pub open spec fn trim(env: Setting, a: Seq<Datum>) -> Due {
    match (env.text_of(arg(a, 0)), env.text_of(arg(a, 1)), env.text_of(arg(a, 2))) {
        (Some(mode), Some(set), Some(s)) => if set.len() != 1 {
            Err(error::failure(30001, "trim set should have only one character"@))
        } else if mode == "LEADING"@ {
            Ok(value::varchar(strings::trim_front(s, set)))
        } else if mode == "TRAILING"@ {
            Ok(value::varchar(strings::trim_back(s, set)))
        } else {
            Ok(value::varchar(strings::trim_back(strings::trim_front(s, set), set)))
        },
        _ => Ok(Datum::Null),
    }
}

fn call_trim(env: &Env, a: &[Value]) -> (r: Result<Value, OraError>)
    ensures
        gives(trim(env@, views(a@)), r),
{
    let (mode, set, s): (String, String, String) = match (
        env.to_text(&get(a, 0)),
        env.to_text(&get(a, 1)),
        env.to_text(&get(a, 2)),
    ) {
        (Some(mode), Some(set), Some(s)) => (mode, set, s),
        _ => {
            return Ok(Value::Null);
        },
    };
    let set = text::chars_of(&set);
    let chars = text::chars_of(&s);
    if set.len() != 1 {
        return Err(OraError::new(30001, "trim set should have only one character"));
    }
    let cut = if text::same(&mode, "LEADING") {
        strings::ltrim(&chars, &set)
    } else if text::same(&mode, "TRAILING") {
        strings::rtrim(&chars, &set)
    } else {
        strings::rtrim(&strings::ltrim(&chars, &set), &set)
    };
    Ok(Value::varchar(&text::string_of(&cut)))
}

pub open spec fn trim_side(env: Setting, a: Seq<Datum>, left: bool) -> Due {
    with_args(
        a,
        1,
        2,
        Ok(
            match env.text_of(a[0]) {
                None => Datum::Null,
                Some(s) => {
                    let set = if a.len() < 2 {
                        Some(seq![' '])
                    } else {
                        env.text_of(a[1])
                    };
                    match set {
                        None => Datum::Null,
                        Some(set) => value::varchar(
                            if left {
                                strings::trim_front(s, set)
                            } else {
                                strings::trim_back(s, set)
                            },
                        ),
                    }
                },
            },
        ),
    )
}

fn call_trim_side(env: &Env, a: &[Value], left: bool) -> (r: Result<Value, OraError>)
    ensures
        gives(trim_side(env@, views(a@), left), r),
{
    check_args(a, 1, 2)?;
    let s = match env.to_text(&a[0]) {
        Some(s) => text::chars_of(&s),
        None => {
            return Ok(Value::Null);
        },
    };
    let set: Vec<char> = if a.len() < 2 {
        vec![' ']
    } else {
        match env.to_text(&a[1]) {
            Some(t) => text::chars_of(&t),
            None => {
                return Ok(Value::Null);
            },
        }
    };
    assert(a@.len() < 2 ==> set@ =~= seq![' ']);
    let cut = if left {
        strings::ltrim(&s, &set)
    } else {
        strings::rtrim(&s, &set)
    };
    Ok(Value::varchar(&text::string_of(&cut)))
}

/// The longest text that LPAD and RPAD make.
pub const MAX_PADDED: i64 = 32767;

pub open spec fn pad(env: Setting, a: Seq<Datum>, left: bool) -> Due {
    with_args(
        a,
        2,
        3,
        match as_int(a[1]) {
            Err(e) => Err(e),
            Ok(n) => match (env.text_of(a[0]), n) {
                (Some(s), Some(n)) => {
                    let fill = if a.len() < 3 {
                        Some(seq![' '])
                    } else {
                        env.text_of(a[2])
                    };
                    match fill {
                        None => Ok(Datum::Null),
                        Some(fill) => if n <= 0 {
                            Ok(Datum::Null)
                        } else {
                            Ok(
                                value::varchar(
                                    strings::fitted(
                                        s,
                                        strings::min(n, MAX_PADDED as int),
                                        fill,
                                        left,
                                    ),
                                ),
                            )
                        },
                    }
                },
                _ => Ok(Datum::Null),
            },
        },
    )
}

fn call_pad(env: &Env, a: &[Value], left: bool) -> (r: Result<Value, OraError>)
    ensures
        gives(pad(env@, views(a@), left), r),
{
    check_args(a, 2, 3)?;
    let n: Option<i64> = to_int(&a[1])?;
    let (s, n): (String, i64) = match (env.to_text(&a[0]), n) {
        (Some(s), Some(n)) => (s, n),
        _ => {
            return Ok(Value::Null);
        },
    };
    let fill: Vec<char> = if a.len() < 3 {
        vec![' ']
    } else {
        match env.to_text(&a[2]) {
            Some(t) => text::chars_of(&t),
            None => {
                return Ok(Value::Null);
            },
        }
    };
    assert(a@.len() < 3 ==> fill@ =~= seq![' ']);
    if n <= 0 {
        return Ok(Value::Null);
    }
    let n: usize = if n < MAX_PADDED {
        n as usize
    } else {
        MAX_PADDED as usize
    };
    Ok(Value::varchar(&strings::fit(&text::chars_of(&s), n, &fill, left)))
}

pub open spec fn concat(env: Setting, a: Seq<Datum>) -> Due {
    with_args(a, 2, 2, Ok(value::varchar(text_or_empty(env, a, 0) + text_or_empty(env, a, 1))))
}

fn call_concat(env: &Env, a: &[Value]) -> (r: Result<Value, OraError>)
    ensures
        gives(concat(env@, views(a@)), r),
{
    check_args(a, 2, 2)?;
    Ok(
        Value::varchar(
            &text::join(&get_text_or_empty(env, a, 0), &get_text_or_empty(env, a, 1)),
        ),
    )
}

/// `char::from_u32`: the character with that number, if there is one.
pub assume_specification[ char::from_u32 ](n: u32) -> (r: Option<char>)
    ensures
        match r {
            Some(c) => c as u32 == n,
            None => 0xd800 <= n <= 0xdfff || n > 0x10ffff,
        },
;

/// CHR: the character whose number is the low 32 bits of the argument.
pub open spec fn chr(a: Seq<Datum>) -> Due {
    with_args(
        a,
        1,
        1,
        match as_int(a[0]) {
            Err(e) => Err(e),
            Ok(None) => Ok(Datum::Null),
            Ok(Some(n)) => {
                let code = n as u32;
                if code <= 0x10ffff && !(0xd800 <= code <= 0xdfff) {
                    Ok(Datum::Text(seq![code as char]))
                } else {
                    Ok(Datum::Null)
                }
            },
        },
    )
}

fn call_chr(a: &[Value]) -> (r: Result<Value, OraError>)
    ensures
        gives(chr(views(a@)), r),
{
    check_args(a, 1, 1)?;
    match to_int(&a[0])? {
        None => Ok(Value::Null),
        Some(n) => match char::from_u32(n as u32) {
            Some(c) => {
                let mut s = String::new();
                s.push(c);
                proof {
                    char_is_scalar(c);
                    char_u32_cast(c, n as u32);
                    assert(s@ =~= seq![c]);
                }
                Ok(Value::Varchar2(s))
            },
            None => Ok(Value::Null),
        },
    }
}

pub open spec fn ascii(env: Setting, a: Seq<Datum>) -> Due {
    with_args(
        a,
        1,
        1,
        Ok(
            match env.text_of(a[0]) {
                Some(s) => if s.len() > 0 {
                    Datum::Number(number::integer(s[0] as u32 as int))
                } else {
                    Datum::Null
                },
                None => Datum::Null,
            },
        ),
    )
}

fn call_ascii(env: &Env, a: &[Value]) -> (r: Result<Value, OraError>)
    ensures
        gives(ascii(env@, views(a@)), r),
{
    Ok(
        match one_text(env, a)? {
            None => Value::Null,
            Some(s) => {
                let chars = text::chars_of(&s);
                if chars.len() > 0 {
                    Value::number(chars[0] as u32 as i64)
                } else {
                    Value::Null
                }
            },
        },
    )
}

// ---- numbers ----

fn num_sum(x: &Number, y: &Number) -> (r: Result<Number, OraError>)
    ensures
        gives_number(in_range(number::sum(x@, y@)), r),
{
    settled(x.plus(y))
}

fn num_difference(x: &Number, y: &Number) -> (r: Result<Number, OraError>)
    ensures
        gives_number(in_range(number::difference(x@, y@)), r),
{
    settled(x.minus(y))
}

fn num_product(x: &Number, y: &Number) -> (r: Result<Number, OraError>)
    ensures
        gives_number(in_range(number::product(x@, y@)), r),
{
    settled(x.times(y))
}

fn num_quotient(x: &Number, y: &Number) -> (r: Result<Number, OraError>)
    requires
        y@.int_val != 0,
    ensures
        gives_number(in_range(number::quotient(x@, y@)), r),
{
    settled(x.over(y))
}

fn num_precise(x: &Number) -> (r: Result<Number, OraError>)
    ensures
        gives_number(in_range(number::precise(x@)), r),
{
    settled(x.precise())
}

/// A number with at most forty significant digits.
pub open spec fn round_number(r: Result<Dec, Failure>) -> Result<Dec, Failure> {
    match r {
        Err(e) => Err(e),
        Ok(d) => in_range(number::precise(d)),
    }
}

pub open spec fn sign_of(n: Dec) -> int {
    if n.int_val < 0 {
        -1
    } else if n.int_val == 0 {
        0
    } else {
        1
    }
}

/// SQRT of a number, to forty digits.
pub open spec fn sqrt_of(n: Dec) -> Result<Dec, Failure> {
    if n.int_val < 0 {
        Err(out_of_range(number::number_text(n)))
    } else {
        round_number(in_range(number::square_root(n)))
    }
}

/// What is left of `x` when a whole number of `y`, rounded in some way, is
/// taken away.
pub open spec fn rest_of(x: Dec, y: Dec, mode: Rounding) -> Result<Dec, Failure> {
    match in_range(number::quotient(x, y)) {
        Err(e) => Err(e),
        Ok(q) => match in_range(number::rounded(q, 0, mode)) {
            Err(e) => Err(e),
            Ok(k) => match in_range(number::product(k, y)) {
                Err(e) => Err(e),
                Ok(p) => in_range(number::difference(x, p)),
            },
        },
    }
}

fn num_rest(x: &Number, y: &Number, mode: Rounding) -> (r: Result<Number, OraError>)
    requires
        y@.int_val != 0,
    ensures
        gives_number(rest_of(x@, y@, mode), r),
{
    let q = num_quotient(x, y)?;
    let k = settled(q.round(0, mode))?;
    let p = num_product(&k, y)?;
    num_difference(x, &p)
}

/// `x` to the power `k`, rounded after each step.
pub open spec fn power_of(x: Dec, k: int) -> Result<Dec, Failure>
    decreases k,
{
    if k <= 0 {
        Ok(number::integer(1))
    } else {
        match power_of(x, k - 1) {
            Err(e) => Err(e),
            Ok(r) => round_number(in_range(number::product(r, x))),
        }
    }
}

/// `x` to a power that is an integer.
pub open spec fn int_power(x: Dec, e: int) -> Result<Dec, Failure> {
    match power_of(x, number::abs(e)) {
        Err(f) => Err(f),
        Ok(r) => if e >= 0 {
            Ok(r)
        } else if r.int_val == 0 {
            Err(zero_divisor())
        } else {
            round_number(in_range(number::quotient(number::integer(1), r)))
        },
    }
}

fn num_power(x: &Number, e: i64) -> (r: Result<Number, OraError>)
    requires
        -1000 <= e <= 1000,
    ensures
        gives_number(int_power(x@, e as int), r),
{
    let k: i64 = if e < 0 {
        -e
    } else {
        e
    };
    let mut p = Number::from_i64(1);
    let mut i: i64 = 0;
    while i < k
        invariant
            0 <= i <= k == number::abs(e as int),
            power_of(x@, i as int) == Ok::<Dec, Failure>(p@),
        decreases k - i,
    {
        let next = num_product(&p, x);
        let next = match next {
            Ok(n) => num_precise(&n),
            Err(f) => Err(f),
        };
        match next {
            Ok(n) => {
                p = n;
            },
            Err(f) => {
                proof {
                    failing_power(x@, i + 1, k as int);
                }
                return Err(f);
            },
        }
        i = i + 1;
    }
    if e >= 0 {
        return Ok(p);
    }
    if p.sign() == 0 {
        return Err(OraError::new(1476, "divisor is equal to zero"));
    }
    let q = num_quotient(&Number::from_i64(1), &p)?;
    num_precise(&q)
}

/// A power that fails makes the greater ones fail in the same way.
proof fn failing_power(x: Dec, i: int, k: int)
    requires
        i <= k,
        power_of(x, i) is Err,
    ensures
        power_of(x, k) == power_of(x, i),
    decreases k - i,
{
    if i < k {
        failing_power(x, i, k - 1);
    }
}

/// What a function gives.
pub enum Reply {
    Exactly(Due),
    /// A number that floating point arithmetic comes to.
    Floating,
}

/// The number that a floating point result, written in decimal, stands for;
/// infinities, and what is no number, stand for none.
pub open spec fn float_number(t: Option<Seq<char>>) -> Due {
    match t {
        None => Err(overflow()),
        Some(s) => match number::number_of(s) {
            None => Err(overflow()),
            Some(d) => numeric(in_range(number::precise(d))),
        },
    }
}

pub open spec fn opt_text(t: Option<String>) -> Option<Seq<char>> {
    match t {
        Some(s) => Some(s@),
        None => None,
    }
}

/// The number that a floating point result, written in decimal, stands for.
pub fn from_float(t: Option<String>) -> (r: Result<Value, OraError>)
    ensures
        gives(float_number(opt_text(t)), r),
{
    let s = match t {
        Some(s) => s,
        None => {
            return Err(numeric_overflow());
        },
    };
    match Number::parse(&s) {
        None => Err(numeric_overflow()),
        Some(n) => match num_precise(&n) {
            Ok(p) => Ok(Value::Number(p)),
            Err(e) => Err(e),
        },
    }
}

/// Whether a result is one that floating point arithmetic can come to.
pub open spec fn floated(r: Result<Value, OraError>) -> bool {
    exists|t: Option<Seq<char>>| gives(#[trigger] float_number(t), r)
}

/// The exponential of a number by `BigDecimal::to_f64` and the machine's
/// floating point; nothing is promised of it.
#[verifier::external_body]
fn float_exp(x: &str) -> (r: Option<String>) {
    BigDecimal::from_str(x).ok()?.to_f64().map(|v| v.exp().to_string())
}

/// The natural logarithm of a number by `BigDecimal::to_f64` and the machine's
/// floating point; nothing is promised of it.
#[verifier::external_body]
fn float_ln(x: &str) -> (r: Option<String>) {
    BigDecimal::from_str(x).ok()?.to_f64().map(|v| v.ln().to_string())
}

/// The logarithm of `y` to the base `x` by `BigDecimal::to_f64` and the
/// machine's floating point; nothing is promised of it.
#[verifier::external_body]
fn float_log(x: &str, y: &str) -> (r: Option<String>) {
    let base = BigDecimal::from_str(x).ok()?.to_f64()?;
    BigDecimal::from_str(y).ok()?.to_f64().map(|v| v.log(base).to_string())
}

/// `x` to the power `y` by `BigDecimal::to_f64` and the machine's floating
/// point; nothing is promised of it.
#[verifier::external_body]
fn float_pow(x: &str, y: &str) -> (r: Option<String>) {
    let exponent = BigDecimal::from_str(y).ok()?.to_f64()?;
    BigDecimal::from_str(x).ok()?.to_f64().map(|v| v.powf(exponent).to_string())
}

/// The functions of one number.
#[derive(Clone, Copy, PartialEq, Eq, Structural)]
pub enum OneNumber {
    Abs,
    Sign,
    Ceil,
    Floor,
    Sqrt,
    Exp,
    Ln,
}

pub open spec fn one_number(f: OneNumber, a: Seq<Datum>) -> Reply {
    if a.len() != 1 {
        Reply::Exactly(Err(bad_arity()))
    } else {
        match value::as_number(a[0]) {
            Err(e) => Reply::Exactly(Err(e)),
            Ok(None) => Reply::Exactly(Ok(Datum::Null)),
            Ok(Some(n)) => match f {
                OneNumber::Abs => Reply::Exactly(Ok(Datum::Number(number::magnitude(n)))),
                OneNumber::Sign => Reply::Exactly(Ok(Datum::Number(number::integer(sign_of(n))))),
                OneNumber::Ceil => Reply::Exactly(
                    numeric(in_range(number::rounded(n, 0, Rounding::Ceiling))),
                ),
                OneNumber::Floor => Reply::Exactly(
                    numeric(in_range(number::rounded(n, 0, Rounding::Floor))),
                ),
                OneNumber::Sqrt => Reply::Exactly(numeric(sqrt_of(n))),
                OneNumber::Exp => Reply::Floating,
                OneNumber::Ln => if n.int_val <= 0 {
                    Reply::Exactly(Err(out_of_range(number::number_text(n))))
                } else {
                    Reply::Floating
                },
            },
        }
    }
}

/// Whether a result is the one that was due, or one of those that were.
pub open spec fn replies(due: Reply, r: Result<Value, OraError>) -> bool {
    match due {
        Reply::Exactly(d) => gives(d, r),
        Reply::Floating => floated(r),
    }
}

fn number_value(r: Result<Number, OraError>) -> (v: Result<Value, OraError>)
    ensures
        match r {
            Ok(n) => gives(Ok(Datum::Number(n@)), v),
            Err(e) => gives(Err(e@), v),
        },
{
    match r {
        Ok(n) => Ok(Value::Number(n)),
        Err(e) => Err(e),
    }
}

fn float_value(t: Option<String>) -> (r: Result<Value, OraError>)
    ensures
        floated(r),
{
    let ghost s = opt_text(t);
    let r = from_float(t);
    assert(gives(float_number(s), r));
    r
}

fn call_one_number(f: OneNumber, a: &[Value]) -> (r: Result<Value, OraError>)
    ensures
        replies(one_number(f, views(a@)), r),
{
    check_args(a, 1, 1)?;
    let n = match a[0].to_number()? {
        Some(n) => n,
        None => {
            return Ok(Value::Null);
        },
    };
    match f {
        OneNumber::Abs => Ok(Value::Number(n.abs())),
        OneNumber::Sign => Ok(Value::number(n.sign())),
        OneNumber::Ceil => number_value(settled(n.round(0, Rounding::Ceiling))),
        OneNumber::Floor => number_value(settled(n.round(0, Rounding::Floor))),
        OneNumber::Sqrt => {
            if n.sign() < 0 {
                return Err(range_error(&number::format_number(&n)));
            }
            let root = settled(n.sqrt())?;
            number_value(num_precise(&root))
        },
        OneNumber::Exp => float_value(float_exp(&n.scientific())),
        OneNumber::Ln => {
            if n.sign() <= 0 {
                return Err(range_error(&number::format_number(&n)));
            }
            float_value(float_ln(&n.scientific()))
        },
    }
}

/// The functions of two numbers.
#[derive(Clone, Copy, PartialEq, Eq, Structural)]
pub enum TwoNumbers {
    Mod,
    Remainder,
    Power,
    Log,
}

/// Whether a number is an integer from -1000 to 1000.
pub open spec fn small_integer(y: Dec) -> bool {
    y.scale <= 0 && -1000 <= number::whole(y) <= 1000
}

pub open spec fn two_numbers(f: TwoNumbers, a: Seq<Datum>) -> Reply {
    if a.len() != 2 {
        Reply::Exactly(Err(bad_arity()))
    } else {
        match value::as_number(a[0]) {
            Err(e) => Reply::Exactly(Err(e)),
            Ok(x) => match value::as_number(a[1]) {
                Err(e) => Reply::Exactly(Err(e)),
                Ok(y) => match (x, y) {
                    (Some(x), Some(y)) => match f {
                        TwoNumbers::Mod => Reply::Exactly(
                            if y.int_val == 0 {
                                Ok(Datum::Number(x))
                            } else {
                                numeric(rest_of(x, y, Rounding::Down))
                            },
                        ),
                        TwoNumbers::Remainder => Reply::Exactly(
                            if y.int_val == 0 {
                                Err(zero_divisor())
                            } else {
                                numeric(rest_of(x, y, Rounding::HalfEven))
                            },
                        ),
                        TwoNumbers::Power => if small_integer(y) {
                            Reply::Exactly(numeric(int_power(x, number::whole(y))))
                        } else {
                            Reply::Floating
                        },
                        TwoNumbers::Log => Reply::Floating,
                    },
                    _ => Reply::Exactly(Ok(Datum::Null)),
                },
            },
        }
    }
}

fn call_two_numbers(f: TwoNumbers, a: &[Value]) -> (r: Result<Value, OraError>)
    ensures
        replies(two_numbers(f, views(a@)), r),
{
    check_args(a, 2, 2)?;
    let x = a[0].to_number()?;
    let y = a[1].to_number()?;
    let (x, y) = match (x, y) {
        (Some(x), Some(y)) => (x, y),
        _ => {
            return Ok(Value::Null);
        },
    };
    match f {
        TwoNumbers::Mod => if y.sign() == 0 {
            Ok(Value::Number(x))
        } else {
            number_value(num_rest(&x, &y, Rounding::Down))
        },
        TwoNumbers::Remainder => if y.sign() == 0 {
            Err(OraError::new(1476, "divisor is equal to zero"))
        } else {
            number_value(num_rest(&x, &y, Rounding::HalfEven))
        },
        TwoNumbers::Power => {
            if y.is_integer() {
                if let Some(e) = y.to_i64() {
                    if -1000 <= e && e <= 1000 {
                        return number_value(num_power(&x, e));
                    }
                }
            }
            float_value(float_pow(&x.scientific(), &y.scientific()))
        },
        TwoNumbers::Log => float_value(float_log(&x.scientific(), &y.scientific())),
    }
}

pub open spec fn moment_due(r: Result<Moment, Failure>) -> Due {
    match r {
        Ok(m) => Ok(Datum::Date(m)),
        Err(e) => Err(e),
    }
}

/// The moment some seconds later, truncated.
pub open spec fn shifted_start(m: Moment, seconds: int, unit: Seq<char>) -> Result<Moment, Failure> {
    match datetime::shifted(m, seconds) {
        Some(x) => datetime::truncated(x, unit),
        None => Err(datetime::beyond_calendar()),
    }
}

/// The moment some months later, if it is in the calendar.
pub open spec fn later_months(m: Moment, months: int) -> Result<Moment, Failure> {
    let year = datetime::month_after(m, months).0;
    if datetime::MIN_YEAR <= year <= datetime::MAX_YEAR {
        Ok(datetime::months_later(m, months))
    } else {
        Err(datetime::beyond_calendar())
    }
}

/// ROUND of a moment: the nearest start of a unit.
pub open spec fn rounded_moment(m: Moment, unit: Seq<char>) -> Result<Moment, Failure> {
    let u = text::upper(unit);
    if u == "DD"@ || u == "DDD"@ || u == "J"@ {
        shifted_start(m, 43200, "DD"@)
    } else if u == "HH"@ || u == "HH24"@ {
        shifted_start(m, 1800, "HH"@)
    } else if u == "MI"@ {
        shifted_start(m, 30, "MI"@)
    } else if u == "MM"@ || u == "MON"@ || u == "MONTH"@ {
        match datetime::truncated(m, "MM"@) {
            Err(e) => Err(e),
            Ok(start) => if m.day >= 16 {
                later_months(start, 1)
            } else {
                Ok(start)
            },
        }
    } else if u == "YYYY"@ || u == "YEAR"@ || u == "Y"@ || u == "YY"@ || u == "YYY"@ {
        match datetime::truncated(m, "YYYY"@) {
            Err(e) => Err(e),
            Ok(start) => if m.month >= 7 {
                later_months(start, 12)
            } else {
                Ok(start)
            },
        }
    } else {
        datetime::truncated(m, unit)
    }
}

/// Whether an operation on dates gave what was due.
pub open spec fn gives_date(due: Result<Moment, Failure>, r: Result<DateTime, OraError>) -> bool {
    match r {
        Ok(d) => due == Ok::<Moment, Failure>(d@),
        Err(e) => due == Err::<Moment, Failure>(e@),
    }
}

fn shift_start(d: &DateTime, seconds: i64, unit: &str) -> (r: Result<DateTime, OraError>)
    requires
        0 <= seconds <= 86400,
    ensures
        gives_date(shifted_start(d@, seconds as int, unit@), r),
{
    match d.shift(seconds) {
        Some(x) => datetime::trunc(&x, unit),
        None => Err(datetime::out_of_calendar()),
    }
}

fn months_on(d: &DateTime, months: i32) -> (r: Result<DateTime, OraError>)
    requires
        0 <= months <= 12,
    ensures
        gives_date(later_months(d@, months as int), r),
{
    // Only the last year of the calendar can be left by a year's months.
    let year: i32 = d.year();
    let month: u32 = d.month();
    if year == datetime::MAX_YEAR && month - 1 + months as u32 >= 12 {
        Err(datetime::out_of_calendar())
    } else {
        Ok(datetime::add_months(d, months))
    }
}

fn round_date(d: &DateTime, unit: &str) -> (r: Result<DateTime, OraError>)
    ensures
        gives_date(rounded_moment(d@, unit@), r),
{
    let u = unit.to_uppercase();
    if text::same(&u, "DD") || text::same(&u, "DDD") || text::same(&u, "J") {
        shift_start(d, 43200, "DD")
    } else if text::same(&u, "HH") || text::same(&u, "HH24") {
        shift_start(d, 1800, "HH")
    } else if text::same(&u, "MI") {
        shift_start(d, 30, "MI")
    } else if text::same(&u, "MM") || text::same(&u, "MON") || text::same(&u, "MONTH") {
        let start = datetime::trunc(d, "MM")?;
        if d.day() >= 16 {
            months_on(&start, 1)
        } else {
            Ok(start)
        }
    } else if text::same(&u, "YYYY") || text::same(&u, "YEAR") || text::same(&u, "Y") || text::same(
        &u,
        "YY",
    ) || text::same(&u, "YYY") {
        let start = datetime::trunc(d, "YYYY")?;
        if d.month() >= 7 {
            months_on(&start, 12)
        } else {
            Ok(start)
        }
    } else {
        datetime::trunc(d, unit)
    }
}

/// The places that ROUND and TRUNC are asked for. No number has digits as far
/// left of the point as the limit.
pub open spec fn places_of(n: int) -> int {
    if n < -number::MAX_SCALE {
        -number::MAX_SCALE as int
    } else {
        n
    }
}

/// ROUND and TRUNC of a number.
pub open spec fn round_places(n: Dec, places: int, nearest: bool) -> Result<Dec, Failure> {
    in_range(
        number::rounded(
            n,
            places_of(places),
            if nearest {
                Rounding::HalfUp
            } else {
                Rounding::Down
            },
        ),
    )
}

/// ROUND, to the nearest, and TRUNC, of a date or a number.
pub open spec fn round(env: Setting, a: Seq<Datum>, nearest: bool) -> Due {
    with_args(
        a,
        1,
        2,
        match a[0] {
            Datum::Null => Ok(Datum::Null),
            Datum::Date(m) | Datum::Timestamp(m) => {
                let unit = if a.len() < 2 {
                    Some("DD"@)
                } else {
                    env.text_of(a[1])
                };
                match unit {
                    None => Ok(Datum::Null),
                    Some(u) => moment_due(
                        if nearest {
                            rounded_moment(m, u)
                        } else {
                            datetime::truncated(m, u)
                        },
                    ),
                }
            },
            _ => match value::as_number(a[0]) {
                Err(e) => Err(e),
                Ok(None) => Ok(Datum::Null),
                Ok(Some(n)) => if a.len() < 2 {
                    numeric(round_places(n, 0, nearest))
                } else {
                    match as_int(a[1]) {
                        Err(e) => Err(e),
                        Ok(None) => Ok(Datum::Null),
                        Ok(Some(p)) => numeric(round_places(n, p, nearest)),
                    }
                },
            },
        },
    )
}

fn date_value(r: Result<DateTime, OraError>) -> (v: Result<Value, OraError>)
    ensures
        match r {
            Ok(d) => gives(Ok(Datum::Date(d@)), v),
            Err(e) => gives(Err(e@), v),
        },
{
    match r {
        Ok(d) => Ok(Value::Date(d)),
        Err(e) => Err(e),
    }
}

fn round_number_at(n: &Number, places: i64, nearest: bool) -> (r: Result<Number, OraError>)
    ensures
        gives_number(round_places(n@, places as int, nearest), r),
{
    let p: i64 = if places < -number::MAX_SCALE {
        -number::MAX_SCALE
    } else {
        places
    };
    settled(
        n.round(
            p,
            if nearest {
                Rounding::HalfUp
            } else {
                Rounding::Down
            },
        ),
    )
}

fn call_round(env: &Env, a: &[Value], nearest: bool) -> (r: Result<Value, OraError>)
    ensures
        gives(round(env@, views(a@), nearest), r),
{
    check_args(a, 1, 2)?;
    match &a[0] {
        Value::Null => Ok(Value::Null),
        Value::Date(d) | Value::Timestamp(d) => {
            let unit = if a.len() < 2 {
                "DD".to_owned()
            } else {
                match env.to_text(&a[1]) {
                    Some(u) => u,
                    None => {
                        return Ok(Value::Null);
                    },
                }
            };
            date_value(
                if nearest {
                    round_date(d, &unit)
                } else {
                    datetime::trunc(d, &unit)
                },
            )
        },
        v => {
            let n = match v.to_number()? {
                Some(n) => n,
                None => {
                    return Ok(Value::Null);
                },
            };
            if a.len() < 2 {
                return number_value(round_number_at(&n, 0, nearest));
            }
            match to_int(&a[1])? {
                None => Ok(Value::Null),
                Some(p) => number_value(round_number_at(&n, p, nearest)),
            }
        },
    }
}

/// The best of the first `k` values.
pub open spec fn best_of(env: Setting, a: Seq<Datum>, greatest: bool, k: int) -> Due
    decreases k,
{
    if k <= 1 {
        Ok(a[0])
    } else {
        match best_of(env, a, greatest, k - 1) {
            Err(e) => Err(e),
            Ok(best) => match value::relation(a[k - 1], best, env.date_format, env.year()) {
                Err(e) => Err(e),
                Ok(Some(rel)) => if (greatest && rel == Relation::Greater) || (!greatest && rel
                    == Relation::Less) {
                    Ok(a[k - 1])
                } else {
                    Ok(best)
                },
                Ok(None) => Ok(best),
            },
        }
    }
}

proof fn failing_best(env: Setting, a: Seq<Datum>, greatest: bool, i: int, k: int)
    requires
        1 <= i <= k,
        best_of(env, a, greatest, i) is Err,
    ensures
        best_of(env, a, greatest, k) == best_of(env, a, greatest, i),
    decreases k - i,
{
    if i < k {
        failing_best(env, a, greatest, i, k - 1);
    }
}

/// GREATEST and LEAST: NULL when one of the values is.
pub open spec fn extreme(env: Setting, a: Seq<Datum>, greatest: bool) -> Due {
    with_args(
        a,
        1,
        255,
        if exists|i: int| 0 <= i < a.len() && (#[trigger] a[i]) is Null {
            Ok(Datum::Null)
        } else {
            best_of(env, a, greatest, a.len() as int)
        },
    )
}

fn call_extreme(env: &Env, a: &[Value], greatest: bool) -> (r: Result<Value, OraError>)
    ensures
        gives(extreme(env@, views(a@), greatest), r),
{
    check_args(a, 1, 255)?;
    let ghost all = views(a@);
    let n: usize = a.len();
    for i in 0..n
        invariant
            n == a@.len(),
            1 <= n <= 255,
            all == views(a@),
            forall|j: int| 0 <= j < i ==> !((#[trigger] all[j]) is Null),
    {
        if a[i].is_null() {
            assert(all[i as int] is Null);
            return Ok(Value::Null);
        }
    }
    let mut best = a[0].clone();
    let mut k: usize = 1;
    while k < n
        invariant
            1 <= k <= n == a@.len(),
            n <= 255,
            all == views(a@),
            forall|j: int| 0 <= j < n ==> !((#[trigger] all[j]) is Null),
            best_of(env@, all, greatest, k as int) == Ok::<Datum, Failure>(best@),
        decreases n - k,
    {
        match value::compare(&a[k], &best, &env.nls_date_format, env.year()) {
            Err(e) => {
                proof {
                    failing_best(env@, all, greatest, k + 1, n as int);
                }
                return Err(e);
            },
            Ok(Some(rel)) => {
                if (greatest && rel == Relation::Greater) || (!greatest && rel == Relation::Less) {
                    best = a[k].clone();
                }
            },
            Ok(None) => {},
        }
        k = k + 1;
    }
    Ok(best)
}

// ---- conversion ----

/// An optional argument's text: `Some(None)` when the argument is not there,
/// nothing when it is NULL.
pub open spec fn opt_format(env: Setting, a: Seq<Datum>, i: int) -> Option<Option<Seq<char>>> {
    if i >= a.len() {
        Some(None)
    } else {
        match env.text_of(a[i]) {
            Some(s) => Some(Some(s)),
            None => None,
        }
    }
}

fn get_format(env: &Env, a: &[Value], i: usize) -> (r: Option<Option<String>>)
    ensures
        match r {
            Some(f) => opt_format(env@, views(a@), i as int) == Some(opt_text(f)),
            None => opt_format(env@, views(a@), i as int) is None,
        },
{
    if i >= a.len() {
        Some(None)
    } else {
        match env.to_text(&a[i]) {
            Some(s) => Some(Some(s)),
            None => None,
        }
    }
}

/// A moment by a format model, which has to be one when it was given.
pub open spec fn moment_text(m: Moment, fmt: Option<Seq<char>>, default: Seq<char>) -> Due {
    match fmt {
        None => Ok(value::varchar(datetime::formatted(m, default))),
        Some(f) => if datetime::elements(f, 0) is None {
            Err(datetime::unknown_format())
        } else {
            Ok(value::varchar(datetime::formatted(m, f)))
        },
    }
}

fn moment_value(d: &DateTime, fmt: Option<String>, default: &str) -> (r: Result<Value, OraError>)
    ensures
        gives(moment_text(d@, opt_text(fmt), default@), r),
{
    match fmt {
        None => Ok(Value::varchar(&datetime::format(d, default))),
        Some(f) => {
            datetime::validate_format(&f)?;
            Ok(Value::varchar(&datetime::format(d, &f)))
        },
    }
}

pub open spec fn to_char(env: Setting, a: Seq<Datum>) -> Due {
    with_args(
        a,
        1,
        3,
        match opt_format(env, a, 1) {
            None => Ok(Datum::Null),
            Some(fmt) => match a[0] {
                Datum::Null => Ok(Datum::Null),
                Datum::Date(m) => moment_text(m, fmt, env.date_format),
                Datum::Timestamp(m) => moment_text(m, fmt, env.timestamp_format),
                _ => match fmt {
                    None => Ok(value::varchar(text_or_empty(env, a, 0))),
                    Some(f) => match value::as_number(a[0]) {
                        Err(e) => Err(e),
                        Ok(None) => Ok(Datum::Null),
                        Ok(Some(n)) => match numfmt::formatted(n, f) {
                            Ok(s) => Ok(value::varchar(s)),
                            Err(e) => Err(e),
                        },
                    },
                },
            },
        },
    )
}

fn call_to_char(env: &Env, a: &[Value]) -> (r: Result<Value, OraError>)
    ensures
        gives(to_char(env@, views(a@)), r),
{
    check_args(a, 1, 3)?;
    let fmt = match get_format(env, a, 1) {
        Some(f) => f,
        None => {
            return Ok(Value::Null);
        },
    };
    match &a[0] {
        Value::Null => Ok(Value::Null),
        Value::Date(d) => moment_value(d, fmt, &env.nls_date_format),
        Value::Timestamp(d) => moment_value(d, fmt, &env.nls_timestamp_format),
        v => match fmt {
            None => Ok(Value::varchar(&get_text_or_empty(env, a, 0))),
            Some(f) => match v.to_number()? {
                None => Ok(Value::Null),
                Some(n) => match numfmt::format_number_with(&n, &f) {
                    Ok(s) => Ok(Value::varchar(&s)),
                    Err(e) => Err(e),
                },
            },
        },
    }
}

/// A text without `,` and `$`.
pub open spec fn without_marks(s: Seq<char>) -> Seq<char>
    decreases s.len(),
{
    if s.len() == 0 {
        Seq::empty()
    } else if s.last() == ',' || s.last() == '$' {
        without_marks(s.drop_last())
    } else {
        without_marks(s.drop_last()).push(s.last())
    }
}

fn strip_marks(s: &[char]) -> (r: Vec<char>)
    ensures
        r@ == without_marks(s@),
{
    let mut out: Vec<char> = Vec::new();
    for i in 0..s.len()
        invariant
            out@ == without_marks(s@.take(i as int)),
    {
        assert(s@.take(i + 1).drop_last() =~= s@.take(i as int));
        if s[i] != ',' && s[i] != '$' {
            out.push(s[i]);
        }
    }
    assert(s@.take(s@.len() as int) =~= s@);
    out
}

/// TO_NUMBER. With a format model, commas and dollar signs are left out.
pub open spec fn to_number(env: Setting, a: Seq<Datum>) -> Due {
    with_args(
        a,
        1,
        3,
        match env.text_of(a[0]) {
            None => Ok(Datum::Null),
            Some(s) => {
                let t = if a.len() > 1 {
                    without_marks(s)
                } else {
                    s
                };
                match value::as_number(value::varchar(t)) {
                    Err(e) => Err(e),
                    Ok(None) => Ok(Datum::Number(number::integer(0))),
                    Ok(Some(n)) => Ok(Datum::Number(n)),
                }
            },
        },
    )
}

fn call_to_number(env: &Env, a: &[Value]) -> (r: Result<Value, OraError>)
    ensures
        gives(to_number(env@, views(a@)), r),
{
    check_args(a, 1, 3)?;
    let s = match env.to_text(&a[0]) {
        Some(s) => s,
        None => {
            return Ok(Value::Null);
        },
    };
    let t = if a.len() > 1 {
        text::string_of(&strip_marks(&text::chars_of(&s)))
    } else {
        s
    };
    match Value::varchar(&t).to_number()? {
        None => Ok(Value::number(0)),
        Some(n) => Ok(Value::Number(n)),
    }
}

/// TO_DATE, which drops the fraction of a second, and TO_TIMESTAMP.
pub open spec fn to_moment(env: Setting, a: Seq<Datum>, date: bool) -> Due {
    with_args(
        a,
        1,
        3,
        match env.text_of(a[0]) {
            None => Ok(Datum::Null),
            Some(s) => match opt_format(env, a, 1) {
                None => Ok(Datum::Null),
                Some(fmt) => {
                    let f = match fmt {
                        Some(f) => f,
                        None => if date {
                            env.date_format
                        } else {
                            env.timestamp_format
                        },
                    };
                    match datetime::read_moment(s, f, env.year()) {
                        Err(e) => Err(e),
                        Ok(m) => if date {
                            Ok(Datum::Date(datetime::whole_seconds(m)))
                        } else {
                            Ok(Datum::Timestamp(m))
                        },
                    }
                },
            },
        },
    )
}

fn call_to_moment(env: &Env, a: &[Value], date: bool) -> (r: Result<Value, OraError>)
    ensures
        gives(to_moment(env@, views(a@), date), r),
{
    check_args(a, 1, 3)?;
    let s = match env.to_text(&a[0]) {
        Some(s) => s,
        None => {
            return Ok(Value::Null);
        },
    };
    let fmt = match get_format(env, a, 1) {
        Some(Some(f)) => f,
        Some(None) => if date {
            env.nls_date_format.clone()
        } else {
            env.nls_timestamp_format.clone()
        },
        None => {
            return Ok(Value::Null);
        },
    };
    let d = datetime::parse_in(&s, &fmt, env.year())?;
    Ok(
        if date {
            Value::Date(d.with_nanosecond(0))
        } else {
            Value::Timestamp(d)
        },
    )
}

pub open spec fn behind_plus(s: Seq<char>) -> Seq<char> {
    if s.len() > 0 && s[0] == '+' {
        s.skip(1)
    } else {
        s
    }
}

/// The number that a text of digits, which may start with `+`, stands for, if
/// it fits in 32 bits.
pub open spec fn small_number(s: Seq<char>) -> Option<int> {
    let d = behind_plus(s);
    if d.len() > 0 && (forall|i: int| 0 <= i < d.len() ==> text::is_digit(#[trigger] d[i]))
        && number::digits_value(d) <= u32::MAX {
        Some(number::digits_value(d) as int)
    } else {
        None
    }
}

pub proof fn digits_grow(s: Seq<char>, k: int)
    requires
        0 <= k <= s.len(),
        forall|i: int| 0 <= i < s.len() ==> text::is_digit(#[trigger] s[i]),
    ensures
        number::digits_value(s.take(k)) <= number::digits_value(s),
    decreases s.len(),
{
    if k < s.len() {
        let t = s.drop_last();
        assert(t.take(k) =~= s.take(k));
        digits_grow(t, k);
    } else {
        assert(s.take(k) =~= s);
    }
}

fn parse_small(s: &[char]) -> (r: Option<u32>)
    ensures
        match r {
            Some(n) => small_number(s@) == Some(n as int),
            None => small_number(s@) is None,
        },
{
    let from: usize = if s.len() > 0 && s[0] == '+' {
        1
    } else {
        0
    };
    let d = text::slice(s, from, s.len());
    assert(d@ =~= behind_plus(s@));
    if d.len() == 0 {
        return None;
    }
    for i in 0..d.len()
        invariant
            d@ == behind_plus(s@),
            forall|j: int| 0 <= j < i ==> text::is_digit(#[trigger] d@[j]),
    {
        if !text::digit_of(d[i]) {
            assert(!text::is_digit(d@[i as int]));
            return None;
        }
    }
    let mut n: u64 = 0;
    assert(d@.take(0) =~= Seq::<char>::empty());
    for i in 0..d.len()
        invariant
            forall|j: int| 0 <= j < d@.len() ==> text::is_digit(#[trigger] d@[j]),
            n == number::digits_value(d@.take(i as int)),
            n <= u32::MAX,
            d@ == behind_plus(s@),
    {
        let c: char = d[i];
        assert(text::is_digit(d@[i as int]));
        assert(d@.take(i + 1).drop_last() =~= d@.take(i as int));
        n = n * 10 + (c as u32 - 48) as u64;
        if n > u32::MAX as u64 {
            proof {
                digits_grow(d@, i + 1);
            }
            return None;
        }
    }
    assert(d@.take(d@.len() as int) =~= d@);
    Some(n as u32)
}

/// The length that CAST's target names behind `VARCHAR2:`; 4000 when it names
/// none.
pub open spec fn cast_length(target: Seq<char>) -> int {
    if numfmt::starts_with(target, "VARCHAR2:"@) {
        match small_number(target.skip(9)) {
            Some(n) => n,
            None => 4000,
        }
    } else {
        4000
    }
}

/// CAST, whose arguments are the value and the name of the target type.
pub open spec fn cast(env: Setting, a: Seq<Datum>) -> Due {
    let target = text_or_empty(env, a, 1);
    let v = arg(a, 0);
    if v is Null {
        Ok(Datum::Null)
    } else if target == "NUMBER"@ {
        if v is Text || v is Number {
            match value::as_number(v) {
                Err(e) => Err(e),
                Ok(None) => Ok(Datum::Null),
                Ok(Some(n)) => Ok(Datum::Number(n)),
            }
        } else {
            Err(error::inconsistent("NUMBER"@, "DATE"@))
        }
    } else if target == "DATE"@ {
        match value::as_moment(v, env.date_format, env.year()) {
            Err(e) => Err(e),
            Ok(None) => Ok(Datum::Null),
            Ok(Some(m)) => Ok(Datum::Date(datetime::whole_seconds(m))),
        }
    } else if target == "TIMESTAMP"@ {
        match value::as_moment(v, env.timestamp_format, env.year()) {
            Err(e) => Err(e),
            Ok(None) => Ok(Datum::Null),
            Ok(Some(m)) => Ok(Datum::Timestamp(m)),
        }
    } else {
        let s = text_or_empty(env, a, 0);
        if encode_utf8(s).len() > cast_length(target) {
            Err(error::failure(25137, "Data value out of range"@))
        } else {
            Ok(value::varchar(s))
        }
    }
}

fn max_length(target: &str) -> (n: u64)
    ensures
        n == cast_length(target@),
{
    let t = text::chars_of(target);
    proof {
        reveal_strlit("VARCHAR2:");
    }
    let head = text::chars_of("VARCHAR2:");
    if t.len() >= 9 {
        let front = text::slice(&t, 0, 9);
        assert(front@ =~= t@.take(9));
        if text::same_chars(&front, &head) {
            let digits = text::slice(&t, 9, t.len());
            assert(digits@ =~= t@.skip(9));
            return match parse_small(&digits) {
                Some(n) => n as u64,
                None => 4000,
            };
        }
    }
    4000
}

fn call_cast(env: &Env, a: &[Value]) -> (r: Result<Value, OraError>)
    ensures
        gives(cast(env@, views(a@)), r),
{
    let target = get_text_or_empty(env, a, 1);
    let v = get(a, 0);
    if v.is_null() {
        return Ok(Value::Null);
    }
    if text::same(&target, "NUMBER") {
        if matches!(v, Value::Varchar2(_) | Value::Number(_)) {
            return match v.to_number()? {
                None => Ok(Value::Null),
                Some(n) => Ok(Value::Number(n)),
            };
        }
        return Err(OraError::inconsistent("NUMBER", "DATE"));
    }
    if text::same(&target, "DATE") {
        return match v.to_datetime(&env.nls_date_format, env.year())? {
            None => Ok(Value::Null),
            Some(d) => Ok(Value::Date(d.with_nanosecond(0))),
        };
    }
    if text::same(&target, "TIMESTAMP") {
        return match v.to_datetime(&env.nls_timestamp_format, env.year())? {
            None => Ok(Value::Null),
            Some(d) => Ok(Value::Timestamp(d)),
        };
    }
    let max: u64 = max_length(&target);
    let s = get_text_or_empty(env, a, 0);
    if s.as_str().as_bytes().len() as u64 > max {
        return Err(OraError::new(25137, "Data value out of range"));
    }
    Ok(Value::varchar(&s))
}

// ---- dates ----

/// A moment to the microsecond.
pub open spec fn micros(m: Moment) -> Moment {
    Moment { nano: m.nano / 1000 * 1000, ..m }
}

fn truncate_micros(d: &DateTime) -> (r: DateTime)
    ensures
        r@ == micros(d@),
{
    d.with_nanosecond(d.nanosecond() / 1000 * 1000)
}

/// Whether ADD_MONTHS may come to a year.
pub open spec fn oracle_year(year: int) -> bool {
    -4713 <= year <= 9999 && year != 0
}

pub open spec fn add_months(env: Setting, a: Seq<Datum>) -> Due {
    with_args(
        a,
        2,
        2,
        match value::as_moment(a[0], env.date_format, env.year()) {
            Err(e) => Err(e),
            Ok(m) => match as_int(a[1]) {
                Err(e) => Err(e),
                Ok(n) => match (m, n) {
                    (Some(m), Some(n)) => if oracle_year(datetime::month_after(m, n).0) {
                        Ok(Datum::Date(datetime::months_later(datetime::whole_seconds(m), n)))
                    } else {
                        Err(datetime::beyond_calendar())
                    },
                    _ => Ok(Datum::Null),
                },
            },
        },
    )
}

fn call_add_months(env: &Env, a: &[Value]) -> (r: Result<Value, OraError>)
    ensures
        gives(add_months(env@, views(a@)), r),
{
    check_args(a, 2, 2)?;
    let d = a[0].to_datetime(&env.nls_date_format, env.year())?;
    let n: Option<i64> = to_int(&a[1])?;
    let (d, n): (DateTime, i64) = match (d, n) {
        (Some(d), Some(n)) => (d, n),
        _ => {
            return Ok(Value::Null);
        },
    };
    let year: i128 = d.year() as i128;
    let month: i128 = d.month() as i128;
    // A number of years that leaves no negative number of months.
    let total: i128 = (year + 1_000_000_000_000_000_000_000) * 12 + (month - 1) + n as i128;
    assert(total / 12 - 1_000_000_000_000_000_000_000 == (year * 12 + (month - 1) + n) / 12);
    let y: i128 = total / 12 - 1_000_000_000_000_000_000_000;
    if y < -4713 || y > 9999 || y == 0 {
        return Err(datetime::out_of_calendar());
    }
    Ok(Value::Date(datetime::add_months(&d.with_nanosecond(0), n as i32)))
}

pub open spec fn last_day(env: Setting, a: Seq<Datum>) -> Due {
    with_args(
        a,
        1,
        1,
        match value::as_moment(a[0], env.date_format, env.year()) {
            Err(e) => Err(e),
            Ok(None) => Ok(Datum::Null),
            Ok(Some(m)) => Ok(
                Datum::Date(
                    Moment { day: datetime::days_in(m.year, m.month), ..datetime::whole_seconds(m) },
                ),
            ),
        },
    )
}

fn call_last_day(env: &Env, a: &[Value]) -> (r: Result<Value, OraError>)
    ensures
        gives(last_day(env@, views(a@)), r),
{
    check_args(a, 1, 1)?;
    match a[0].to_datetime(&env.nls_date_format, env.year())? {
        None => Ok(Value::Null),
        Some(d) => {
            let day: u32 = datetime::last_day_of(d.year(), d.month());
            Ok(Value::Date(d.with_date(d.year(), d.month(), day).with_nanosecond(0)))
        },
    }
}

/// The seconds of a month before a moment.
pub open spec fn month_seconds(m: Moment) -> int {
    (m.day - 1) * 86400 + m.hour * 3600 + m.minute * 60 + m.second
}

/// MONTHS_BETWEEN: whole months between the same days of a month or two last
/// days, and else a fraction of months of 31 days.
pub open spec fn months_apart(x: Moment, y: Moment) -> Result<Dec, Failure> {
    let whole = (x.year - y.year) * 12 + x.month - y.month;
    let both_last = x.day == datetime::days_in(x.year, x.month) && y.day == datetime::days_in(
        y.year,
        y.month,
    );
    if x.day == y.day || both_last {
        Ok(number::integer(whole))
    } else {
        let part = number::quotient(
            number::integer(month_seconds(x) - month_seconds(y)),
            number::integer(2_678_400),
        );
        match in_range(part) {
            Err(e) => Err(e),
            Ok(part) => round_number(in_range(number::sum(number::integer(whole), part))),
        }
    }
}

fn seconds_in_month(d: &DateTime) -> (r: i64)
    ensures
        r == month_seconds(d@),
        0 <= r < 31 * 86400,
{
    (d.day() as i64 - 1) * 86400 + d.hour() as i64 * 3600 + d.minute() as i64 * 60 + d.second() as i64
}

fn num_months_apart(x: &DateTime, y: &DateTime) -> (r: Result<Number, OraError>)
    ensures
        gives_number(months_apart(x@, y@), r),
{
    let whole: i64 = (x.year() as i64 - y.year() as i64) * 12 + x.month() as i64 - y.month() as i64;
    let both_last = x.day() == datetime::last_day_of(x.year(), x.month()) && y.day()
        == datetime::last_day_of(y.year(), y.month());
    if x.day() == y.day() || both_last {
        return Ok(Number::from_i64(whole));
    }
    let seconds: i64 = seconds_in_month(x) - seconds_in_month(y);
    let month = Number::from_i64(2_678_400);
    proof {
        number::integer_is_zero(2_678_400);
    }
    let part = num_quotient(&Number::from_i64(seconds), &month)?;
    let all = num_sum(&Number::from_i64(whole), &part)?;
    num_precise(&all)
}

pub open spec fn months_between(env: Setting, a: Seq<Datum>) -> Due {
    with_args(
        a,
        2,
        2,
        match value::as_moment(a[0], env.date_format, env.year()) {
            Err(e) => Err(e),
            Ok(x) => match value::as_moment(a[1], env.date_format, env.year()) {
                Err(e) => Err(e),
                Ok(y) => match (x, y) {
                    (Some(x), Some(y)) => numeric(months_apart(x, y)),
                    _ => Ok(Datum::Null),
                },
            },
        },
    )
}

fn call_months_between(env: &Env, a: &[Value]) -> (r: Result<Value, OraError>)
    ensures
        gives(months_between(env@, views(a@)), r),
{
    check_args(a, 2, 2)?;
    let x = a[0].to_datetime(&env.nls_date_format, env.year())?;
    let y = a[1].to_datetime(&env.nls_date_format, env.year())?;
    match (x, y) {
        (Some(x), Some(y)) => number_value(num_months_apart(&x, &y)),
        _ => Ok(Value::Null),
    }
}

/// The seconds of a moment with their fraction.
pub open spec fn seconds_of(m: Moment) -> Result<Dec, Failure> {
    match in_range(number::quotient(number::integer(m.nano), number::integer(1_000_000_000))) {
        Err(e) => Err(e),
        Ok(part) => in_range(number::sum(number::integer(m.second), part)),
    }
}

/// EXTRACT, whose arguments are the name of the part and the date.
pub open spec fn extract(env: Setting, a: Seq<Datum>) -> Due {
    let part = text_or_empty(env, a, 0);
    match value::as_moment(arg(a, 1), env.date_format, env.year()) {
        Err(e) => Err(e),
        Ok(None) => Ok(Datum::Null),
        Ok(Some(m)) => if part == "YEAR"@ {
            Ok(Datum::Number(number::integer(m.year)))
        } else if part == "MONTH"@ {
            Ok(Datum::Number(number::integer(m.month)))
        } else if part == "DAY"@ {
            Ok(Datum::Number(number::integer(m.day)))
        } else if part == "HOUR"@ {
            Ok(Datum::Number(number::integer(m.hour)))
        } else if part == "MINUTE"@ {
            Ok(Datum::Number(number::integer(m.minute)))
        } else if part == "SECOND"@ {
            numeric(seconds_of(m))
        } else {
            Err(error::failure(907, "missing right parenthesis"@))
        },
    }
}

fn num_seconds(d: &DateTime) -> (r: Result<Number, OraError>)
    ensures
        gives_number(seconds_of(d@), r),
{
    let unit = Number::from_i64(1_000_000_000);
    proof {
        number::integer_is_zero(1_000_000_000);
    }
    let part = num_quotient(&Number::from_i64(d.nanosecond() as i64), &unit)?;
    num_sum(&Number::from_i64(d.second() as i64), &part)
}

fn call_extract(env: &Env, a: &[Value]) -> (r: Result<Value, OraError>)
    ensures
        gives(extract(env@, views(a@)), r),
{
    let part = get_text_or_empty(env, a, 0);
    let d = match get(a, 1).to_datetime(&env.nls_date_format, env.year())? {
        None => {
            return Ok(Value::Null);
        },
        Some(d) => d,
    };
    if text::same(&part, "YEAR") {
        Ok(Value::number(d.year() as i64))
    } else if text::same(&part, "MONTH") {
        Ok(Value::number(d.month() as i64))
    } else if text::same(&part, "DAY") {
        Ok(Value::number(d.day() as i64))
    } else if text::same(&part, "HOUR") {
        Ok(Value::number(d.hour() as i64))
    } else if text::same(&part, "MINUTE") {
        Ok(Value::number(d.minute() as i64))
    } else if text::same(&part, "SECOND") {
        number_value(num_seconds(&d))
    } else {
        Err(OraError::new(907, "missing right parenthesis"))
    }
}

// ---- all of them ----

/// The functions of strings, and those that deal with NULL.
pub open spec fn called_text(env: Setting, name: Seq<char>, a: Seq<Datum>) -> Option<Due> {
    if name == "NVL"@ {
        Some(nvl(a))
    } else if name == "NVL2"@ {
        Some(nvl2(a))
    } else if name == "COALESCE"@ {
        Some(coalesce(a))
    } else if name == "NULLIF"@ {
        Some(nullif(env, a))
    } else if name == "DECODE"@ {
        Some(decode(env, a))
    } else if name == "UPPER"@ {
        Some(on_text(env, a, |s: Seq<char>| text::upper(s)))
    } else if name == "LOWER"@ {
        Some(on_text(env, a, |s: Seq<char>| text::lower(s)))
    } else if name == "INITCAP"@ {
        Some(on_text(env, a, |s: Seq<char>| strings::capitalized(s, true)))
    } else if name == "LENGTH"@ {
        Some(length(env, a, false))
    } else if name == "LENGTHB"@ {
        Some(length(env, a, true))
    } else if name == "SUBSTR"@ {
        Some(substr(env, a))
    } else if name == "INSTR"@ {
        Some(instr(env, a))
    } else if name == "REPLACE"@ {
        Some(replace(env, a))
    } else if name == "TRANSLATE"@ {
        Some(translate(env, a))
    } else if name == "TRIM"@ {
        Some(trim(env, a))
    } else if name == "LTRIM"@ {
        Some(trim_side(env, a, true))
    } else if name == "RTRIM"@ {
        Some(trim_side(env, a, false))
    } else if name == "LPAD"@ {
        Some(pad(env, a, true))
    } else if name == "RPAD"@ {
        Some(pad(env, a, false))
    } else if name == "CONCAT"@ {
        Some(concat(env, a))
    } else if name == "CHR"@ {
        Some(chr(a))
    } else if name == "ASCII"@ {
        Some(ascii(env, a))
    } else if name == "REVERSE"@ {
        Some(on_text(env, a, |s: Seq<char>| s.reverse()))
    } else {
        None
    }
}

fn call_text(env: &Env, name: &str, a: &[Value]) -> (r: Option<Result<Value, OraError>>)
    ensures
        match r {
            Some(v) => called_text(env@, name@, views(a@)) is Some && gives(
                called_text(env@, name@, views(a@))->0,
                v,
            ),
            None => called_text(env@, name@, views(a@)) is None,
        },
{
    if text::same(name, "NVL") {
        Some(call_nvl(a))
    } else if text::same(name, "NVL2") {
        Some(call_nvl2(a))
    } else if text::same(name, "COALESCE") {
        Some(call_coalesce(a))
    } else if text::same(name, "NULLIF") {
        Some(call_nullif(env, a))
    } else if text::same(name, "DECODE") {
        Some(call_decode(env, a))
    } else if text::same(name, "UPPER") {
        Some(call_upper(env, a))
    } else if text::same(name, "LOWER") {
        Some(call_lower(env, a))
    } else if text::same(name, "INITCAP") {
        Some(call_initcap(env, a))
    } else if text::same(name, "LENGTH") {
        Some(call_length(env, a, false))
    } else if text::same(name, "LENGTHB") {
        Some(call_length(env, a, true))
    } else if text::same(name, "SUBSTR") {
        Some(call_substr(env, a))
    } else if text::same(name, "INSTR") {
        Some(call_instr(env, a))
    } else if text::same(name, "REPLACE") {
        Some(call_replace(env, a))
    } else if text::same(name, "TRANSLATE") {
        Some(call_translate(env, a))
    } else if text::same(name, "TRIM") {
        Some(call_trim(env, a))
    } else if text::same(name, "LTRIM") {
        Some(call_trim_side(env, a, true))
    } else if text::same(name, "RTRIM") {
        Some(call_trim_side(env, a, false))
    } else if text::same(name, "LPAD") {
        Some(call_pad(env, a, true))
    } else if text::same(name, "RPAD") {
        Some(call_pad(env, a, false))
    } else if text::same(name, "CONCAT") {
        Some(call_concat(env, a))
    } else if text::same(name, "CHR") {
        Some(call_chr(a))
    } else if text::same(name, "ASCII") {
        Some(call_ascii(env, a))
    } else if text::same(name, "REVERSE") {
        Some(call_reverse(env, a))
    } else {
        None
    }
}

/// The functions of numbers.
pub open spec fn called_number(name: Seq<char>, a: Seq<Datum>) -> Option<Reply> {
    if name == "ABS"@ {
        Some(one_number(OneNumber::Abs, a))
    } else if name == "SIGN"@ {
        Some(one_number(OneNumber::Sign, a))
    } else if name == "CEIL"@ {
        Some(one_number(OneNumber::Ceil, a))
    } else if name == "FLOOR"@ {
        Some(one_number(OneNumber::Floor, a))
    } else if name == "SQRT"@ {
        Some(one_number(OneNumber::Sqrt, a))
    } else if name == "EXP"@ {
        Some(one_number(OneNumber::Exp, a))
    } else if name == "LN"@ {
        Some(one_number(OneNumber::Ln, a))
    } else if name == "MOD"@ {
        Some(two_numbers(TwoNumbers::Mod, a))
    } else if name == "REMAINDER"@ {
        Some(two_numbers(TwoNumbers::Remainder, a))
    } else if name == "POWER"@ {
        Some(two_numbers(TwoNumbers::Power, a))
    } else if name == "LOG"@ {
        Some(two_numbers(TwoNumbers::Log, a))
    } else {
        None
    }
}

fn call_number(name: &str, a: &[Value]) -> (r: Option<Result<Value, OraError>>)
    ensures
        match r {
            Some(v) => called_number(name@, views(a@)) is Some && replies(
                called_number(name@, views(a@))->0,
                v,
            ),
            None => called_number(name@, views(a@)) is None,
        },
{
    if text::same(name, "ABS") {
        Some(call_one_number(OneNumber::Abs, a))
    } else if text::same(name, "SIGN") {
        Some(call_one_number(OneNumber::Sign, a))
    } else if text::same(name, "CEIL") {
        Some(call_one_number(OneNumber::Ceil, a))
    } else if text::same(name, "FLOOR") {
        Some(call_one_number(OneNumber::Floor, a))
    } else if text::same(name, "SQRT") {
        Some(call_one_number(OneNumber::Sqrt, a))
    } else if text::same(name, "EXP") {
        Some(call_one_number(OneNumber::Exp, a))
    } else if text::same(name, "LN") {
        Some(call_one_number(OneNumber::Ln, a))
    } else if text::same(name, "MOD") {
        Some(call_two_numbers(TwoNumbers::Mod, a))
    } else if text::same(name, "REMAINDER") {
        Some(call_two_numbers(TwoNumbers::Remainder, a))
    } else if text::same(name, "POWER") {
        Some(call_two_numbers(TwoNumbers::Power, a))
    } else if text::same(name, "LOG") {
        Some(call_two_numbers(TwoNumbers::Log, a))
    } else {
        None
    }
}

/// The other functions: conversions, dates and the session.
pub open spec fn called_other(env: Setting, name: Seq<char>, a: Seq<Datum>) -> Due {
    if name == "ROUND"@ {
        round(env, a, true)
    } else if name == "TRUNC"@ {
        round(env, a, false)
    } else if name == "GREATEST"@ {
        extreme(env, a, true)
    } else if name == "LEAST"@ {
        extreme(env, a, false)
    } else if name == "TO_CHAR"@ {
        to_char(env, a)
    } else if name == "TO_NUMBER"@ {
        to_number(env, a)
    } else if name == "TO_DATE"@ {
        to_moment(env, a, true)
    } else if name == "TO_TIMESTAMP"@ {
        to_moment(env, a, false)
    } else if name == "CAST"@ {
        cast(env, a)
    } else if name == "SYSDATE"@ {
        Ok(Datum::Date(datetime::whole_seconds(env.now_local)))
    } else if name == "SYSTIMESTAMP"@ {
        Ok(Datum::Timestamp(micros(env.now_local)))
    } else if name == "CURRENT_DATE"@ {
        Ok(Datum::Date(datetime::whole_seconds(env.session_now())))
    } else if name == "CURRENT_TIMESTAMP"@ || name == "LOCALTIMESTAMP"@ {
        Ok(Datum::Timestamp(micros(env.session_now())))
    } else if name == "USER"@ {
        Ok(value::varchar(env.user))
    } else if name == "ADD_MONTHS"@ {
        add_months(env, a)
    } else if name == "LAST_DAY"@ {
        last_day(env, a)
    } else if name == "MONTHS_BETWEEN"@ {
        months_between(env, a)
    } else if name == "EXTRACT"@ {
        extract(env, a)
    } else if name == "SYS_GUID"@ {
        Err(error::failure(3001, "unimplemented feature: SYS_GUID"@))
    } else {
        Err(error::invalid_identifier(seq!['"'] + name + seq!['"']))
    }
}

fn call_other(env: &Env, name: &str, a: &[Value]) -> (r: Result<Value, OraError>)
    ensures
        gives(called_other(env@, name@, views(a@)), r),
{
    if text::same(name, "ROUND") {
        call_round(env, a, true)
    } else if text::same(name, "TRUNC") {
        call_round(env, a, false)
    } else if text::same(name, "GREATEST") {
        call_extreme(env, a, true)
    } else if text::same(name, "LEAST") {
        call_extreme(env, a, false)
    } else if text::same(name, "TO_CHAR") {
        call_to_char(env, a)
    } else if text::same(name, "TO_NUMBER") {
        call_to_number(env, a)
    } else if text::same(name, "TO_DATE") {
        call_to_moment(env, a, true)
    } else if text::same(name, "TO_TIMESTAMP") {
        call_to_moment(env, a, false)
    } else if text::same(name, "CAST") {
        call_cast(env, a)
    } else if text::same(name, "SYSDATE") {
        Ok(Value::Date(env.now_local.with_nanosecond(0)))
    } else if text::same(name, "SYSTIMESTAMP") {
        Ok(Value::Timestamp(truncate_micros(&env.now_local)))
    } else if text::same(name, "CURRENT_DATE") {
        Ok(Value::Date(env.session_now().with_nanosecond(0)))
    } else if text::same(name, "CURRENT_TIMESTAMP") || text::same(name, "LOCALTIMESTAMP") {
        Ok(Value::Timestamp(truncate_micros(&env.session_now())))
    } else if text::same(name, "USER") {
        Ok(Value::varchar(&env.user))
    } else if text::same(name, "ADD_MONTHS") {
        call_add_months(env, a)
    } else if text::same(name, "LAST_DAY") {
        call_last_day(env, a)
    } else if text::same(name, "MONTHS_BETWEEN") {
        call_months_between(env, a)
    } else if text::same(name, "EXTRACT") {
        call_extract(env, a)
    } else if text::same(name, "SYS_GUID") {
        Err(OraError::new(3001, "unimplemented feature: SYS_GUID"))
    } else {
        Err(OraError::invalid_identifier(&text::quoted(name)))
    }
}

/// What the function with a name gives for some arguments.
pub open spec fn called(env: Setting, name: Seq<char>, a: Seq<Datum>) -> Reply {
    match called_text(env, name, a) {
        Some(due) => Reply::Exactly(due),
        None => match called_number(name, a) {
            Some(reply) => reply,
            None => Reply::Exactly(called_other(env, name, a)),
        },
    }
}

/// Calls the function with a name.
pub fn call(env: &Env, name: &str, args: &[Value]) -> (r: Result<Value, OraError>)
    ensures
        replies(called(env@, name@, views(args@)), r),
{
    if let Some(r) = call_text(env, name, args) {
        return r;
    }
    if let Some(r) = call_number(name, args) {
        return r;
    }
    call_other(env, name, args)
}

} // verus!
