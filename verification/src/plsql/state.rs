//! What statements of a block do to its variables, and what its names stand for.

use std::sync::Arc;

use vstd::prelude::*;
use vstd::string::*;

use crate::ast;
use crate::catalog;
use crate::catalog::{Cat, Catalog, Sheet};
use crate::env::{Env, Setting};
use crate::error;
use crate::error::{Failure, OraError};
use crate::functions;
use crate::number;
use crate::number::{Number, Rounding};
use crate::parser;
use crate::plsql::vars;
use crate::plsql::vars::{Exc, Frame, Held, Level, Raised, Slot, VarType, Vars, Visible};
use crate::plsql::TypeRef;
use crate::store;
use crate::store::Place;
use crate::strings;
use crate::text;
use crate::tree;
use crate::value;
use crate::value::{Datum, Value};

verus! {

/// What a running block holds.
pub struct Local {
    pub binds: Vec<Value>,
    pub frames: Vec<Frame>,
    /// SQL%ROWCOUNT: the last SQL statement's row count.
    pub rowcount: Option<i64>,
    /// Exceptions being handled, innermost last, for SQLCODE, SQLERRM and RAISE.
    pub handling: Vec<Exc>,
}

pub struct Run {
    pub binds: Seq<Datum>,
    pub frames: Seq<Level>,
    pub rowcount: Option<int>,
    pub handling: Seq<Raised>,
}

pub open spec fn all_raised(v: Seq<Exc>) -> Seq<Raised> {
    Seq::new(v.len(), |i: int| v[i]@)
}

impl View for Local {
    type V = Run;

    open spec fn view(&self) -> Run {
        Run {
            binds: functions::views(self.binds@),
            frames: vars::levels(self.frames@),
            rowcount: vars::opt_count(self.rowcount),
            handling: all_raised(self.handling@),
        }
    }
}

impl Run {
    /// The variables a SQL expression sees.
    pub open spec fn visible(self) -> Visible {
        Visible {
            frames: self.frames,
            rowcount: self.rowcount,
            handling: if self.handling.len() > 0 {
                Some(self.handling.last())
            } else {
                None
            },
        }
    }
}

impl Local {
    pub fn new(binds: Vec<Value>) -> (l: Local)
        ensures
            l@ == (Run {
                binds: functions::views(binds@),
                frames: Seq::empty(),
                rowcount: None,
                handling: Seq::empty(),
            }),
    {
        let l = Local { binds, frames: Vec::new(), rowcount: None, handling: Vec::new() };
        assert(l@.frames =~= Seq::empty());
        assert(l@.handling =~= Seq::empty());
        l
    }

    pub fn vars(&self) -> (v: Vars<'_>)
        ensures
            v@ == self@.visible(),
    {
        let n: usize = self.handling.len();
        let handling = if n > 0 {
            Some(&self.handling[n - 1])
        } else {
            None
        };
        assert(n > 0 ==> self@.handling.last() == self.handling@[n - 1]@);
        Vars { frames: &self.frames, rowcount: self.rowcount, handling }
    }

    pub fn push_frame(&mut self, f: Frame)
        ensures
            final(self)@ == (Run { frames: old(self)@.frames.push(f@), ..old(self)@ }),
    {
        let ghost before = self@;
        self.frames.push(f);
        assert(self@.frames =~= before.frames.push(f@));
    }

    pub fn pop_frame(&mut self)
        ensures
            final(self)@ == (Run { frames: without_last(old(self)@.frames), ..old(self)@ }),
    {
        let ghost before = self@;
        let _ = self.frames.pop();
        assert(self@.frames =~= without_last(before.frames));
    }
}

pub open spec fn without_last(f: Seq<Level>) -> Seq<Level> {
    if f.len() > 0 {
        f.drop_last()
    } else {
        f
    }
}

// ---- errors ----

pub open spec fn not_declared(name: Seq<char>) -> Failure {
    parser::pls(201, "identifier '"@ + name + "' must be declared"@)
}

pub fn not_declared_error(name: &str) -> (e: OraError)
    ensures
        e@ == not_declared(name@),
{
    let m = text::join(&text::join("identifier '", name), "' must be declared");
    parser::pls_error(201, &m)
}

/// The name that an error about an unknown name is about.
pub open spec fn blamed(message: Seq<char>) -> Seq<char> {
    let front = match strings::index_from(message, ':', 0) {
        Some(k) => message.take(k),
        None => message,
    };
    strings::trim_back(strings::trim_front(front, seq!['"']), seq!['"'])
}

/// In PL/SQL an unknown name is a compile error rather than ORA-00904.
pub open spec fn undeclared(f: Failure) -> Failure {
    if f.code != 904 {
        f
    } else {
        not_declared(blamed(f.message))
    }
}

pub fn undeclared_error(e: OraError) -> (r: OraError)
    ensures
        r@ == undeclared(e@),
{
    if e.code != 904 {
        return e;
    }
    let c = text::chars_of(&e.message);
    let total: usize = c.len();
    let front = match strings::index_of(&c, ':') {
        Some(k) => {
            let f = text::slice(&c, 0, k);
            assert(f@ =~= c@.take(k as int));
            f
        },
        None => {
            let f = text::slice(&c, 0, total);
            assert(f@ =~= c@);
            f
        },
    };
    let mut quote: Vec<char> = Vec::new();
    quote.push('"');
    assert(quote@ =~= seq!['"']);
    let name = strings::rtrim(&strings::ltrim(&front, &quote), &quote);
    not_declared_error(&text::string_of(&name))
}

pub open spec fn value_error(detail: Seq<char>) -> Failure {
    error::failure(6502, "PL/SQL: numeric or value error"@ + detail)
}

pub fn value_error_of(detail: &str) -> (e: OraError)
    ensures
        e@ == value_error(detail@),
{
    OraError { code: 6502, message: text::join("PL/SQL: numeric or value error", detail) }
}

pub open spec fn wrong_type() -> Failure {
    parser::pls(382, "expression is of wrong type"@)
}

pub fn wrong_type_error() -> (e: OraError)
    ensures
        e@ == wrong_type(),
{
    parser::pls_error(382, "expression is of wrong type")
}

/// Errors from storing into a column are VALUE_ERROR in PL/SQL.
pub open spec fn as_value_error(f: Failure) -> Failure {
    if f.code == 12899 {
        value_error(": character string buffer too small"@)
    } else if f.code == 1438 {
        value_error(": number precision too large"@)
    } else if f.code == 1722 {
        value_error(": character to number conversion error"@)
    } else {
        f
    }
}

pub fn to_value_error(e: OraError) -> (r: OraError)
    ensures
        r@ == as_value_error(e@),
{
    if e.code == 12899 {
        value_error_of(": character string buffer too small")
    } else if e.code == 1438 {
        value_error_of(": number precision too large")
    } else if e.code == 1722 {
        value_error_of(": character to number conversion error")
    } else {
        e
    }
}

/// The error of a predefined exception name.
pub open spec fn predefined(name: Seq<char>) -> Option<Failure> {
    if name == "NO_DATA_FOUND"@ {
        Some(error::failure(1403, "no data found"@))
    } else if name == "TOO_MANY_ROWS"@ {
        Some(error::failure(1422, "exact fetch returns more than requested number of rows"@))
    } else if name == "DUP_VAL_ON_INDEX"@ {
        Some(error::failure(1, "unique constraint violated"@))
    } else if name == "ZERO_DIVIDE"@ {
        Some(error::failure(1476, "divisor is equal to zero"@))
    } else if name == "VALUE_ERROR"@ {
        Some(error::failure(6502, "PL/SQL: numeric or value error"@))
    } else if name == "INVALID_NUMBER"@ {
        Some(error::failure(1722, "invalid number"@))
    } else if name == "INVALID_CURSOR"@ {
        Some(error::failure(1001, "invalid cursor"@))
    } else if name == "CURSOR_ALREADY_OPEN"@ {
        Some(error::failure(6511, "PL/SQL: cursor already open"@))
    } else if name == "CASE_NOT_FOUND"@ {
        Some(error::failure(6592, "CASE not found while executing CASE statement"@))
    } else if name == "PROGRAM_ERROR"@ {
        Some(error::failure(6501, "PL/SQL: program error"@))
    } else if name == "STORAGE_ERROR"@ {
        Some(error::failure(6500, "PL/SQL: storage error"@))
    } else if name == "LOGIN_DENIED"@ {
        Some(error::failure(1017, "invalid username/password; logon denied"@))
    } else if name == "NOT_LOGGED_ON"@ {
        Some(error::failure(1012, "not logged on"@))
    } else if name == "TIMEOUT_ON_RESOURCE"@ {
        Some(error::failure(51, "timeout occurred while waiting for a resource"@))
    } else if name == "ROWTYPE_MISMATCH"@ {
        Some(
            error::failure(
                6504,
                "PL/SQL: Return types of Result Set variables or query do not match"@,
            ),
        )
    } else {
        None
    }
}

fn predefined_error(name: &str) -> (r: Option<OraError>)
    ensures
        match r {
            Some(e) => predefined(name@) == Some(e@),
            None => predefined(name@) is None,
        },
{
    if text::same(name, "NO_DATA_FOUND") {
        Some(OraError::new(1403, "no data found"))
    } else if text::same(name, "TOO_MANY_ROWS") {
        Some(OraError::new(1422, "exact fetch returns more than requested number of rows"))
    } else if text::same(name, "DUP_VAL_ON_INDEX") {
        Some(OraError::new(1, "unique constraint violated"))
    } else if text::same(name, "ZERO_DIVIDE") {
        Some(OraError::new(1476, "divisor is equal to zero"))
    } else if text::same(name, "VALUE_ERROR") {
        Some(OraError::new(6502, "PL/SQL: numeric or value error"))
    } else if text::same(name, "INVALID_NUMBER") {
        Some(OraError::new(1722, "invalid number"))
    } else if text::same(name, "INVALID_CURSOR") {
        Some(OraError::new(1001, "invalid cursor"))
    } else if text::same(name, "CURSOR_ALREADY_OPEN") {
        Some(OraError::new(6511, "PL/SQL: cursor already open"))
    } else if text::same(name, "CASE_NOT_FOUND") {
        Some(OraError::new(6592, "CASE not found while executing CASE statement"))
    } else if text::same(name, "PROGRAM_ERROR") {
        Some(OraError::new(6501, "PL/SQL: program error"))
    } else if text::same(name, "STORAGE_ERROR") {
        Some(OraError::new(6500, "PL/SQL: storage error"))
    } else if text::same(name, "LOGIN_DENIED") {
        Some(OraError::new(1017, "invalid username/password; logon denied"))
    } else if text::same(name, "NOT_LOGGED_ON") {
        Some(OraError::new(1012, "not logged on"))
    } else if text::same(name, "TIMEOUT_ON_RESOURCE") {
        Some(OraError::new(51, "timeout occurred while waiting for a resource"))
    } else if text::same(name, "ROWTYPE_MISMATCH") {
        Some(
            OraError::new(
                6504,
                "PL/SQL: Return types of Result Set variables or query do not match",
            ),
        )
    } else {
        None
    }
}

/// The exception that RAISE raises for a name.
pub open spec fn raise_due(frames: Seq<Level>, name: Seq<char>) -> Raised {
    match vars::find_exception(frames, name, frames.len() as int) {
        Some((a, b)) => Raised {
            err: match frames[a].exceptions[b].1 {
                Some(code) => error::failure(code as int, Seq::empty()),
                None => error::failure(6510, "PL/SQL: unhandled user-defined exception"@),
            },
            user: Some(name),
        },
        None => match predefined(parser::last_part(name)) {
            Some(f) => vars::raised(f),
            None => vars::raised(not_declared(name)),
        },
    }
}

pub fn raise(frames: &Vec<Frame>, name: &str) -> (e: Exc)
    ensures
        e@ == raise_due(vars::levels(frames@), name@),
{
    match vars::exception_place(frames, name) {
        Some((a, b)) => {
            assert(vars::levels(frames@)[a as int] == frames@[a as int]@);
            let err = match frames[a].exceptions[b].1 {
                Some(code) => {
                    let m = String::new();
                    assert(m@ =~= Seq::empty());
                    OraError { code, message: m }
                },
                None => OraError::new(6510, "PL/SQL: unhandled user-defined exception"),
            };
            Exc { err, user: Some(name.to_owned()) }
        },
        None => match predefined_error(&parser::last_part_of(name)) {
            Some(e) => Exc::of(e),
            None => Exc::of(not_declared_error(name)),
        },
    }
}

/// Whether a handler's name catches an exception.
pub open spec fn catches(frames: Seq<Level>, name: Seq<char>, exc: Raised) -> bool {
    if name == "OTHERS"@ {
        true
    } else {
        match vars::find_exception(frames, name, frames.len() as int) {
            Some((a, b)) => match frames[a].exceptions[b].1 {
                Some(code) => exc.err.code == code,
                None => exc.user == Some(name),
            },
            None => match predefined(parser::last_part(name)) {
                Some(f) => exc.err.code == f.code,
                None => false,
            },
        }
    }
}

pub fn matches(frames: &Vec<Frame>, name: &str, exc: &Exc) -> (r: bool)
    ensures
        r == catches(vars::levels(frames@), name@, exc@),
{
    if text::same(name, "OTHERS") {
        return true;
    }
    match vars::exception_place(frames, name) {
        Some((a, b)) => {
            assert(vars::levels(frames@)[a as int] == frames@[a as int]@);
            match frames[a].exceptions[b].1 {
                Some(code) => exc.err.code == code,
                None => match &exc.user {
                    Some(u) => text::same(u, name),
                    None => false,
                },
            }
        },
        None => match predefined_error(&parser::last_part_of(name)) {
            Some(e) => exc.err.code == e.code,
            None => false,
        },
    }
}

/// Whether one of the first `n` names of a handler catches an exception.
pub open spec fn catches_any(
    frames: Seq<Level>,
    names: Seq<Seq<char>>,
    exc: Raised,
    n: int,
) -> bool
    decreases n,
{
    if n <= 0 || n > names.len() {
        false
    } else {
        catches_any(frames, names, exc, n - 1) || catches(frames, names[n - 1], exc)
    }
}

pub fn matches_any(frames: &Vec<Frame>, names: &Vec<String>, exc: &Exc) -> (r: bool)
    ensures
        r == catches_any(
            vars::levels(frames@),
            ast::texts_tree(*names),
            exc@,
            names@.len() as int,
        ),
{
    let ghost all = ast::texts_tree(*names);
    let mut hit = false;
    for i in 0..names.len()
        invariant
            all == ast::texts_tree(*names),
            hit == catches_any(vars::levels(frames@), all, exc@, i as int),
    {
        assert(all[i as int] == names@[i as int]@);
        hit = hit || matches(frames, &names[i], exc);
    }
    hit
}

// ---- types ----

pub open spec fn nulls(names: Seq<Seq<char>>) -> Seq<(Seq<char>, Datum)> {
    Seq::new(names.len(), |i: int| (names[i], Datum::Null))
}

pub open spec fn field_names(f: Seq<(Seq<char>, Datum)>) -> Seq<Seq<char>> {
    Seq::new(f.len(), |i: int| f[i].0)
}

pub open spec fn column_names(s: Sheet) -> Seq<Seq<char>> {
    Seq::new(s.columns.len(), |i: int| s.columns[i].name)
}

/// What a declared type is: the type, and what a variable of it starts with.
pub open spec fn type_due(cat: Cat, frames: Seq<Level>, ty: tree::TypeRef) -> Result<
    (VarType, Held),
    Failure,
> {
    match ty {
        tree::TypeRef::Sql(t) => Ok((VarType::Sql(t), Held::Scalar(Datum::Null))),
        tree::TypeRef::Boolean => Ok((VarType::Boolean, Held::Scalar(Datum::Null))),
        tree::TypeRef::Integer => Ok((VarType::Integer, Held::Scalar(Datum::Null))),
        tree::TypeRef::TypeOf { table, name } => match table {
            Some(t) => {
                let missing = not_declared(t + seq!['.'] + name);
                match cat.table(t) {
                    Some(i) => match cat.tables[i].column_index(name) {
                        Some(k) => Ok(
                            (
                                VarType::Sql(cat.tables[i].columns[k].sql_type),
                                Held::Scalar(Datum::Null),
                            ),
                        ),
                        None => Err(missing),
                    },
                    None => Err(missing),
                }
            },
            None => match vars::find_var(frames, name, frames.len() as int) {
                Some((a, b)) => {
                    let v = frames[a].vars[b].1;
                    match v.slot {
                        Held::Scalar(_) => Ok((v.ty, Held::Scalar(Datum::Null))),
                        Held::Record(f) => Ok(
                            (VarType::Record, Held::Record(nulls(field_names(f)))),
                        ),
                    }
                },
                None => Err(not_declared(name)),
            },
        },
        tree::TypeRef::RowType(name) => if vars::find_cursor(
            frames,
            name,
            frames.len() as int,
        ) is Some {
            Ok((VarType::Record, Held::Record(Seq::empty())))
        } else {
            match cat.table(name) {
                Some(i) => Ok(
                    (VarType::Record, Held::Record(nulls(column_names(cat.tables[i])))),
                ),
                None => Err(not_declared(name)),
            }
        },
    }
}

fn null_fields(f: &Vec<(String, Value)>) -> (r: Vec<(String, Value)>)
    ensures
        vars::record_of(r@) == nulls(field_names(vars::record_of(f@))),
{
    let mut out: Vec<(String, Value)> = Vec::new();
    for i in 0..f.len()
        invariant
            out@.len() == i,
            forall|k: int|
                0 <= k < i ==> (#[trigger] out@[k]).0@ == f@[k].0@ && out@[k].1@ == Datum::Null,
    {
        out.push((f[i].0.clone(), Value::Null));
    }
    assert(vars::record_of(out@) =~= nulls(field_names(vars::record_of(f@))));
    out
}

fn null_columns(t: &catalog::Table) -> (r: Vec<(String, Value)>)
    ensures
        vars::record_of(r@) == nulls(column_names(t@)),
{
    let mut out: Vec<(String, Value)> = Vec::new();
    for i in 0..t.columns.len()
        invariant
            out@.len() == i,
            forall|k: int|
                0 <= k < i ==> (#[trigger] out@[k]).0@ == t.columns@[k].name@ && out@[k].1@
                    == Datum::Null,
    {
        out.push((t.columns[i].name.clone(), Value::Null));
    }
    assert(vars::record_of(out@) =~= nulls(column_names(t@)));
    out
}

/// Resolves a declared type.
pub fn var_type(cat: &Catalog, frames: &Vec<Frame>, ty: &TypeRef) -> (r: Result<
    (VarType, Slot),
    OraError,
>)
    ensures
        match r {
            Ok((t, s)) => type_due(cat@, vars::levels(frames@), ty@) == Ok::<
                (VarType, Held),
                Failure,
            >((t, s@)),
            Err(e) => type_due(cat@, vars::levels(frames@), ty@) == Err::<(VarType, Held), Failure>(
                e@,
            ),
        },
{
    match ty {
        TypeRef::Sql(t) => Ok((VarType::Sql(*t), Slot::Scalar(Value::Null))),
        TypeRef::Boolean => Ok((VarType::Boolean, Slot::Scalar(Value::Null))),
        TypeRef::Integer => Ok((VarType::Integer, Slot::Scalar(Value::Null))),
        TypeRef::TypeOf { table, name } => match table {
            Some(t) => {
                match cat.table(t) {
                    Some(i) => {
                        assert(cat@.tables[i as int] == cat.tables@[i as int]@);
                        match cat.tables[i].column_index(name) {
                            Some(k) => {
                                assert(cat.tables@[i as int]@.columns[k as int]
                                    == cat.tables@[i as int].columns@[k as int]@);
                                return Ok(
                                    (
                                        VarType::Sql(cat.tables[i].columns[k].sql_type),
                                        Slot::Scalar(Value::Null),
                                    ),
                                );
                            },
                            None => {},
                        }
                    },
                    None => {},
                }
                let mut full = t.clone();
                full.push('.');
                full.append(name);
                assert(full@ =~= t@ + seq!['.'] + name@);
                Err(not_declared_error(&full))
            },
            None => match vars::var_place(frames, name) {
                Some((a, b)) => {
                    assert(vars::levels(frames@)[a as int] == frames@[a as int]@);
                    let v = &frames[a].vars[b].1;
                    match &v.slot {
                        Slot::Scalar(_) => Ok((v.ty, Slot::Scalar(Value::Null))),
                        Slot::Record(f) => Ok((VarType::Record, Slot::Record(null_fields(f)))),
                    }
                },
                None => Err(not_declared_error(name)),
            },
        },
        TypeRef::RowType(name) => {
            if vars::cursor_place(frames, name).is_some() {
                let none: Vec<(String, Value)> = Vec::new();
                assert(vars::record_of(none@) =~= Seq::empty());
                return Ok((VarType::Record, Slot::Record(none)));
            }
            match cat.table(name) {
                Some(i) => {
                    assert(cat@.tables[i as int] == cat.tables@[i as int]@);
                    Ok((VarType::Record, Slot::Record(null_columns(&cat.tables[i]))))
                },
                None => Err(not_declared_error(name)),
            }
        },
    }
}

/// A value as a variable of a type holds it.
#[verifier::opaque]
pub open spec fn converted(env: Setting, ty: VarType, v: Datum) -> Result<Datum, Failure> {
    if v is Null {
        Ok(Datum::Null)
    } else {
        match ty {
            VarType::Record => Err(wrong_type()),
            VarType::Boolean => if v is Boolean {
                Ok(v)
            } else {
                Err(wrong_type())
            },
            VarType::Integer => if v is Boolean {
                Err(wrong_type())
            } else {
                match value::as_number(v) {
                    Err(e) => Err(as_value_error(e)),
                    Ok(None) => Ok(Datum::Null),
                    Ok(Some(n)) => functions::numeric(
                        functions::in_range(number::rounded(n, 0, Rounding::HalfUp)),
                    ),
                }
            },
            VarType::Sql(t) => if v is Boolean {
                Err(wrong_type())
            } else {
                match store::stored_value(
                    env,
                    Place { user: env.user, table: Seq::empty(), column: Seq::empty() },
                    t,
                    v,
                ) {
                    Err(e) => Err(as_value_error(e)),
                    Ok(v) => Ok(v),
                }
            },
        }
    }
}

/// Converts a value for a variable of type `ty`.
pub fn convert(env: &Env, ty: VarType, v: Value) -> (r: Result<Value, OraError>)
    ensures
        functions::gives(converted(env@, ty, v@), r),
{
    proof {
        reveal(converted);
    }
    if v.is_null() {
        return Ok(Value::Null);
    }
    match ty {
        VarType::Record => Err(wrong_type_error()),
        VarType::Boolean => match v {
            Value::Boolean(_) => Ok(v),
            _ => Err(wrong_type_error()),
        },
        VarType::Integer => {
            if let Value::Boolean(_) = v {
                return Err(wrong_type_error());
            }
            match v.to_number() {
                Err(e) => Err(to_value_error(e)),
                Ok(None) => Ok(Value::Null),
                Ok(Some(n)) => match functions::settled(n.round(0, Rounding::HalfUp)) {
                    Ok(n) => Ok(Value::Number(n)),
                    Err(e) => Err(e),
                },
            }
        },
        VarType::Sql(t) => {
            if let Value::Boolean(_) = v {
                return Err(wrong_type_error());
            }
            let empty = String::new();
            assert(empty@ =~= Seq::<char>::empty());
            match store::store_value(env, &env.user, &empty, &empty, t, v) {
                Ok(v) => Ok(v),
                Err(e) => Err(to_value_error(e)),
            }
        },
    }
}

} // verus!
