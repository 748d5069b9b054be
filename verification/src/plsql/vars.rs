//! What a running block holds: variables, cursors, exceptions and local routines.

use std::sync::Arc;

use vstd::prelude::*;
use vstd::string::*;

use crate::ast;
use crate::error::{Failure, OraError};
use crate::functions;
use crate::number;
use crate::plsql;
use crate::plsql::{CursorDecl, Routine};
use crate::text;
use crate::tree;
use crate::value;
use crate::value::{Datum, SqlType, Value};

verus! {

/// An exception in flight. User-defined exceptions carry their name so handlers can
/// catch them.
pub struct Exc {
    pub err: OraError,
    pub user: Option<String>,
}

/// What an exception is.
pub struct Raised {
    pub err: Failure,
    pub user: Option<Seq<char>>,
}

impl View for Exc {
    type V = Raised;

    open spec fn view(&self) -> Raised {
        Raised { err: self.err@, user: ast::opt_text_tree(self.user) }
    }
}

impl Raised {
    /// SQLCODE: negative Oracle error codes, +1 for user-defined exceptions and +100
    /// for NO_DATA_FOUND.
    pub open spec fn sqlcode(self) -> int {
        if self.user is Some && self.err.code == 6510 {
            1
        } else if self.err.code == 1403 {
            100
        } else {
            -self.err.code
        }
    }

    pub open spec fn sqlerrm(self) -> Seq<char> {
        if self.user is Some && self.err.code == 6510 {
            "User-Defined Exception"@
        } else {
            "ORA-"@ + text::zero_filled(text::decimal(self.err.code as nat), 5) + ": "@
                + self.err.message
        }
    }
}

/// An error that no block raised by name.
pub open spec fn raised(f: Failure) -> Raised {
    Raised { err: f, user: None }
}

impl Exc {
    pub fn of(err: OraError) -> (e: Exc)
        ensures
            e@ == raised(err@),
    {
        Exc { err, user: None }
    }

    pub fn copy(&self) -> (e: Exc)
        ensures
            e@ == self@,
    {
        Exc {
            err: OraError { code: self.err.code, message: self.err.message.clone() },
            user: ast::copy_opt_text(&self.user),
        }
    }

    pub fn sqlcode(&self) -> (n: i64)
        ensures
            n == self@.sqlcode(),
    {
        if self.user.is_some() && self.err.code == 6510 {
            1
        } else if self.err.code == 1403 {
            100
        } else {
            -(self.err.code as i64)
        }
    }

    pub fn sqlerrm(&self) -> (s: String)
        ensures
            s@ == self@.sqlerrm(),
    {
        if self.user.is_some() && self.err.code == 6510 {
            "User-Defined Exception".to_owned()
        } else {
            self.err.to_string()
        }
    }
}

#[derive(Clone, Copy, PartialEq, Eq, Structural)]
pub enum VarType {
    Sql(SqlType),
    Boolean,
    Integer,
    Record,
}

pub enum Slot {
    Scalar(Value),
    /// Field names and values. Empty until the record is first filled, unless declared
    /// with a table's %ROWTYPE.
    Record(Vec<(String, Value)>),
}

/// What a variable holds.
pub enum Held {
    Scalar(Datum),
    Record(Seq<(Seq<char>, Datum)>),
}

pub open spec fn record_of(f: Seq<(String, Value)>) -> Seq<(Seq<char>, Datum)> {
    Seq::new(f.len(), |i: int| (f[i].0@, f[i].1@))
}

impl View for Slot {
    type V = Held;

    open spec fn view(&self) -> Held {
        match self {
            Slot::Scalar(v) => Held::Scalar(v@),
            Slot::Record(f) => Held::Record(record_of(f@)),
        }
    }
}

pub struct Var {
    pub ty: VarType,
    pub slot: Slot,
    pub constant: bool,
    pub not_null: bool,
}

pub struct Variable {
    pub ty: VarType,
    pub slot: Held,
    pub constant: bool,
    pub not_null: bool,
}

impl View for Var {
    type V = Variable;

    open spec fn view(&self) -> Variable {
        Variable {
            ty: self.ty,
            slot: self.slot@,
            constant: self.constant,
            not_null: self.not_null,
        }
    }
}

pub struct OpenCursor {
    pub rows: Vec<Vec<Value>>,
    pub columns: Vec<String>,
    pub rowcount: i64,
    /// Whether the last FETCH returned a row; `None` before the first FETCH.
    pub found: Option<bool>,
}

pub struct Opened {
    pub rows: Seq<Seq<Datum>>,
    pub columns: Seq<Seq<char>>,
    pub rowcount: int,
    pub found: Option<bool>,
}

pub open spec fn value_rows(r: Seq<Vec<Value>>) -> Seq<Seq<Datum>> {
    Seq::new(r.len(), |i: int| functions::views(r[i]@))
}

impl View for OpenCursor {
    type V = Opened;

    open spec fn view(&self) -> Opened {
        Opened {
            rows: value_rows(self.rows@),
            columns: ast::texts_tree(self.columns),
            rowcount: self.rowcount as int,
            found: self.found,
        }
    }
}

pub open spec fn opt_opened(o: Option<OpenCursor>) -> Option<Opened> {
    match o {
        Some(o) => Some(o@),
        None => None,
    }
}

pub struct Cursor {
    pub decl: CursorDecl,
    pub open: Option<OpenCursor>,
}

pub struct CursorState {
    pub decl: tree::CursorDecl,
    pub open: Option<Opened>,
}

impl View for Cursor {
    type V = CursorState;

    open spec fn view(&self) -> CursorState {
        CursorState {
            decl: self.decl@,
            open: opt_opened(self.open),
        }
    }
}

/// What one block declares.
pub struct Frame {
    pub vars: Vec<(String, Var)>,
    /// User-defined exceptions, with the error code PRAGMA EXCEPTION_INIT gave them.
    pub exceptions: Vec<(String, Option<u32>)>,
    pub cursors: Vec<(String, Cursor)>,
    pub routines: Vec<Arc<Routine>>,
}

pub struct Level {
    pub vars: Seq<(Seq<char>, Variable)>,
    pub exceptions: Seq<(Seq<char>, Option<u32>)>,
    pub cursors: Seq<(Seq<char>, CursorState)>,
    pub routines: Seq<tree::Routine>,
}

pub open spec fn vars_of(v: Seq<(String, Var)>) -> Seq<(Seq<char>, Variable)> {
    Seq::new(v.len(), |i: int| (v[i].0@, v[i].1@))
}

pub open spec fn exceptions_of(v: Seq<(String, Option<u32>)>) -> Seq<(Seq<char>, Option<u32>)> {
    Seq::new(v.len(), |i: int| (v[i].0@, v[i].1))
}

pub open spec fn cursors_of(v: Seq<(String, Cursor)>) -> Seq<(Seq<char>, CursorState)> {
    Seq::new(v.len(), |i: int| (v[i].0@, v[i].1@))
}

pub open spec fn routines_of(v: Seq<Arc<Routine>>) -> Seq<tree::Routine> {
    Seq::new(v.len(), |i: int| plsql::routine_tree(*v[i]))
}

impl View for Frame {
    type V = Level;

    open spec fn view(&self) -> Level {
        Level {
            vars: vars_of(self.vars@),
            exceptions: exceptions_of(self.exceptions@),
            cursors: cursors_of(self.cursors@),
            routines: routines_of(self.routines@),
        }
    }
}

pub open spec fn levels(f: Seq<Frame>) -> Seq<Level> {
    Seq::new(f.len(), |i: int| f[i]@)
}

pub open spec fn no_level() -> Level {
    Level {
        vars: Seq::empty(),
        exceptions: Seq::empty(),
        cursors: Seq::empty(),
        routines: Seq::empty(),
    }
}

impl Frame {
    pub fn new() -> (f: Frame)
        ensures
            f@ == no_level(),
    {
        let f = Frame {
            vars: Vec::new(),
            exceptions: Vec::new(),
            cursors: Vec::new(),
            routines: Vec::new(),
        };
        assert(f@.vars =~= Seq::empty());
        assert(f@.exceptions =~= Seq::empty());
        assert(f@.cursors =~= Seq::empty());
        assert(f@.routines =~= Seq::empty());
        f
    }
}

/// The last place among the first `n` that has a name.
pub open spec fn last_named<A>(s: Seq<(Seq<char>, A)>, name: Seq<char>, n: int) -> Option<int>
    decreases n,
{
    if n <= 0 || n > s.len() {
        None
    } else if s[n - 1].0 == name {
        Some(n - 1)
    } else {
        last_named(s, name, n - 1)
    }
}

/// The variable of a name that the innermost block declares: its block and its place.
pub open spec fn find_var(frames: Seq<Level>, name: Seq<char>, n: int) -> Option<(int, int)>
    decreases n,
{
    if n <= 0 || n > frames.len() {
        None
    } else {
        match last_named(frames[n - 1].vars, name, frames[n - 1].vars.len() as int) {
            Some(k) => Some((n - 1, k)),
            None => find_var(frames, name, n - 1),
        }
    }
}

pub open spec fn find_cursor(frames: Seq<Level>, name: Seq<char>, n: int) -> Option<(int, int)>
    decreases n,
{
    if n <= 0 || n > frames.len() {
        None
    } else {
        match last_named(frames[n - 1].cursors, name, frames[n - 1].cursors.len() as int) {
            Some(k) => Some((n - 1, k)),
            None => find_cursor(frames, name, n - 1),
        }
    }
}

pub open spec fn find_exception(frames: Seq<Level>, name: Seq<char>, n: int) -> Option<(int, int)>
    decreases n,
{
    if n <= 0 || n > frames.len() {
        None
    } else {
        match last_named(frames[n - 1].exceptions, name, frames[n - 1].exceptions.len() as int) {
            Some(k) => Some((n - 1, k)),
            None => find_exception(frames, name, n - 1),
        }
    }
}

fn last_var(v: &Vec<(String, Var)>, name: &str) -> (r: Option<usize>)
    ensures
        match r {
            Some(k) => last_named(vars_of(v@), name@, v@.len() as int) == Some(k as int) && k
                < v@.len(),
            None => last_named(vars_of(v@), name@, v@.len() as int) is None,
        },
{
    let mut n: usize = v.len();
    while n > 0
        invariant
            n <= v@.len(),
            last_named(vars_of(v@), name@, v@.len() as int) == last_named(
                vars_of(v@),
                name@,
                n as int,
            ),
        decreases n,
    {
        assert(vars_of(v@)[n - 1].0 == v@[n - 1].0@);
        if text::same(&v[n - 1].0, name) {
            return Some(n - 1);
        }
        n = n - 1;
    }
    None
}

fn last_cursor(v: &Vec<(String, Cursor)>, name: &str) -> (r: Option<usize>)
    ensures
        match r {
            Some(k) => last_named(cursors_of(v@), name@, v@.len() as int) == Some(k as int) && k
                < v@.len(),
            None => last_named(cursors_of(v@), name@, v@.len() as int) is None,
        },
{
    let mut n: usize = v.len();
    while n > 0
        invariant
            n <= v@.len(),
            last_named(cursors_of(v@), name@, v@.len() as int) == last_named(
                cursors_of(v@),
                name@,
                n as int,
            ),
        decreases n,
    {
        assert(cursors_of(v@)[n - 1].0 == v@[n - 1].0@);
        if text::same(&v[n - 1].0, name) {
            return Some(n - 1);
        }
        n = n - 1;
    }
    None
}

fn last_exception(v: &Vec<(String, Option<u32>)>, name: &str) -> (r: Option<usize>)
    ensures
        match r {
            Some(k) => last_named(exceptions_of(v@), name@, v@.len() as int) == Some(k as int) && k
                < v@.len(),
            None => last_named(exceptions_of(v@), name@, v@.len() as int) is None,
        },
{
    let mut n: usize = v.len();
    while n > 0
        invariant
            n <= v@.len(),
            last_named(exceptions_of(v@), name@, v@.len() as int) == last_named(
                exceptions_of(v@),
                name@,
                n as int,
            ),
        decreases n,
    {
        assert(exceptions_of(v@)[n - 1].0 == v@[n - 1].0@);
        if text::same(&v[n - 1].0, name) {
            return Some(n - 1);
        }
        n = n - 1;
    }
    None
}

/// Whether a place is that of a variable.
pub open spec fn is_place(r: Option<(usize, usize)>, found: Option<(int, int)>) -> bool {
    match r {
        Some((a, b)) => found == Some((a as int, b as int)),
        None => found is None,
    }
}

pub fn var_place(frames: &Vec<Frame>, name: &str) -> (r: Option<(usize, usize)>)
    ensures
        is_place(r, find_var(levels(frames@), name@, frames@.len() as int)),
        r matches Some((a, b)) ==> a < frames@.len() && b < frames@[a as int].vars@.len(),
{
    let mut n: usize = frames.len();
    while n > 0
        invariant
            n <= frames@.len(),
            find_var(levels(frames@), name@, frames@.len() as int) == find_var(
                levels(frames@),
                name@,
                n as int,
            ),
        decreases n,
    {
        assert(levels(frames@)[n - 1] == frames@[n - 1]@);
        match last_var(&frames[n - 1].vars, name) {
            Some(k) => {
                return Some((n - 1, k));
            },
            None => {},
        }
        n = n - 1;
    }
    None
}

pub fn cursor_place(frames: &Vec<Frame>, name: &str) -> (r: Option<(usize, usize)>)
    ensures
        is_place(r, find_cursor(levels(frames@), name@, frames@.len() as int)),
        r matches Some((a, b)) ==> a < frames@.len() && b < frames@[a as int].cursors@.len(),
{
    let mut n: usize = frames.len();
    while n > 0
        invariant
            n <= frames@.len(),
            find_cursor(levels(frames@), name@, frames@.len() as int) == find_cursor(
                levels(frames@),
                name@,
                n as int,
            ),
        decreases n,
    {
        assert(levels(frames@)[n - 1] == frames@[n - 1]@);
        match last_cursor(&frames[n - 1].cursors, name) {
            Some(k) => {
                return Some((n - 1, k));
            },
            None => {},
        }
        n = n - 1;
    }
    None
}

pub fn exception_place(frames: &Vec<Frame>, name: &str) -> (r: Option<(usize, usize)>)
    ensures
        is_place(r, find_exception(levels(frames@), name@, frames@.len() as int)),
        r matches Some((a, b)) ==> a < frames@.len() && b < frames@[a as int].exceptions@.len(),
{
    let mut n: usize = frames.len();
    while n > 0
        invariant
            n <= frames@.len(),
            find_exception(levels(frames@), name@, frames@.len() as int) == find_exception(
                levels(frames@),
                name@,
                n as int,
            ),
        decreases n,
    {
        assert(levels(frames@)[n - 1] == frames@[n - 1]@);
        match last_exception(&frames[n - 1].exceptions, name) {
            Some(k) => {
                return Some((n - 1, k));
            },
            None => {},
        }
        n = n - 1;
    }
    None
}

/// The variables a SQL expression sees, borrowed from the interpreter.
pub struct Vars<'a> {
    pub frames: &'a Vec<Frame>,
    /// SQL%ROWCOUNT and friends: the last SQL statement's row count.
    pub rowcount: Option<i64>,
    pub handling: Option<&'a Exc>,
}

pub struct Visible {
    pub frames: Seq<Level>,
    pub rowcount: Option<int>,
    pub handling: Option<Raised>,
}

pub open spec fn opt_count(n: Option<i64>) -> Option<int> {
    match n {
        Some(n) => Some(n as int),
        None => None,
    }
}

impl<'a> View for Vars<'a> {
    type V = Visible;

    open spec fn view(&self) -> Visible {
        Visible {
            frames: levels(self.frames@),
            rowcount: opt_count(self.rowcount),
            handling: match self.handling {
                Some(e) => Some(e@),
                None => None,
            },
        }
    }
}

pub open spec fn truth_value(b: Option<bool>) -> Datum {
    match b {
        Some(b) => Datum::Boolean(b),
        None => Datum::Null,
    }
}

pub fn bool_value(b: Option<bool>) -> (v: Value)
    ensures
        v@ == truth_value(b),
{
    match b {
        Some(b) => Value::Boolean(b),
        None => Value::Null,
    }
}

pub open spec fn integer_value(n: int) -> Datum {
    Datum::Number(number::integer(n))
}

/// The first field of a name.
pub open spec fn field_value(f: Seq<(Seq<char>, Datum)>, name: Seq<char>, i: int) -> Option<Datum>
    decreases f.len() - i,
{
    if i < 0 || i >= f.len() {
        None
    } else if f[i].0 == name {
        Some(f[i].1)
    } else {
        field_value(f, name, i + 1)
    }
}

fn find_field(f: &Vec<(String, Value)>, name: &str) -> (r: Option<Value>)
    ensures
        opt_datum(r) == field_value(record_of(f@), name@, 0),
{
    let total: usize = f.len();
    let mut i: usize = 0;
    while i < total
        invariant
            i <= total == f@.len(),
            field_value(record_of(f@), name@, 0) == field_value(record_of(f@), name@, i as int),
        decreases total - i,
    {
        assert(record_of(f@)[i as int] == (f@[i as int].0@, f@[i as int].1@));
        if text::same(&f[i].0, name) {
            return Some(f[i].1.clone());
        }
        i = i + 1;
    }
    None
}

pub open spec fn opt_datum(v: Option<Value>) -> Option<Datum> {
    match v {
        Some(v) => Some(v@),
        None => None,
    }
}

/// SQL%ROWCOUNT and friends.
pub open spec fn sql_attribute(rowcount: Option<int>, name: Seq<char>) -> Option<Datum> {
    if name == "ROWCOUNT"@ {
        Some(
            match rowcount {
                Some(n) => integer_value(n),
                None => Datum::Null,
            },
        )
    } else if name == "FOUND"@ {
        Some(
            match rowcount {
                Some(n) => Datum::Boolean(n > 0),
                None => Datum::Null,
            },
        )
    } else if name == "NOTFOUND"@ {
        Some(
            match rowcount {
                Some(n) => Datum::Boolean(n == 0),
                None => Datum::Null,
            },
        )
    } else if name == "ISOPEN"@ {
        Some(Datum::Boolean(false))
    } else {
        None
    }
}

/// An attribute of a declared cursor. Of a closed one, all but ISOPEN are NULL.
pub open spec fn cursor_attribute(open: Option<Opened>, name: Seq<char>) -> Option<Datum> {
    if name == "ISOPEN"@ {
        Some(Datum::Boolean(open is Some))
    } else if name == "FOUND"@ {
        Some(
            match open {
                Some(o) => truth_value(o.found),
                None => Datum::Null,
            },
        )
    } else if name == "NOTFOUND"@ {
        Some(
            match open {
                Some(o) => match o.found {
                    Some(f) => Datum::Boolean(!f),
                    None => Datum::Null,
                },
                None => Datum::Null,
            },
        )
    } else if name == "ROWCOUNT"@ {
        Some(
            match open {
                Some(o) => integer_value(o.rowcount),
                None => Datum::Null,
            },
        )
    } else {
        None
    }
}

impl Visible {
    /// What a name stands for in a block.
    pub open spec fn lookup(self, qualifier: Option<Seq<char>>, name: Seq<char>) -> Option<Datum> {
        match qualifier {
            None => match find_var(self.frames, name, self.frames.len() as int) {
                Some((a, b)) => match self.frames[a].vars[b].1.slot {
                    Held::Scalar(v) => Some(v),
                    Held::Record(_) => None,
                },
                None => if name == "SQLCODE"@ {
                    Some(
                        integer_value(
                            match self.handling {
                                Some(e) => e.sqlcode(),
                                None => 0,
                            },
                        ),
                    )
                } else if name == "SQLERRM"@ {
                    Some(
                        value::varchar(
                            match self.handling {
                                Some(e) => e.sqlerrm(),
                                None => "ORA-0000: normal, successful completion"@,
                            },
                        ),
                    )
                } else {
                    None
                },
            },
            Some(q) => if q == "SQL%"@ {
                sql_attribute(self.rowcount, name)
            } else if q.len() > 0 && q.last() == '%' {
                match find_cursor(self.frames, q.drop_last(), self.frames.len() as int) {
                    Some((a, b)) => cursor_attribute(self.frames[a].cursors[b].1.open, name),
                    None => None,
                }
            } else {
                match find_var(self.frames, q, self.frames.len() as int) {
                    Some((a, b)) => match self.frames[a].vars[b].1.slot {
                        Held::Record(f) => field_value(f, name, 0),
                        Held::Scalar(_) => None,
                    },
                    None => None,
                }
            },
        }
    }
}

impl<'a> Vars<'a> {
    fn sql_attribute(&self, name: &str) -> (r: Option<Value>)
        ensures
            opt_datum(r) == sql_attribute(self@.rowcount, name@),
    {
        if text::same(name, "ROWCOUNT") {
            Some(
                match self.rowcount {
                    Some(n) => Value::number(n),
                    None => Value::Null,
                },
            )
        } else if text::same(name, "FOUND") {
            Some(
                match self.rowcount {
                    Some(n) => Value::Boolean(n > 0),
                    None => Value::Null,
                },
            )
        } else if text::same(name, "NOTFOUND") {
            Some(
                match self.rowcount {
                    Some(n) => Value::Boolean(n == 0),
                    None => Value::Null,
                },
            )
        } else if text::same(name, "ISOPEN") {
            Some(Value::Boolean(false))
        } else {
            None
        }
    }

    fn variable(&self, name: &str) -> (r: Option<Value>)
        ensures
            opt_datum(r) == self@.lookup(None, name@),
    {
        match var_place(self.frames, name) {
            Some((a, b)) => {
                assert(levels(self.frames@)[a as int] == self.frames@[a as int]@);
                match &self.frames[a].vars[b].1.slot {
                    Slot::Scalar(v) => Some(v.clone()),
                    Slot::Record(_) => None,
                }
            },
            None => if text::same(name, "SQLCODE") {
                Some(
                    Value::number(
                        match self.handling {
                            Some(e) => e.sqlcode(),
                            None => 0,
                        },
                    ),
                )
            } else if text::same(name, "SQLERRM") {
                Some(
                    match self.handling {
                        Some(e) => Value::varchar(&e.sqlerrm()),
                        None => Value::varchar("ORA-0000: normal, successful completion"),
                    },
                )
            } else {
                None
            },
        }
    }

    /// What a name stands for in a block.
    pub fn lookup(&self, qualifier: Option<&str>, name: &str) -> (r: Option<Value>)
        ensures
            opt_datum(r) == self@.lookup(
                match qualifier {
                    Some(q) => Some(q@),
                    None => None,
                },
                name@,
            ),
    {
        match qualifier {
            None => self.variable(name),
            Some(q) => {
                if text::same(q, "SQL%") {
                    return self.sql_attribute(name);
                }
                let c = text::chars_of(q);
                let n: usize = c.len();
                if n > 0 && c[n - 1] == '%' {
                    let short = text::slice(&c, 0, n - 1);
                    assert(short@ =~= q@.drop_last());
                    match cursor_place(self.frames, &text::string_of(&short)) {
                        Some((a, b)) => {
                            assert(levels(self.frames@)[a as int] == self.frames@[a as int]@);
                            attribute_of(&self.frames[a].cursors[b].1.open, name)
                        },
                        None => None,
                    }
                } else {
                    match var_place(self.frames, q) {
                        Some((a, b)) => {
                            assert(levels(self.frames@)[a as int] == self.frames@[a as int]@);
                            match &self.frames[a].vars[b].1.slot {
                                Slot::Record(f) => find_field(f, name),
                                Slot::Scalar(_) => None,
                            }
                        },
                        None => None,
                    }
                }
            },
        }
    }
}

fn attribute_of(open: &Option<OpenCursor>, name: &str) -> (r: Option<Value>)
    ensures
        opt_datum(r) == cursor_attribute(opt_opened(*open), name@),
{
    if text::same(name, "ISOPEN") {
        Some(Value::Boolean(open.is_some()))
    } else if text::same(name, "FOUND") {
        Some(
            match open {
                Some(o) => bool_value(o.found),
                None => Value::Null,
            },
        )
    } else if text::same(name, "NOTFOUND") {
        Some(
            match open {
                Some(o) => match o.found {
                    Some(f) => Value::Boolean(!f),
                    None => Value::Null,
                },
                None => Value::Null,
            },
        )
    } else if text::same(name, "ROWCOUNT") {
        Some(
            match open {
                Some(o) => Value::number(o.rowcount),
                None => Value::Null,
            },
        )
    } else {
        None
    }
}

} // verus!
