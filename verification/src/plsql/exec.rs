//! Running PL/SQL.
//!
//! The interpreter works on a session and its database. A run that is read-only, as when SQL
//! calls a stored function, may not change data.

use std::sync::Arc;

use vstd::prelude::*;
use vstd::string::*;

use crate::ast;
use crate::ast::{BinaryOp, Expr, Query, Returning, Statement};
use crate::dml;
use crate::dml::Column;
use crate::error;
use crate::error::{Failure, OraError};
use crate::eval;
use crate::number;
use crate::number::Rounding;
use crate::parser;
use crate::plsql::assign;
use crate::plsql::state;
use crate::plsql::state::Run;
use crate::plsql::vars;
use crate::plsql::vars::{
    Cursor,
    CursorState,
    Exc,
    Held,
    Level,
    Opened,
    Raised,
    Var,
    VarType,
    Variable,
};
use crate::plsql::{
    Arg, Block, CursorDecl, CursorSource, Decl, Handler, Param, ParamMode, Routine, Stmt, Target,
};
use crate::session;
use crate::session::{Gain, World};
use crate::strings;
use crate::text;
use crate::tree;
use crate::value;
use crate::value::{Datum, Value};

verus! {

/// How deep procedure and function calls may nest.
pub const MAX_CALL_DEPTH: u32 = 50;

/// A session with its database, and what the running block holds.
pub struct State {
    pub w: World,
    pub l: Run,
}

/// How a block runs.
#[derive(Clone, Copy, PartialEq, Eq, Structural)]
pub struct Mode {
    pub read_only: bool,
    /// How deep calls are nested.
    pub depth: u32,
}

/// What a step leaves, and what it gives or raises.
pub struct Out<A> {
    pub s: State,
    pub r: Result<A, Raised>,
}

pub open spec fn fine<A>(s: State, v: A) -> Out<A> {
    Out { s, r: Ok(v) }
}

pub open spec fn thrown<A>(s: State, e: Raised) -> Out<A> {
    Out { s, r: Err(e) }
}

pub open spec fn failing<A>(s: State, f: Failure) -> Out<A> {
    Out { s, r: Err(vars::raised(f)) }
}

/// A step that runs out of steps.
pub open spec fn exhausted<A>(s: State) -> Out<A> {
    failing(s, error::failure(6500, "PL/SQL: storage error"@))
}

pub fn exhaustion() -> (e: Exc)
    ensures
        e@ == vars::raised(error::failure(6500, "PL/SQL: storage error"@)),
{
    Exc::of(OraError::new(6500, "PL/SQL: storage error"))
}

/// Whether floating point arithmetic leaves open what a step gives.
pub open spec fn open_ended<A>(r: Result<A, Raised>) -> bool {
    r matches Err(e) && e.err == eval::free()
}

pub open spec fn as_raised<A>(r: Result<A, Failure>) -> Result<A, Raised> {
    match r {
        Ok(v) => Ok(v),
        Err(f) => Err(vars::raised(f)),
    }
}

/// Where a block goes on.
pub enum Flow {
    Normal,
    Exit(Option<String>),
    Continue(Option<String>),
    Return(Option<Value>),
}

pub enum Course {
    Normal,
    Exit(Option<Seq<char>>),
    Continue(Option<Seq<char>>),
    Return(Option<Datum>),
}

impl View for Flow {
    type V = Course;

    open spec fn view(&self) -> Course {
        match self {
            Flow::Normal => Course::Normal,
            Flow::Exit(l) => Course::Exit(ast::opt_text_tree(*l)),
            Flow::Continue(l) => Course::Continue(ast::opt_text_tree(*l)),
            Flow::Return(v) => Course::Return(vars::opt_datum(*v)),
        }
    }
}

// ---- names ----

pub open spec fn last_routine(r: Seq<tree::Routine>, name: Seq<char>, n: int) -> Option<int>
    decreases n,
{
    if n <= 0 || n > r.len() {
        None
    } else if r[n - 1].name == name {
        Some(n - 1)
    } else {
        last_routine(r, name, n - 1)
    }
}

pub open spec fn local_routine(frames: Seq<Level>, name: Seq<char>, n: int) -> Option<tree::Routine>
    decreases n,
{
    if n <= 0 || n > frames.len() {
        None
    } else {
        let r = frames[n - 1].routines;
        match last_routine(r, name, r.len() as int) {
            Some(k) => Some(r[k]),
            None => local_routine(frames, name, n - 1),
        }
    }
}

/// Whether a name has more than one dot.
pub open spec fn far(name: Seq<char>) -> bool {
    match strings::index_from(name, '.', 0) {
        Some(k) => strings::index_from(name, '.', k + 1) is Some,
        None => false,
    }
}

/// A local or stored procedure or function. A schema prefix is ignored.
#[verifier::opaque]
pub open spec fn find_routine(s: State, name: Seq<char>) -> Option<tree::Routine> {
    match local_routine(s.l.frames, name, s.l.frames.len() as int) {
        Some(r) => Some(r),
        None => if far(name) {
            None
        } else {
            match s.w.store.state.routine(parser::last_part(name)) {
                Some(i) => Some(s.w.store.state.routines[i]),
                None => None,
            }
        },
    }
}

/// Whether an expression calls a procedure or function outside any subquery.
pub open spec fn has_call(s: State, e: tree::Expr) -> bool
    decreases e, 0int,
{
    match e {
        tree::Expr::Column { table, name } => table is None && vars::find_var(
            s.l.frames,
            name,
            s.l.frames.len() as int,
        ) is None && find_routine(s, name) is Some,
        tree::Expr::Function { name, args, .. } => find_routine(s, name) is Some || any_call(
            s,
            args,
            args.len() as int,
        ),
        tree::Expr::Neg(a) => has_call(s, *a),
        tree::Expr::Not(a) => has_call(s, *a),
        tree::Expr::Binary(_, a, b) => has_call(s, *a) || has_call(s, *b),
        tree::Expr::IsNull { expr, .. } => has_call(s, *expr),
        tree::Expr::Between { expr, low, high, .. } => has_call(s, *expr) || has_call(s, *low)
            || has_call(s, *high),
        tree::Expr::InList { expr, list, .. } => has_call(s, *expr) || any_call(
            s,
            list,
            list.len() as int,
        ),
        tree::Expr::Like { expr, pattern, escape, .. } => has_call(s, *expr) || has_call(
            s,
            *pattern,
        ) || opt_call(s, escape),
        tree::Expr::Case { operand, whens, else_ } => opt_call(s, operand) || any_case_call(
            s,
            whens,
            whens.len() as int,
        ) || opt_call(s, else_),
        _ => false,
    }
}

pub open spec fn opt_call(s: State, e: Option<Box<tree::Expr>>) -> bool
    decreases e, 1int,
{
    match e {
        Some(x) => has_call(s, *x),
        None => false,
    }
}

pub open spec fn any_call(s: State, es: Seq<tree::Expr>, n: int) -> bool
    decreases es, n,
{
    if n <= 0 || n > es.len() {
        false
    } else {
        any_call(s, es, n - 1) || has_call(s, es[n - 1])
    }
}

pub open spec fn any_case_call(s: State, es: Seq<(tree::Expr, tree::Expr)>, n: int) -> bool
    decreases es, n,
{
    if n <= 0 || n > es.len() {
        false
    } else {
        any_case_call(s, es, n - 1) || has_call(s, es[n - 1].0) || has_call(s, es[n - 1].1)
    }
}

// ---- expressions ----

/// The value of an expression without calls.
pub open spec fn plain(s: State, e: tree::Expr) -> Result<Datum, Raised> {
    match eval::evaluated(session::scene(s.w, s.l.binds, Some(s.l.visible())), e) {
        Ok(v) => Ok(v),
        Err(f) => Err(vars::raised(state::undeclared(f))),
    }
}

pub open spec fn plain_truth(s: State, e: tree::Expr) -> Result<Option<bool>, Raised> {
    match eval::truth(
        eval::evaluated(session::scene(s.w, s.l.binds, Some(s.l.visible())), e),
    ) {
        Ok(v) => Ok(v),
        Err(f) => Err(vars::raised(state::undeclared(f))),
    }
}

/// Whether two values are equal, as CASE and DECODE compare them.
pub open spec fn same_value(s: State, a: Datum, b: Datum) -> Result<bool, Raised> {
    match eval::compared(s.w.seat.env, BinaryOp::Eq, a, b) {
        Ok(t) => Ok(t == Some(true)),
        Err(f) => Err(vars::raised(f)),
    }
}

/// The value of an expression.
pub open spec fn value_of(m: Mode, fuel: nat, s: State, e: tree::Expr) -> Out<Datum>
    decreases fuel, 0int, e, 3int,
{
    let x = resolved(m, fuel, s, e);
    match x.r {
        Err(e) => thrown(x.s, e),
        Ok(t) => Out { s: x.s, r: plain(x.s, t) },
    }
}

/// Whether a condition holds. Calls in operands that do not decide the result never run.
pub open spec fn truth_of(m: Mode, fuel: nat, s: State, e: tree::Expr) -> Out<Option<bool>>
    decreases fuel, 0int, e, 3int,
{
    if has_call(s, e) && joins(e) {
        joined(m, fuel, s, e)
    } else {
        let x = resolved(m, fuel, s, e);
        match x.r {
            Err(e) => thrown(x.s, e),
            Ok(t) => Out { s: x.s, r: plain_truth(x.s, t) },
        }
    }
}

/// Whether an expression joins or negates conditions.
pub open spec fn joins(e: tree::Expr) -> bool {
    match e {
        tree::Expr::Binary(op, _, _) => op == BinaryOp::And || op == BinaryOp::Or,
        tree::Expr::Not(_) => true,
        _ => false,
    }
}

/// The first condition decides alone when it can.
pub open spec fn joined(m: Mode, fuel: nat, s: State, e: tree::Expr) -> Out<Option<bool>>
    decreases fuel, 0int, e, 0int,
{
    match e {
        tree::Expr::Binary(op, a, b) => {
            let x = truth_of(m, fuel, s, *a);
            match x.r {
                Err(e) => thrown(x.s, e),
                Ok(p) => if p == Some(op == BinaryOp::Or) {
                    fine(x.s, p)
                } else {
                    let y = truth_of(m, fuel, x.s, *b);
                    match y.r {
                        Err(e) => thrown(y.s, e),
                        Ok(q) => fine(
                            y.s,
                            if op == BinaryOp::Or {
                                eval::either(p, q)
                            } else {
                                eval::both(p, q)
                            },
                        ),
                    }
                },
            }
        },
        tree::Expr::Not(a) => {
            let x = truth_of(m, fuel, s, *a);
            match x.r {
                Err(e) => thrown(x.s, e),
                Ok(p) => fine(x.s, eval::negation(p)),
            }
        },
        _ => fine(s, None),
    }
}

/// An expression whose calls have run and stand there as their results. Calls inside
/// subqueries are left to SQL. Calls in operands that CASE, AND, OR and the NULL functions
/// skip do not run.
pub open spec fn resolved(m: Mode, fuel: nat, s: State, e: tree::Expr) -> Out<tree::Expr>
    decreases fuel, 0int, e, 2int,
{
    if !has_call(s, e) {
        fine(s, e)
    } else {
        let z = lazy(m, fuel, s, e);
        match z.r {
            Err(e) => thrown(z.s, e),
            Ok(v) => match v {
                Some(v) => fine(z.s, tree::Expr::Literal(v)),
                None => resolved_parts(m, fuel, z.s, e),
            },
        }
    }
}

/// The value of an expression whose operands are evaluated only when needed: CASE, AND, OR,
/// NVL, NVL2, COALESCE and DECODE. Nothing for other expressions.
pub open spec fn lazy(m: Mode, fuel: nat, s: State, e: tree::Expr) -> Out<Option<Datum>>
    decreases fuel, 0int, e, 1int,
{
    match e {
        tree::Expr::Binary(op, _, _) => if op == BinaryOp::And || op == BinaryOp::Or {
            let x = joined(m, fuel, s, e);
            match x.r {
                Err(e) => thrown(x.s, e),
                Ok(t) => fine(x.s, Some(vars::truth_value(t))),
            }
        } else {
            fine(s, None)
        },
        tree::Expr::Case { .. } => lazy_case(m, fuel, s, e),
        tree::Expr::Function { name, .. } => if find_routine(s, name) is Some {
            fine(s, None)
        } else {
            lazy_call(m, fuel, s, e)
        },
        _ => fine(s, None),
    }
}

pub open spec fn lazy_case(m: Mode, fuel: nat, s: State, e: tree::Expr) -> Out<Option<Datum>>
    decreases fuel, 0int, e, 0int,
{
    match e {
        tree::Expr::Case { operand, whens, else_ } => match operand {
            Some(o) => {
                let x = value_of(m, fuel, s, *o);
                match x.r {
                    Err(e) => thrown(x.s, e),
                    Ok(v) => lazy_else(m, fuel, case_from(m, fuel, x.s, Some(v), whens, 0), else_),
                }
            },
            None => lazy_else(m, fuel, case_from(m, fuel, s, None, whens, 0), else_),
        },
        _ => fine(s, None),
    }
}

pub open spec fn lazy_else(
    m: Mode,
    fuel: nat,
    found: Out<Option<Datum>>,
    else_: Option<Box<tree::Expr>>,
) -> Out<Option<Datum>>
    decreases fuel, 0int, else_, 4int,
{
    match found.r {
        Err(e) => found,
        Ok(v) => if v is Some {
            found
        } else {
            match else_ {
                Some(x) => {
                    let y = value_of(m, fuel, found.s, *x);
                    match y.r {
                        Err(e) => thrown(y.s, e),
                        Ok(v) => fine(y.s, Some(v)),
                    }
                },
                None => fine(found.s, Some(Datum::Null)),
            }
        },
    }
}

/// The result of the first case from `i` on that applies, if one does.
pub open spec fn case_from(
    m: Mode,
    fuel: nat,
    s: State,
    subject: Option<Datum>,
    whens: Seq<(tree::Expr, tree::Expr)>,
    i: int,
) -> Out<Option<Datum>>
    decreases fuel, 0int, whens, whens.len() - i,
{
    if i < 0 || i >= whens.len() {
        fine(s, None)
    } else {
        let h = case_hit(m, fuel, s, subject, whens[i].0);
        match h.r {
            Err(e) => thrown(h.s, e),
            Ok(hit) => if hit {
                let y = value_of(m, fuel, h.s, whens[i].1);
                match y.r {
                    Err(e) => thrown(y.s, e),
                    Ok(v) => fine(y.s, Some(v)),
                }
            } else {
                case_from(m, fuel, h.s, subject, whens, i + 1)
            },
        }
    }
}

/// Whether a case applies: its condition holds, or it equals the subject.
pub open spec fn case_hit(
    m: Mode,
    fuel: nat,
    s: State,
    subject: Option<Datum>,
    cond: tree::Expr,
) -> Out<bool>
    decreases fuel, 0int, cond, 4int,
{
    match subject {
        Some(v) => {
            let x = value_of(m, fuel, s, cond);
            match x.r {
                Err(e) => thrown(x.s, e),
                Ok(w) => Out { s: x.s, r: same_value(x.s, v, w) },
            }
        },
        None => {
            let x = truth_of(m, fuel, s, cond);
            match x.r {
                Err(e) => thrown(x.s, e),
                Ok(t) => fine(x.s, t == Some(true)),
            }
        },
    }
}

pub open spec fn lazy_call(m: Mode, fuel: nat, s: State, e: tree::Expr) -> Out<Option<Datum>>
    decreases fuel, 0int, e, 0int,
{
    match e {
        tree::Expr::Function { name, args, .. } => if (name == "NVL"@ && args.len() == 2) || (name
            == "COALESCE"@ && args.len() >= 1) {
            first_value(m, fuel, s, args, 0)
        } else if name == "NVL2"@ && args.len() == 3 {
            let x = value_of(m, fuel, s, args[0]);
            match x.r {
                Err(e) => thrown(x.s, e),
                Ok(v) => {
                    let y = value_of(
                        m,
                        fuel,
                        x.s,
                        if v is Null {
                            args[2]
                        } else {
                            args[1]
                        },
                    );
                    match y.r {
                        Err(e) => thrown(y.s, e),
                        Ok(v) => fine(y.s, Some(v)),
                    }
                },
            }
        } else if name == "DECODE"@ && args.len() >= 3 {
            let x = value_of(m, fuel, s, args[0]);
            match x.r {
                Err(e) => thrown(x.s, e),
                Ok(v) => decode_from(m, fuel, x.s, v, args, 1),
            }
        } else {
            fine(s, None)
        },
        _ => fine(s, None),
    }
}

/// The first value from `i` on that is not NULL.
pub open spec fn first_value(m: Mode, fuel: nat, s: State, args: Seq<tree::Expr>, i: int) -> Out<
    Option<Datum>,
>
    decreases fuel, 0int, args, args.len() - i,
{
    if i < 0 || i >= args.len() {
        fine(s, Some(Datum::Null))
    } else {
        let x = value_of(m, fuel, s, args[i]);
        match x.r {
            Err(e) => thrown(x.s, e),
            Ok(v) => if v is Null {
                first_value(m, fuel, x.s, args, i + 1)
            } else {
                fine(x.s, Some(v))
            },
        }
    }
}

/// What DECODE gives for a value: the result behind the first search that equals it, or the
/// odd one out at the end.
pub open spec fn decode_from(
    m: Mode,
    fuel: nat,
    s: State,
    v: Datum,
    args: Seq<tree::Expr>,
    i: int,
) -> Out<Option<Datum>>
    decreases fuel, 0int, args, args.len() - i,
{
    if i < 0 || i >= args.len() {
        fine(s, Some(Datum::Null))
    } else if i + 1 >= args.len() {
        let y = value_of(m, fuel, s, args[i]);
        match y.r {
            Err(e) => thrown(y.s, e),
            Ok(v) => fine(y.s, Some(v)),
        }
    } else {
        let h = decode_hit(m, fuel, s, v, args[i]);
        match h.r {
            Err(e) => thrown(h.s, e),
            Ok(hit) => if hit {
                let y = value_of(m, fuel, h.s, args[i + 1]);
                match y.r {
                    Err(e) => thrown(y.s, e),
                    Ok(v) => fine(y.s, Some(v)),
                }
            } else {
                decode_from(m, fuel, h.s, v, args, i + 2)
            },
        }
    }
}

/// Whether a search of DECODE equals a value; NULL equals NULL there.
pub open spec fn decode_hit(m: Mode, fuel: nat, s: State, v: Datum, search: tree::Expr) -> Out<bool>
    decreases fuel, 0int, search, 4int,
{
    let x = value_of(m, fuel, s, search);
    match x.r {
        Err(e) => thrown(x.s, e),
        Ok(w) => if v is Null && w is Null {
            fine(x.s, true)
        } else {
            Out { s: x.s, r: same_value(x.s, v, w) }
        },
    }
}

/// A call of a routine with arguments.
pub struct Calling {
    pub r: tree::Routine,
    pub args: Seq<tree::Arg>,
}

pub open spec fn unnamed(es: Seq<tree::Expr>) -> Seq<tree::Arg> {
    Seq::new(es.len(), |i: int| tree::Arg { name: None, value: es[i] })
}

/// What a call in an expression stands for: its result, or NULL.
pub open spec fn call_result(m: Mode, fuel: nat, s: State, c: Calling) -> Out<tree::Expr>
    decreases fuel, 4int, c, 8 + c.r.params.len(),
{
    let x = called(m, fuel, s, c);
    match x.r {
        Err(e) => thrown(x.s, e),
        Ok(v) => fine(
            x.s,
            tree::Expr::Literal(
                match v {
                    Some(v) => v,
                    None => Datum::Null,
                },
            ),
        ),
    }
}

/// An expression of some kind with its parts resolved.
pub open spec fn resolved_parts(m: Mode, fuel: nat, s: State, e: tree::Expr) -> Out<tree::Expr>
    decreases fuel, 0int, e, 1int,
{
    match e {
        tree::Expr::Column { .. } => resolved_name(m, fuel, s, e),
        tree::Expr::Function { .. } => resolved_call(m, fuel, s, e),
        tree::Expr::InList { .. } => resolved_in(m, fuel, s, e),
        tree::Expr::Between { .. } => resolved_between(m, fuel, s, e),
        tree::Expr::Like { .. } => resolved_like(m, fuel, s, e),
        tree::Expr::Binary(..) => resolved_binary(m, fuel, s, e),
        _ => resolved_operand(m, fuel, s, e),
    }
}

/// A name, or what the function of that name gives.
pub open spec fn resolved_name(m: Mode, fuel: nat, s: State, e: tree::Expr) -> Out<tree::Expr>
    decreases fuel, 0int, e, 0int,
{
    match e {
        tree::Expr::Column { table, name } => match find_routine(s, name) {
            Some(r) => if table is None {
                if fuel == 0 {
                    exhausted(s)
                } else {
                    call_result(m, (fuel - 1) as nat, s, Calling { r, args: Seq::empty() })
                }
            } else {
                fine(s, e)
            },
            None => fine(s, e),
        },
        _ => fine(s, e),
    }
}

/// A function with its arguments resolved, or what it gives where it is stored.
pub open spec fn resolved_call(m: Mode, fuel: nat, s: State, e: tree::Expr) -> Out<tree::Expr>
    decreases fuel, 0int, e, 0int,
{
    match e {
        tree::Expr::Function { name, args, distinct } => {
            let x = resolved_list(m, fuel, s, args, args.len() as int);
            match x.r {
                Err(e) => thrown(x.s, e),
                Ok(a) => match find_routine(s, name) {
                    Some(r) => if fuel == 0 {
                        exhausted(x.s)
                    } else {
                        call_result(m, (fuel - 1) as nat, x.s, Calling { r, args: unnamed(a) })
                    },
                    None => fine(x.s, tree::Expr::Function { name, args: a, distinct }),
                },
            }
        },
        _ => fine(s, e),
    }
}

/// A test for a list with its operands resolved.
pub open spec fn resolved_in(m: Mode, fuel: nat, s: State, e: tree::Expr) -> Out<tree::Expr>
    decreases fuel, 0int, e, 0int,
{
    match e {
        tree::Expr::InList { expr, list, negated } => {
            let x = resolved(m, fuel, s, *expr);
            match x.r {
                Err(e) => thrown(x.s, e),
                Ok(a) => {
                    let y = resolved_list(m, fuel, x.s, list, list.len() as int);
                    match y.r {
                        Err(e) => thrown(y.s, e),
                        Ok(b) => fine(
                            y.s,
                            tree::Expr::InList { expr: Box::new(a), list: b, negated },
                        ),
                    }
                },
            }
        },
        _ => fine(s, e),
    }
}

/// A test for a range with its operands resolved.
pub open spec fn resolved_between(m: Mode, fuel: nat, s: State, e: tree::Expr) -> Out<tree::Expr>
    decreases fuel, 0int, e, 0int,
{
    match e {
        tree::Expr::Between { expr, low, high, negated } => {
            let x = resolved(m, fuel, s, *expr);
            match x.r {
                Err(e) => thrown(x.s, e),
                Ok(a) => {
                    let y = resolved(m, fuel, x.s, *low);
                    match y.r {
                        Err(e) => thrown(y.s, e),
                        Ok(b) => {
                            let z = resolved(m, fuel, y.s, *high);
                            match z.r {
                                Err(e) => thrown(z.s, e),
                                Ok(c) => fine(
                                    z.s,
                                    tree::Expr::Between {
                                        expr: Box::new(a),
                                        low: Box::new(b),
                                        high: Box::new(c),
                                        negated,
                                    },
                                ),
                            }
                        },
                    }
                },
            }
        },
        _ => fine(s, e),
    }
}

/// A test for a pattern with its operands resolved.
pub open spec fn resolved_like(m: Mode, fuel: nat, s: State, e: tree::Expr) -> Out<tree::Expr>
    decreases fuel, 0int, e, 0int,
{
    match e {
        tree::Expr::Like { expr, pattern, escape, negated } => {
            let x = resolved(m, fuel, s, *expr);
            match x.r {
                Err(e) => thrown(x.s, e),
                Ok(a) => {
                    let y = resolved(m, fuel, x.s, *pattern);
                    match y.r {
                        Err(e) => thrown(y.s, e),
                        Ok(b) => {
                            let z = resolved_opt(m, fuel, y.s, escape);
                            match z.r {
                                Err(e) => thrown(z.s, e),
                                Ok(c) => fine(
                                    z.s,
                                    tree::Expr::Like {
                                        expr: Box::new(a),
                                        pattern: Box::new(b),
                                        escape: c,
                                        negated,
                                    },
                                ),
                            }
                        },
                    }
                },
            }
        },
        _ => fine(s, e),
    }
}

/// An operator with both operands resolved.
pub open spec fn resolved_binary(m: Mode, fuel: nat, s: State, e: tree::Expr) -> Out<tree::Expr>
    decreases fuel, 0int, e, 0int,
{
    match e {
        tree::Expr::Binary(op, a, b) => {
            let x = resolved(m, fuel, s, *a);
            match x.r {
                Err(e) => thrown(x.s, e),
                Ok(a) => {
                    let y = resolved(m, fuel, x.s, *b);
                    match y.r {
                        Err(e) => thrown(y.s, e),
                        Ok(b) => fine(
                            y.s,
                            tree::Expr::Binary(op, Box::new(a), Box::new(b)),
                        ),
                    }
                },
            }
        },
        _ => fine(s, e),
    }
}

/// An operator or a test with its operand resolved.
pub open spec fn resolved_operand(m: Mode, fuel: nat, s: State, e: tree::Expr) -> Out<tree::Expr>
    decreases fuel, 0int, e, 0int,
{
    match e {
        tree::Expr::Neg(a) => {
            let x = resolved(m, fuel, s, *a);
            match x.r {
                Err(e) => thrown(x.s, e),
                Ok(a) => fine(x.s, tree::Expr::Neg(Box::new(a))),
            }
        },
        tree::Expr::Not(a) => {
            let x = resolved(m, fuel, s, *a);
            match x.r {
                Err(e) => thrown(x.s, e),
                Ok(a) => fine(x.s, tree::Expr::Not(Box::new(a))),
            }
        },
        tree::Expr::IsNull { expr, negated } => {
            let x = resolved(m, fuel, s, *expr);
            match x.r {
                Err(e) => thrown(x.s, e),
                Ok(a) => fine(x.s, tree::Expr::IsNull { expr: Box::new(a), negated }),
            }
        },
        _ => fine(s, e),
    }
}

pub open spec fn resolved_opt(m: Mode, fuel: nat, s: State, e: Option<Box<tree::Expr>>) -> Out<
    Option<Box<tree::Expr>>,
>
    decreases fuel, 0int, e, 4int,
{
    match e {
        Some(x) => {
            let y = resolved(m, fuel, s, *x);
            match y.r {
                Err(e) => thrown(y.s, e),
                Ok(v) => fine(y.s, Some(Box::new(v))),
            }
        },
        None => fine(s, None),
    }
}

/// The first `n` expressions with their calls resolved.
pub open spec fn resolved_list(m: Mode, fuel: nat, s: State, es: Seq<tree::Expr>, n: int) -> Out<
    Seq<tree::Expr>,
>
    decreases fuel, 0int, es, n,
{
    if n <= 0 || n > es.len() {
        fine(s, Seq::empty())
    } else {
        let x = resolved_list(m, fuel, s, es, n - 1);
        match x.r {
            Err(e) => x,
            Ok(a) => {
                let y = resolved(m, fuel, x.s, es[n - 1]);
                match y.r {
                    Err(e) => thrown(y.s, e),
                    Ok(b) => fine(y.s, a.push(b)),
                }
            },
        }
    }
}

// ---- calls ----

pub open spec fn wrong_args(name: Seq<char>) -> Failure {
    parser::pls(306, "wrong number or types of arguments in call to '"@ + name + "'"@)
}

pub fn wrong_args_error(name: &str) -> (e: OraError)
    ensures
        e@ == wrong_args(name@),
{
    let m = text::join(
        &text::join("wrong number or types of arguments in call to '", name),
        "'",
    );
    parser::pls_error(306, &m)
}

pub open spec fn param_index(p: Seq<tree::Param>, name: Seq<char>, i: int) -> Option<int>
    decreases p.len() - i,
{
    if i < 0 || i >= p.len() {
        None
    } else if p[i].name == name {
        Some(i)
    } else {
        param_index(p, name, i + 1)
    }
}

/// Which argument each parameter gets from the first `n`: positional ones first, then named
/// ones.
pub open spec fn slots(c: Calling, n: int) -> Option<Seq<Option<int>>>
    decreases n,
{
    if n <= 0 || n > c.args.len() {
        Some(Seq::new(c.r.params.len(), |i: int| None))
    } else {
        match slots(c, n - 1) {
            None => None,
            Some(t) => match c.args[n - 1].name {
                None => if named_before(c.args, n - 1) || n - 1 >= t.len() {
                    None
                } else {
                    Some(t.update(n - 1, Some(n - 1)))
                },
                Some(name) => match param_index(c.r.params, name, 0) {
                    None => None,
                    Some(p) => if t[p] is Some {
                        None
                    } else {
                        Some(t.update(p, Some(n - 1)))
                    },
                },
            },
        }
    }
}

/// Whether one of the first `n` arguments is named.
pub open spec fn named_before(args: Seq<tree::Arg>, n: int) -> bool {
    exists|k: int| 0 <= k < n && k < args.len() && (#[trigger] args[k]).name is Some
}

/// A procedure argument after evaluation: a value, or where the result goes and the value
/// passed in.
pub enum ArgValue {
    In(Value),
    Out(Target, Value),
}

pub enum Passed {
    In(Datum),
    Out(tree::Target, Datum),
}

impl View for ArgValue {
    type V = Passed;

    open spec fn view(&self) -> Passed {
        match self {
            ArgValue::In(v) => Passed::In(v@),
            ArgValue::Out(t, v) => Passed::Out(t@, v@),
        }
    }
}

pub open spec fn all_passed(v: Seq<ArgValue>) -> Seq<Passed> {
    Seq::new(v.len(), |i: int| v[i]@)
}

pub open spec fn no_target() -> Failure {
    parser::pls(363, "expression cannot be used as an assignment target"@)
}

/// Where an OUT argument goes.
pub open spec fn out_target(e: tree::Expr) -> Result<tree::Target, Failure> {
    match e {
        tree::Expr::Bind(i) => Ok(tree::Target::Bind(i)),
        tree::Expr::Column { table, name } => match table {
            None => Ok(tree::Target::Var(name)),
            Some(rec) => if rec.len() > 0 && rec.last() == '%' {
                Err(no_target())
            } else {
                Ok(tree::Target::Field(rec, name))
            },
        },
        _ => Err(no_target()),
    }
}

/// What the parameter at `i` is passed.
pub open spec fn passed_one(m: Mode, fuel: nat, s: State, c: Calling, arg: Option<int>, i: int) -> Out<
    Passed,
>
    decreases fuel, 4int, c, 5int,
{
    if i < 0 || i >= c.r.params.len() {
        failing(s, wrong_args(c.r.name))
    } else {
        let p = c.r.params[i];
        match arg {
            Some(k) => if k < 0 || k >= c.args.len() {
                failing(s, wrong_args(c.r.name))
            } else if p.mode == ParamMode::In {
                let x = value_of(m, fuel, s, c.args[k].value);
                match x.r {
                    Err(e) => thrown(x.s, e),
                    Ok(v) => fine(x.s, Passed::In(v)),
                }
            } else {
                match out_target(c.args[k].value) {
                    Err(f) => failing(s, f),
                    Ok(t) => if p.mode == ParamMode::InOut {
                        let x = value_of(m, fuel, s, c.args[k].value);
                        match x.r {
                            Err(e) => thrown(x.s, e),
                            Ok(v) => fine(x.s, Passed::Out(t, v)),
                        }
                    } else {
                        fine(s, Passed::Out(t, Datum::Null))
                    },
                }
            },
            None => match p.default {
                Some(d) => if p.mode == ParamMode::In {
                    let x = value_of(m, fuel, s, d);
                    match x.r {
                        Err(e) => thrown(x.s, e),
                        Ok(v) => fine(x.s, Passed::In(v)),
                    }
                } else {
                    failing(s, wrong_args(c.r.name))
                },
                None => failing(s, wrong_args(c.r.name)),
            },
        }
    }
}

/// What the first `n` parameters are passed.
pub open spec fn passed(m: Mode, fuel: nat, s: State, c: Calling, t: Seq<Option<int>>, n: int) -> Out<
    Seq<Passed>,
>
    decreases fuel, 4int, c, 6 + n,
{
    if n <= 0 || n > t.len() || n > c.r.params.len() {
        fine(s, Seq::empty())
    } else {
        let x = passed(m, fuel, s, c, t, n - 1);
        match x.r {
            Err(e) => x,
            Ok(a) => {
                let y = passed_one(m, fuel, x.s, c, t[n - 1], n - 1);
                match y.r {
                    Err(e) => thrown(y.s, e),
                    Ok(v) => fine(y.s, a.push(v)),
                }
            },
        }
    }
}

/// The result of a call, if the routine is a function. OUT arguments are stored.
pub open spec fn called(m: Mode, fuel: nat, s: State, c: Calling) -> Out<Option<Datum>>
    decreases fuel, 4int, c, 7 + c.r.params.len(),
{
    match slots(c, c.args.len() as int) {
        None => failing(s, wrong_args(c.r.name)),
        Some(t) => {
            let x = passed(m, fuel, s, c, t, c.r.params.len() as int);
            match x.r {
                Err(e) => thrown(x.s, e),
                Ok(values) => {
                    let y = invoked(m, fuel, x.s, c.r, values);
                    match y.r {
                        Err(e) => thrown(y.s, e),
                        Ok(res) => stored_outs(y.s, c.r, res),
                    }
                },
            }
        },
    }
}

/// A function's result, with the targets and final values of OUT arguments.
pub struct Returned {
    pub value: Datum,
    pub targets: Seq<tree::Target>,
    pub values: Seq<Datum>,
}

pub open spec fn stored_outs(s: State, r: tree::Routine, res: Returned) -> Out<Option<Datum>> {
    let f = assign::assigned_upto(
        s.w.seat.env,
        s.l,
        res.targets,
        res.values,
        res.targets.len() as int,
    );
    let after = State { l: f.l, ..s };
    match f.failure {
        Some(e) => failing(after, e),
        None => fine(
            after,
            if r.returns is Some {
                Some(res.value)
            } else {
                None
            },
        ),
    }
}

/// The local routines of all enclosing blocks.
pub open spec fn enclosing(frames: Seq<Level>, n: int) -> Seq<tree::Routine>
    decreases n,
{
    if n <= 0 || n > frames.len() {
        Seq::empty()
    } else {
        enclosing(frames, n - 1) + frames[n - 1].routines
    }
}

/// The state a routine starts with: nothing but the routines of the enclosing blocks.
pub open spec fn fresh(l: Run) -> Run {
    Run {
        binds: Seq::empty(),
        frames: seq![
            Level {
                routines: enclosing(l.frames, l.frames.len() as int),
                ..vars::no_level()
            },
        ],
        rowcount: None,
        handling: Seq::empty(),
    }
}

/// The innermost block with a variable more.
pub open spec fn declared(frames: Seq<Level>, name: Seq<char>, v: Variable) -> Seq<Level> {
    let f = frames.last();
    frames.update(frames.len() - 1, Level { vars: f.vars.push((name, v)), ..f })
}

pub open spec fn passed_value(p: Passed) -> Datum {
    match p {
        Passed::In(v) => v,
        Passed::Out(_, v) => v,
    }
}

/// A parameter as a variable of the routine; one that is passed IN is constant.
pub open spec fn param_var(w: World, frames: Seq<Level>, p: tree::Param, v: Passed) -> Result<
    Variable,
    Failure,
> {
    match state::type_due(session::seen(w), frames, p.ty) {
        Err(e) => Err(e),
        Ok((ty, slot)) => match slot {
            Held::Record(f) => Ok(
                Variable { ty, slot, constant: v is In, not_null: false },
            ),
            Held::Scalar(_) => match state::converted(w.seat.env, ty, passed_value(v)) {
                Err(e) => Err(e),
                Ok(x) => Ok(
                    Variable {
                        ty,
                        slot: Held::Scalar(x),
                        constant: v is In,
                        not_null: false,
                    },
                ),
            },
        },
    }
}

/// The blocks once the first `n` parameters are declared.
pub open spec fn with_params(
    w: World,
    frames: Seq<Level>,
    params: Seq<tree::Param>,
    values: Seq<Passed>,
    n: int,
) -> Result<Seq<Level>, Failure>
    decreases n,
{
    if n <= 0 || n > params.len() || n > values.len() {
        Ok(frames)
    } else {
        match with_params(w, frames, params, values, n - 1) {
            Err(e) => Err(e),
            Ok(f) => match param_var(w, f, params[n - 1], values[n - 1]) {
                Err(e) => Err(e),
                Ok(v) => Ok(declared(f, params[n - 1].name, v)),
            },
        }
    }
}

/// The targets of the OUT arguments among the first `n`.
pub open spec fn out_targets(values: Seq<Passed>, n: int) -> Seq<tree::Target>
    decreases n,
{
    if n <= 0 || n > values.len() {
        Seq::empty()
    } else {
        match values[n - 1] {
            Passed::In(_) => out_targets(values, n - 1),
            Passed::Out(t, _) => out_targets(values, n - 1).push(t),
        }
    }
}

/// The value of a variable; NULL for a record or an unknown one.
pub open spec fn scalar_of(frames: Seq<Level>, name: Seq<char>) -> Datum {
    match vars::find_var(frames, name, frames.len() as int) {
        Some((a, b)) => match frames[a].vars[b].1.slot {
            Held::Scalar(v) => v,
            Held::Record(_) => Datum::Null,
        },
        None => Datum::Null,
    }
}

/// The final values of the OUT parameters among the first `n`.
pub open spec fn out_values(
    frames: Seq<Level>,
    params: Seq<tree::Param>,
    values: Seq<Passed>,
    n: int,
) -> Seq<Datum>
    decreases n,
{
    if n <= 0 || n > values.len() || n > params.len() {
        Seq::empty()
    } else {
        match values[n - 1] {
            Passed::In(_) => out_values(frames, params, values, n - 1),
            Passed::Out(_, _) => out_values(frames, params, values, n - 1).push(
                scalar_of(frames, params[n - 1].name),
            ),
        }
    }
}

/// What a function's block returned, as its type.
pub open spec fn result_of(s: State, returns: Option<tree::TypeRef>, c: Course) -> Result<
    Datum,
    Failure,
> {
    match returns {
        None => Ok(Datum::Null),
        Some(ty) => match c {
            Course::Return(v) => match v {
                Some(v) => match state::type_due(session::seen(s.w), s.l.frames, ty) {
                    Err(e) => Err(e),
                    Ok((t, _)) => state::converted(s.w.seat.env, t, v),
                },
                None => Err(error::failure(6503, "PL/SQL: Function returned without value"@)),
            },
            _ => Err(error::failure(6503, "PL/SQL: Function returned without value"@)),
        },
    }
}

pub open spec fn too_deep() -> Failure {
    error::failure(36, "maximum number of recursive SQL levels (50) exceeded"@)
}

pub open spec fn deeper(m: Mode) -> Mode {
    Mode {
        depth: if m.depth < MAX_CALL_DEPTH {
            (m.depth + 1) as u32
        } else {
            m.depth
        },
        ..m
    }
}

/// What a routine gives for evaluated arguments.
pub open spec fn invoked(m: Mode, fuel: nat, s: State, r: tree::Routine, values: Seq<Passed>) -> Out<
    Returned,
>
    decreases fuel, 3int, r, 9int,
{
    if m.depth >= MAX_CALL_DEPTH {
        failing(s, too_deep())
    } else {
        match with_params(s.w, fresh(s.l).frames, r.params, values, r.params.len() as int) {
            Err(e) => failing(s, e),
            Ok(frames) => {
                let inner = State { w: s.w, l: Run { frames, ..fresh(s.l) } };
                let b = block_run(deeper(m), fuel, inner, r.block);
                let back = State { w: b.s.w, l: s.l };
                match b.r {
                    Err(e) => thrown(back, e),
                    Ok(c) => match result_of(b.s, r.returns, c) {
                        Err(e) => failing(back, e),
                        Ok(value) => fine(
                            back,
                            Returned {
                                value,
                                targets: out_targets(values, r.params.len() as int),
                                values: out_values(
                                    b.s.l.frames,
                                    r.params,
                                    values,
                                    r.params.len() as int,
                                ),
                            },
                        ),
                    },
                }
            },
        }
    }
}

// ---- blocks ----

/// What a block leads to.
pub open spec fn block_run(m: Mode, fuel: nat, s: State, b: tree::Block) -> Out<Course>
    decreases fuel, 2int, b, 9int,
{
    let inside = State { l: Run { frames: s.l.frames.push(vars::no_level()), ..s.l }, ..s };
    let o = block_body(m, fuel, inside, b);
    Out { s: State { l: left_block(o.s.l), ..o.s }, r: o.r }
}

pub open spec fn left_block(l: Run) -> Run {
    Run { frames: state::without_last(l.frames), ..l }
}

/// What a block leads to once its own level is there. Errors while declaring are not caught by
/// this block's handlers.
pub open spec fn block_body(m: Mode, fuel: nat, s: State, b: tree::Block) -> Out<Course>
    decreases fuel, 2int, b, 8int,
{
    let d = declarations_run(m, fuel, s, b.decls, b.decls.len() as int);
    match d.r {
        Err(e) => thrown(d.s, e),
        Ok(_) => {
            let o = statements_run(m, fuel, d.s, b.body, 0);
            match o.r {
                Ok(c) => o,
                Err(e) => if e.err == eval::free() {
                    o
                } else {
                    handled(m, fuel, o.s, b.handlers, e, 0)
                },
            }
        },
    }
}

/// What the first handler from `i` on that catches an exception leads to; the exception when
/// none does.
pub open spec fn handled(
    m: Mode,
    fuel: nat,
    s: State,
    handlers: Seq<tree::Handler>,
    e: Raised,
    i: int,
) -> Out<Course>
    decreases fuel, 2int, handlers, handlers.len() - i,
{
    if i < 0 || i >= handlers.len() {
        thrown(s, e)
    } else if state::catches_any(
        s.l.frames,
        handlers[i].exceptions,
        e,
        handlers[i].exceptions.len() as int,
    ) {
        let inside = State { l: Run { handling: s.l.handling.push(e), ..s.l }, ..s };
        let o = statements_run(m, fuel, inside, handlers[i].body, 0);
        Out { s: State { l: left_handler(o.s.l), ..o.s }, r: o.r }
    } else {
        handled(m, fuel, s, handlers, e, i + 1)
    }
}

pub open spec fn left_handler(l: Run) -> Run {
    Run {
        handling: if l.handling.len() > 0 {
            l.handling.drop_last()
        } else {
            l.handling
        },
        ..l
    }
}

/// What the first `n` declarations leave.
pub open spec fn declarations_run(m: Mode, fuel: nat, s: State, decls: Seq<tree::Decl>, n: int) -> Out<
    (),
>
    decreases fuel, 2int, decls, n,
{
    if n <= 0 || n > decls.len() {
        fine(s, ())
    } else {
        let x = declarations_run(m, fuel, s, decls, n - 1);
        match x.r {
            Err(e) => x,
            Ok(_) => declaration_run(m, fuel, x.s, decls[n - 1]),
        }
    }
}

pub open spec fn with_level(s: State, f: Level) -> State {
    State {
        l: Run { frames: s.l.frames.update(s.l.frames.len() - 1, f), ..s.l },
        ..s
    }
}

/// What one declaration leaves.
pub open spec fn declaration_run(m: Mode, fuel: nat, s: State, d: tree::Decl) -> Out<()>
    decreases fuel, 2int, d, 9int,
{
    if s.l.frames.len() == 0 {
        exhausted(s)
    } else {
        let f = s.l.frames.last();
        match d {
            tree::Decl::Var(v) => variable_run(m, fuel, s, v),
            tree::Decl::Exception(name) => fine(
                with_level(s, Level { exceptions: f.exceptions.push((name, None)), ..f }),
                (),
            ),
            tree::Decl::ExceptionInit { name, code } => match vars::find_exception(
                s.l.frames,
                name,
                s.l.frames.len() as int,
            ) {
                Some((a, b)) => fine(
                    State {
                        l: Run {
                            frames: assign::with_exception(s.l.frames, a, b, code),
                            ..s.l
                        },
                        ..s
                    },
                    (),
                ),
                None => failing(s, state::not_declared(name)),
            },
            tree::Decl::Cursor(c) => fine(
                with_level(
                    s,
                    Level {
                        cursors: f.cursors.push((c.name, CursorState { decl: c, open: None })),
                        ..f
                    },
                ),
                (),
            ),
            tree::Decl::Routine(r) => fine(
                with_level(s, Level { routines: f.routines.push(*r), ..f }),
                (),
            ),
        }
    }
}

/// What a variable starts with: its default, or NULL.
pub open spec fn variable_run(m: Mode, fuel: nat, s: State, v: tree::VarDecl) -> Out<()>
    decreases fuel, 1int, v, 9int,
{
    match state::type_due(session::seen(s.w), s.l.frames, v.ty) {
        Err(e) => failing(s, e),
        Ok((ty, slot)) => match v.default {
            Some(d) => {
                let x = value_of(m, fuel, s, d);
                match x.r {
                    Err(e) => thrown(x.s, e),
                    Ok(value) => match state::converted(x.s.w.seat.env, ty, value) {
                        Err(e) => failing(x.s, e),
                        Ok(value) => variable_there(x.s, v, ty, Held::Scalar(value)),
                    },
                }
            },
            None => variable_there(s, v, ty, slot),
        },
    }
}

pub open spec fn variable_there(s: State, v: tree::VarDecl, ty: VarType, slot: Held) -> Out<()> {
    if s.l.frames.len() == 0 {
        exhausted(s)
    } else if v.not_null && slot == Held::Scalar(Datum::Null) {
        failing(s, state::value_error(""@))
    } else {
        fine(
            State {
                l: Run {
                    frames: declared(
                        s.l.frames,
                        v.name,
                        Variable { ty, slot, constant: v.constant, not_null: v.not_null },
                    ),
                    ..s.l
                },
                ..s
            },
            (),
        )
    }
}

/// What the statements from `i` on lead to.
pub open spec fn statements_run(m: Mode, fuel: nat, s: State, stmts: Seq<tree::Stmt>, i: int) -> Out<
    Course,
>
    decreases fuel, 2int, stmts, stmts.len() - i,
{
    if i < 0 || i >= stmts.len() {
        fine(s, Course::Normal)
    } else {
        let o = statement_run(m, fuel, s, stmts[i]);
        match o.r {
            Ok(c) => if c is Normal {
                statements_run(m, fuel, o.s, stmts, i + 1)
            } else {
                o
            },
            Err(e) => o,
        }
    }
}

// ---- statements ----

pub open spec fn done(s: State) -> Out<Course> {
    fine(s, Course::Normal)
}

/// A step that gives nothing, as a statement.
pub open spec fn then_on(o: Out<()>) -> Out<Course> {
    match o.r {
        Ok(_) => done(o.s),
        Err(e) => thrown(o.s, e),
    }
}

pub open spec fn stored(s: State, target: tree::Target, v: Datum) -> Out<()> {
    match assign::assigned(s.w.seat.env, s.l, target, v) {
        Ok(l) => fine(State { l, ..s }, ()),
        Err(e) => failing(s, e),
    }
}

/// What a statement leads to.
pub open spec fn statement_run(m: Mode, fuel: nat, s: State, st: tree::Stmt) -> Out<Course>
    decreases fuel, 2int, st, 9 + parts(st),
{
    match st {
        tree::Stmt::Null => done(s),
        tree::Stmt::Assign { target, value } => assign_run(m, fuel, s, target, value),
        tree::Stmt::If { .. } => branch_from(m, fuel, s, st, 0),
        tree::Stmt::Case { .. } => case_run(m, fuel, s, st),
        tree::Stmt::Block(b) => block_run(m, fuel, s, b),
        tree::Stmt::Loop { .. } | tree::Stmt::While { .. } | tree::Stmt::ForRange { .. }
        | tree::Stmt::ForCursor { .. } => loop_run(m, fuel, s, st),
        _ => simple_run(m, fuel, s, st),
    }
}

/// What an assignment leads to.
pub open spec fn assign_run(
    m: Mode,
    fuel: nat,
    s: State,
    target: tree::Target,
    value: tree::Expr,
) -> Out<Course>
    decreases fuel, 1int, value, 4int,
{
    let x = value_of(m, fuel, s, value);
    match x.r {
        Err(e) => thrown(x.s, e),
        Ok(v) => then_on(stored(x.s, target, v)),
    }
}

/// What RETURN leads to.
pub open spec fn return_run(m: Mode, fuel: nat, s: State, e: Option<tree::Expr>) -> Out<Course>
    decreases fuel, 1int, e, 4int,
{
    match e {
        Some(e) => {
            let x = value_of(m, fuel, s, e);
            match x.r {
                Err(e) => thrown(x.s, e),
                Ok(v) => fine(x.s, Course::Return(Some(v))),
            }
        },
        None => fine(s, Course::Return(None)),
    }
}

/// What RAISE leads to.
pub open spec fn raise_run(s: State, name: Option<Seq<char>>) -> Out<Course> {
    match name {
        Some(name) => thrown(s, state::raise_due(s.l.frames, name)),
        None => if s.l.handling.len() > 0 {
            thrown(s, s.l.handling.last())
        } else {
            failing(
                s,
                parser::pls(
                    367,
                    "a RAISE statement with no exception name must be inside an exception handler"@,
                ),
            )
        },
    }
}

/// What a loop leads to.
pub open spec fn loop_run(m: Mode, fuel: nat, s: State, st: tree::Stmt) -> Out<Course>
    decreases fuel, 2int, st, 8int,
{
    match st {
        tree::Stmt::Loop { label, body } => loop_from(m, fuel, s, label, body),
        tree::Stmt::While { label, cond, body } => while_from(m, fuel, s, label, cond, body),
        tree::Stmt::ForRange { .. } => range_run(m, fuel, s, st),
        tree::Stmt::ForCursor { .. } => cursor_loop(m, fuel, s, st),
        _ => done(s),
    }
}

/// What a statement that holds no others leads to.
pub open spec fn simple_run(m: Mode, fuel: nat, s: State, st: tree::Stmt) -> Out<Course>
    decreases fuel, 2int, st, 8int,
{
    match st {
        tree::Stmt::Exit { label, when } => jump(m, fuel, s, when, Course::Exit(label)),
        tree::Stmt::Continue { label, when } => jump(m, fuel, s, when, Course::Continue(label)),
        tree::Stmt::Return(e) => return_run(m, fuel, s, e),
        tree::Stmt::Raise(name) => raise_run(s, name),
        tree::Stmt::Open { .. } | tree::Stmt::Fetch { .. } | tree::Stmt::Close { .. } => cursor_run(
            m,
            fuel,
            s,
            st,
        ),
        _ => other_run(m, fuel, s, st),
    }
}

/// What SQL or a call leads to.
pub open spec fn other_run(m: Mode, fuel: nat, s: State, st: tree::Stmt) -> Out<Course>
    decreases fuel, 2int, st, 7int,
{
    match st {
        tree::Stmt::Sql { stmt, into } => then_on(sql_run(m, s, stmt, into)),
        tree::Stmt::Call { name, args } => then_on(call_run(m, fuel, s, name, args)),
        tree::Stmt::ExecuteImmediate { .. } => then_on(dynamic_run(m, fuel, s, st)),
        _ => done(s),
    }
}

/// What a cursor statement leads to.
pub open spec fn cursor_run(m: Mode, fuel: nat, s: State, st: tree::Stmt) -> Out<Course>
    decreases fuel, 2int, st, 7int,
{
    match st {
        tree::Stmt::Open { cursor, args } => then_on(open_run(m, fuel, s, cursor, args)),
        tree::Stmt::Fetch { cursor, into } => then_on(fetched(s, cursor, into)),
        tree::Stmt::Close { cursor } => then_on(closed(s, cursor)),
        _ => done(s),
    }
}

/// How many branches a statement has.
pub open spec fn parts(st: tree::Stmt) -> int {
    match st {
        tree::Stmt::If { branches, .. } => branches.len() as int,
        tree::Stmt::Case { whens, .. } => whens.len() as int,
        _ => 0,
    }
}

/// What the first branch of IF from `i` on whose condition holds leads to, or ELSE.
pub open spec fn branch_from(m: Mode, fuel: nat, s: State, st: tree::Stmt, i: int) -> Out<Course>
    decreases fuel, 2int, st, parts(st) - i,
{
    match st {
        tree::Stmt::If { branches, else_ } => if i < 0 || i >= branches.len() {
            match else_ {
                Some(body) => statements_run(m, fuel, s, body, 0),
                None => done(s),
            }
        } else {
            let x = truth_of(m, fuel, s, branches[i].0);
            match x.r {
                Err(e) => thrown(x.s, e),
                Ok(t) => if t == Some(true) {
                    statements_run(m, fuel, x.s, branches[i].1, 0)
                } else {
                    branch_from(m, fuel, x.s, st, i + 1)
                },
            }
        },
        _ => done(s),
    }
}

/// What the CASE statement leads to.
pub open spec fn case_run(m: Mode, fuel: nat, s: State, st: tree::Stmt) -> Out<Course>
    decreases fuel, 2int, st, 1 + parts(st),
{
    match st {
        tree::Stmt::Case { operand, .. } => match operand {
            Some(o) => {
                let x = value_of(m, fuel, s, o);
                match x.r {
                    Err(e) => thrown(x.s, e),
                    Ok(v) => when_from(m, fuel, x.s, st, Some(v), 0),
                }
            },
            None => when_from(m, fuel, s, st, None, 0),
        },
        _ => done(s),
    }
}

/// What the first WHEN from `i` on that applies leads to, or ELSE. Without either,
/// CASE_NOT_FOUND is raised.
pub open spec fn when_from(
    m: Mode,
    fuel: nat,
    s: State,
    st: tree::Stmt,
    subject: Option<Datum>,
    i: int,
) -> Out<Course>
    decreases fuel, 2int, st, parts(st) - i,
{
    match st {
        tree::Stmt::Case { whens, else_, .. } => if i < 0 || i >= whens.len() {
            match else_ {
                Some(body) => statements_run(m, fuel, s, body, 0),
                None => failing(
                    s,
                    error::failure(6592, "CASE not found while executing CASE statement"@),
                ),
            }
        } else {
            let h = case_hit(m, fuel, s, subject, whens[i].0);
            match h.r {
                Err(e) => thrown(h.s, e),
                Ok(hit) => if hit {
                    statements_run(m, fuel, h.s, whens[i].1, 0)
                } else {
                    when_from(m, fuel, h.s, st, subject, i + 1)
                },
            }
        },
        _ => done(s),
    }
}

/// Whether a jump is meant for the loop of a label.
pub open spec fn is_mine(l: Option<Seq<char>>, label: Option<Seq<char>>) -> bool {
    l is None || l == label
}

/// How a loop stops behind one run of its body, if it does.
pub open spec fn stops(label: Option<Seq<char>>, c: Course) -> Option<Course> {
    match c {
        Course::Normal => None,
        Course::Continue(l) => if is_mine(l, label) {
            None
        } else {
            Some(c)
        },
        Course::Exit(l) => if is_mine(l, label) {
            Some(Course::Normal)
        } else {
            Some(c)
        },
        Course::Return(_) => Some(c),
    }
}

/// What a loop leads to.
pub open spec fn loop_from(
    m: Mode,
    fuel: nat,
    s: State,
    label: Option<Seq<char>>,
    body: Seq<tree::Stmt>,
) -> Out<Course>
    decreases fuel, 2int, body, 0int,
{
    if fuel == 0 {
        exhausted(s)
    } else {
        let o = statements_run(m, (fuel - 1) as nat, s, body, 0);
        match o.r {
            Err(e) => o,
            Ok(c) => match stops(label, c) {
                Some(c) => fine(o.s, c),
                None => loop_from(m, (fuel - 1) as nat, o.s, label, body),
            },
        }
    }
}

/// What a WHILE loop leads to.
pub open spec fn while_from(
    m: Mode,
    fuel: nat,
    s: State,
    label: Option<Seq<char>>,
    cond: tree::Expr,
    body: Seq<tree::Stmt>,
) -> Out<Course>
    decreases fuel, 2int, body, 0int,
{
    if fuel == 0 {
        exhausted(s)
    } else {
        let x = truth_of(m, (fuel - 1) as nat, s, cond);
        match x.r {
            Err(e) => thrown(x.s, e),
            Ok(t) => if t != Some(true) {
                done(x.s)
            } else {
                let o = statements_run(m, (fuel - 1) as nat, x.s, body, 0);
                match o.r {
                    Err(e) => o,
                    Ok(c) => match stops(label, c) {
                        Some(c) => fine(o.s, c),
                        None => while_from(m, (fuel - 1) as nat, o.s, label, cond, body),
                    },
                }
            },
        }
    }
}

/// A value as a whole number.
pub open spec fn whole_number(v: Datum) -> Result<int, Failure> {
    match value::as_number(v) {
        Err(e) => Err(state::as_value_error(e)),
        Ok(None) => Err(state::value_error(""@)),
        Ok(Some(n)) => {
            let r = number::rounded(n, 0, Rounding::HalfUp);
            if number::in_range(r) && i64::MIN <= number::whole(r) <= i64::MAX {
                Ok(number::whole(r))
            } else {
                Err(state::value_error(""@))
            }
        },
    }
}

/// The value of an expression as a whole number.
pub open spec fn int_of(m: Mode, fuel: nat, s: State, e: tree::Expr) -> Out<int>
    decreases fuel, 0int, e, 4int,
{
    let x = value_of(m, fuel, s, e);
    match x.r {
        Err(e) => thrown(x.s, e),
        Ok(v) => Out { s: x.s, r: as_raised(whole_number(v)) },
    }
}

/// What FOR over a range leads to.
pub open spec fn range_run(m: Mode, fuel: nat, s: State, st: tree::Stmt) -> Out<Course>
    decreases fuel, 2int, st, 1int,
{
    match st {
        tree::Stmt::ForRange { label, var, reverse, low, high, body } => {
            let x = int_of(m, fuel, s, low);
            match x.r {
                Err(e) => thrown(x.s, e),
                Ok(lo) => {
                    let y = int_of(m, fuel, x.s, high);
                    match y.r {
                        Err(e) => thrown(y.s, e),
                        Ok(hi) => {
                            let inside = entered(y.s);
                            let o = range_from(
                                m,
                                fuel,
                                inside,
                                Range { label, var, reverse, lo, hi },
                                body,
                                if reverse {
                                    hi
                                } else {
                                    lo
                                },
                            );
                            Out { s: left(o.s), r: o.r }
                        },
                    }
                },
            }
        },
        _ => done(s),
    }
}

/// What a FOR loop runs over.
pub struct Range {
    pub label: Option<Seq<char>>,
    pub var: Seq<char>,
    pub reverse: bool,
    pub lo: int,
    pub hi: int,
}

pub open spec fn entered(s: State) -> State {
    State { l: Run { frames: s.l.frames.push(vars::no_level()), ..s.l }, ..s }
}

pub open spec fn left(s: State) -> State {
    State { l: left_block(s.l), ..s }
}

/// The innermost block with a loop's variable as its only one.
pub open spec fn looping(s: State, name: Seq<char>, v: Variable) -> State {
    State {
        l: Run {
            frames: s.l.frames.update(
                s.l.frames.len() - 1,
                Level { vars: seq![(name, v)], ..s.l.frames.last() },
            ),
            ..s.l
        },
        ..s
    }
}

pub open spec fn counter(i: int) -> Variable {
    Variable {
        ty: VarType::Integer,
        slot: Held::Scalar(vars::integer_value(i)),
        constant: true,
        not_null: true,
    }
}

/// What a loop over a range leads to from `i` on.
pub open spec fn range_from(
    m: Mode,
    fuel: nat,
    s: State,
    g: Range,
    body: Seq<tree::Stmt>,
    i: int,
) -> Out<Course>
    decreases fuel, 2int, body, 0int,
{
    if !(g.lo <= i <= g.hi) || s.l.frames.len() == 0 {
        done(s)
    } else if fuel == 0 {
        exhausted(s)
    } else {
        let o = statements_run(m, (fuel - 1) as nat, looping(s, g.var, counter(i)), body, 0);
        match o.r {
            Err(e) => o,
            Ok(c) => match stops(g.label, c) {
                Some(c) => fine(o.s, c),
                None => range_from(
                    m,
                    (fuel - 1) as nat,
                    o.s,
                    g,
                    body,
                    if g.reverse {
                        i - 1
                    } else {
                        i + 1
                    },
                ),
            },
        }
    }
}

pub open spec fn names_of(columns: Seq<(Seq<char>, value::SqlType)>) -> Seq<Seq<char>> {
    Seq::new(columns.len(), |i: int| columns[i].0)
}

/// What a SQL statement does with the block's variables and binds visible.
pub open spec fn sql_due(m: Mode, s: State, stmt: tree::Statement) -> Out<Gain> {
    let o = session::ran(s.w, s.l.binds, Some(s.l.visible()), stmt, m.read_only);
    Out { s: State { w: o.world, ..s }, r: as_raised(o.result) }
}

/// What a cursor FOR loop leads to.
pub open spec fn cursor_loop(m: Mode, fuel: nat, s: State, st: tree::Stmt) -> Out<Course>
    decreases fuel, 2int, st, 1int,
{
    match st {
        tree::Stmt::ForCursor { label, var, source, body } => {
            let x = source_rows(m, fuel, s, source);
            match x.r {
                Err(e) => thrown(x.s, e),
                Ok(o) => {
                    let y = rows_from(m, fuel, entered(x.s), label, var, o, body, 0);
                    Out { s: left(y.s), r: y.r }
                },
            }
        },
        _ => done(s),
    }
}

/// The rows that a cursor FOR loop runs over.
pub open spec fn source_rows(m: Mode, fuel: nat, s: State, source: tree::CursorSource) -> Out<Opened>
    decreases fuel, 1int, source, 9int,
{
    match source {
        tree::CursorSource::Query(q) => {
            let x = sql_due(m, s, tree::Statement::Query(q));
            match x.r {
                Err(e) => thrown(x.s, e),
                Ok(g) => fine(x.s, opened(g)),
            }
        },
        tree::CursorSource::Named { name, args } => if fuel == 0 {
            exhausted(s)
        } else {
            query_opened(m, (fuel - 1) as nat, s, name, args)
        },
    }
}

pub open spec fn opened(g: Gain) -> Opened {
    Opened { rows: g.rows, columns: names_of(g.columns), rowcount: 0, found: None }
}

/// What a loop over rows leads to from row `k` on.
pub open spec fn rows_from(
    m: Mode,
    fuel: nat,
    s: State,
    label: Option<Seq<char>>,
    var: Seq<char>,
    o: Opened,
    body: Seq<tree::Stmt>,
    k: int,
) -> Out<Course>
    decreases fuel, 2int, body, 0int,
{
    if k < 0 || k >= o.rows.len() || s.l.frames.len() == 0 {
        done(s)
    } else if fuel == 0 {
        exhausted(s)
    } else {
        let v = Variable {
            ty: VarType::Record,
            slot: Held::Record(assign::zipped(o.columns, o.rows[k])),
            constant: false,
            not_null: false,
        };
        let x = statements_run(m, (fuel - 1) as nat, looping(s, var, v), body, 0);
        match x.r {
            Err(e) => x,
            Ok(c) => match stops(label, c) {
                Some(c) => fine(x.s, c),
                None => rows_from(m, (fuel - 1) as nat, x.s, label, var, o, body, k + 1),
            },
        }
    }
}

/// What EXIT or CONTINUE leads to.
pub open spec fn jump(m: Mode, fuel: nat, s: State, cond: Option<tree::Expr>, to: Course) -> Out<
    Course,
>
    decreases fuel, 1int, cond, 4int,
{
    match cond {
        None => fine(s, to),
        Some(c) => {
            let x = truth_of(m, fuel, s, c);
            match x.r {
                Err(e) => thrown(x.s, e),
                Ok(t) => if t == Some(true) {
                    fine(x.s, to)
                } else {
                    done(x.s)
                },
            }
        },
    }
}

pub open spec fn counted(s: State, n: int) -> State {
    State { l: Run { rowcount: Some(n), ..s.l }, ..s }
}

pub open spec fn no_data_found() -> Failure {
    error::failure(1403, "no data found"@)
}

pub open spec fn too_many_rows() -> Failure {
    error::failure(1422, "exact fetch returns more than requested number of rows"@)
}

pub open spec fn filled(s: State, f: assign::Filling) -> Out<()> {
    let after = State { l: f.l, ..s };
    match f.failure {
        Some(e) => failing(after, e),
        None => fine(after, ()),
    }
}

/// Where a RETURNING value goes.
pub open spec fn into_target(e: tree::Expr) -> Result<tree::Target, Failure> {
    match e {
        tree::Expr::Bind(i) => Ok(tree::Target::Bind(i)),
        tree::Expr::Column { table, name } => match table {
            None => Ok(tree::Target::Var(name)),
            Some(rec) => Ok(tree::Target::Field(rec, name)),
        },
        _ => Err(state::wrong_type()),
    }
}

/// What the first `n` RETURNING values leave.
pub open spec fn returned_into(s: State, into: Seq<tree::Expr>, row: Seq<Datum>, n: int) -> Out<()>
    decreases n,
{
    if n <= 0 || n > into.len() || n > row.len() {
        fine(s, ())
    } else {
        let x = returned_into(s, into, row, n - 1);
        match x.r {
            Err(e) => x,
            Ok(_) => match into_target(into[n - 1]) {
                Err(f) => failing(x.s, f),
                Ok(t) => stored(x.s, t, row[n - 1]),
            },
        }
    }
}

pub open spec fn least(a: int, b: int) -> int {
    if a < b {
        a
    } else {
        b
    }
}

/// What DML RETURNING values leave in their targets: one row at most.
pub open spec fn returning_stored(s: State, into: Seq<tree::Expr>, rows: Seq<Seq<Datum>>) -> Out<()> {
    if rows.len() > 1 {
        failing(s, too_many_rows())
    } else {
        let row = if rows.len() == 1 {
            rows[0]
        } else {
            Seq::new(into.len(), |i: int| Datum::Null)
        };
        returned_into(s, into, row, least(into.len() as int, row.len() as int))
    }
}

pub open spec fn returning_of(stmt: tree::Statement) -> Option<tree::Returning> {
    match stmt {
        tree::Statement::Insert(i) => i.returning,
        tree::Statement::Update(u) => u.returning,
        tree::Statement::Delete(d) => d.returning,
        _ => None,
    }
}

pub open spec fn is_dml(stmt: tree::Statement) -> bool {
    stmt is Insert || stmt is Update || stmt is Delete
}

/// What a SQL statement in a block leaves.
#[verifier::opaque]
pub open spec fn sql_run(m: Mode, s: State, stmt: tree::Statement, into: Seq<tree::Target>) -> Out<()> {
    let x = sql_due(m, s, stmt);
    match x.r {
        Err(e) => thrown(x.s, e),
        Ok(g) => if stmt is Query {
            if g.rows.len() == 0 {
                failing(counted(x.s, 0), no_data_found())
            } else if g.rows.len() > 1 {
                failing(counted(x.s, 2), too_many_rows())
            } else {
                let one = counted(x.s, 1);
                filled(
                    one,
                    assign::row_assigned(
                        one.w.seat.env,
                        one.l,
                        into,
                        names_of(g.columns),
                        g.rows[0],
                    ),
                )
            }
        } else if is_dml(stmt) {
            let some = counted(x.s, capped_count(g.count));
            match returning_of(stmt) {
                Some(r) => returning_stored(some, r.into, g.rows),
                None => fine(some, ()),
            }
        } else {
            fine(x.s, ())
        },
    }
}

pub open spec fn capped_count(n: int) -> int {
    if n <= i64::MAX {
        n
    } else {
        i64::MAX as int
    }
}

// ---- cursors ----

/// The arguments of a cursor's first `n` parameters, as variables.
pub open spec fn cursor_params(
    m: Mode,
    fuel: nat,
    s: State,
    q: Opening,
    n: int,
) -> Out<Seq<(Seq<char>, Variable)>>
    decreases fuel, 1int, q, n,
{
    if n <= 0 || n > q.decl.params.len() {
        fine(s, Seq::empty())
    } else {
        let x = cursor_params(m, fuel, s, q, n - 1);
        match x.r {
            Err(e) => x,
            Ok(out) => {
                let y = cursor_param(m, fuel, x.s, q, n - 1);
                match y.r {
                    Err(e) => thrown(y.s, e),
                    Ok(v) => fine(y.s, out.push(v)),
                }
            },
        }
    }
}

/// A cursor that is opened with arguments.
pub struct Opening {
    pub decl: tree::CursorDecl,
    pub args: Seq<tree::Expr>,
}

/// One parameter of a cursor, as a variable.
pub open spec fn cursor_param(m: Mode, fuel: nat, s: State, q: Opening, i: int) -> Out<
    (Seq<char>, Variable),
>
    decreases fuel, 1int, q, 0int,
{
    if i < 0 || i >= q.decl.params.len() {
        failing(s, wrong_args(q.decl.name))
    } else {
        let p = q.decl.params[i];
        if i < q.args.len() {
            cursor_value(value_of(m, fuel, s, q.args[i]), p)
        } else {
            match p.default {
                Some(d) => cursor_value(value_of(m, fuel, s, d), p),
                None => failing(s, wrong_args(q.decl.name)),
            }
        }
    }
}

/// A cursor's argument as a variable of its parameter's type.
#[verifier::opaque]
pub open spec fn cursor_value(x: Out<Datum>, p: tree::Param) -> Out<(Seq<char>, Variable)> {
    match x.r {
        Err(e) => thrown(x.s, e),
        Ok(v) => match state::type_due(session::seen(x.s.w), x.s.l.frames, p.ty) {
            Err(e) => failing(x.s, e),
            Ok((ty, _)) => match state::converted(x.s.w.seat.env, ty, v) {
                Err(e) => failing(x.s, e),
                Ok(v) => fine(
                    x.s,
                    (
                        p.name,
                        Variable {
                            ty,
                            slot: Held::Scalar(v),
                            constant: true,
                            not_null: false,
                        },
                    ),
                ),
            },
        },
    }
}

/// The rows of a declared cursor's query with its parameters bound.
pub open spec fn query_opened(
    m: Mode,
    fuel: nat,
    s: State,
    name: Seq<char>,
    args: Seq<tree::Expr>,
) -> Out<Opened>
    decreases fuel, 1int, args, 9int,
{
    match vars::find_cursor(s.l.frames, name, s.l.frames.len() as int) {
        None => failing(s, state::not_declared(name)),
        Some((a, b)) => {
            let decl = s.l.frames[a].cursors[b].1.decl;
            if args.len() > decl.params.len() {
                failing(s, wrong_args(name))
            } else if fuel == 0 {
                exhausted(s)
            } else {
                let x = cursor_params(
                    m,
                    (fuel - 1) as nat,
                    s,
                    Opening { decl: tree::CursorDecl { name, ..decl }, args },
                    decl.params.len() as int,
                );
                match x.r {
                    Err(e) => thrown(x.s, e),
                    Ok(params) => cursor_query(m, x.s, params, decl.query),
                }
            }
        },
    }
}

#[verifier::opaque]
pub open spec fn cursor_query(
    m: Mode,
    s: State,
    params: Seq<(Seq<char>, Variable)>,
    q: tree::Query,
) -> Out<Opened> {
    let inside = State {
        l: Run {
            frames: s.l.frames.push(Level { vars: params, ..vars::no_level() }),
            ..s.l
        },
        ..s
    };
    let x = sql_due(m, inside, tree::Statement::Query(q));
    match x.r {
        Err(e) => thrown(left(x.s), e),
        Ok(g) => fine(left(x.s), opened(g)),
    }
}

pub open spec fn invalid_cursor() -> Failure {
    error::failure(1001, "invalid cursor"@)
}

pub open spec fn with_open(s: State, a: int, b: int, o: Option<Opened>) -> State {
    State { l: Run { frames: assign::with_cursor(s.l.frames, a, b, o), ..s.l }, ..s }
}

/// What OPEN leaves.
pub open spec fn open_run(
    m: Mode,
    fuel: nat,
    s: State,
    cursor: Seq<char>,
    args: Seq<tree::Expr>,
) -> Out<()>
    decreases fuel, 1int, args, 10int,
{
    match vars::find_cursor(s.l.frames, cursor, s.l.frames.len() as int) {
        None => failing(s, state::not_declared(cursor)),
        Some((a, b)) => if s.l.frames[a].cursors[b].1.open is Some {
            failing(s, error::failure(6511, "PL/SQL: cursor already open"@))
        } else {
            let x = query_opened(m, fuel, s, cursor, args);
            match x.r {
                Err(e) => thrown(x.s, e),
                Ok(o) => match vars::find_cursor(x.s.l.frames, cursor, x.s.l.frames.len() as int) {
                    None => failing(x.s, state::not_declared(cursor)),
                    Some((a, b)) => fine(with_open(x.s, a, b, Some(o)), ()),
                },
            }
        },
    }
}

/// What FETCH leaves.
#[verifier::opaque]
pub open spec fn fetched(s: State, cursor: Seq<char>, into: Seq<tree::Target>) -> Out<()> {
    match vars::find_cursor(s.l.frames, cursor, s.l.frames.len() as int) {
        None => failing(s, state::not_declared(cursor)),
        Some((a, b)) => match s.l.frames[a].cursors[b].1.open {
            None => failing(s, invalid_cursor()),
            Some(o) => if o.rows.len() == 0 {
                fine(with_open(s, a, b, Some(Opened { found: Some(false), ..o })), ())
            } else {
                let next = with_open(
                    s,
                    a,
                    b,
                    Some(
                        Opened {
                            rows: o.rows.remove(0),
                            rowcount: dml::capped(o.rowcount),
                            found: Some(true),
                            ..o
                        },
                    ),
                );
                filled(
                    next,
                    assign::row_assigned(
                        next.w.seat.env,
                        next.l,
                        into,
                        o.columns,
                        o.rows[0],
                    ),
                )
            },
        },
    }
}

/// What CLOSE leaves.
#[verifier::opaque]
pub open spec fn closed(s: State, cursor: Seq<char>) -> Out<()> {
    match vars::find_cursor(s.l.frames, cursor, s.l.frames.len() as int) {
        None => failing(s, state::not_declared(cursor)),
        Some((a, b)) => if s.l.frames[a].cursors[b].1.open is None {
            failing(s, invalid_cursor())
        } else {
            fine(with_open(s, a, b, None), ())
        },
    }
}

// ---- EXECUTE IMMEDIATE ----

/// The values of the first `n` expressions.
pub open spec fn values_upto(m: Mode, fuel: nat, s: State, es: Seq<tree::Expr>, n: int) -> Out<
    Seq<Datum>,
>
    decreases fuel, 1int, es, n,
{
    if n <= 0 || n > es.len() {
        fine(s, Seq::empty())
    } else {
        let x = values_upto(m, fuel, s, es, n - 1);
        match x.r {
            Err(e) => x,
            Ok(out) => {
                let y = value_of(m, fuel, x.s, es[n - 1]);
                match y.r {
                    Err(e) => thrown(y.s, e),
                    Ok(v) => fine(y.s, out.push(v)),
                }
            },
        }
    }
}

/// What EXECUTE IMMEDIATE leaves.
pub open spec fn dynamic_run(m: Mode, fuel: nat, s: State, st: tree::Stmt) -> Out<()>
    decreases fuel, 2int, st, 1int,
{
    match st {
        tree::Stmt::ExecuteImmediate { sql, into, using } => {
            let x = value_of(m, fuel, s, sql);
            match x.r {
                Err(e) => thrown(x.s, e),
                Ok(v) => if v is Null {
                    failing(x.s, error::failure(900, "invalid SQL statement"@))
                } else {
                    let y = values_upto(m, fuel, x.s, using, using.len() as int);
                    match y.r {
                        Err(e) => thrown(y.s, e),
                        Ok(binds) => text_run(
                            m,
                            fuel,
                            y.s,
                            text::trimmed(value::default_text(v)),
                            binds,
                            into,
                        ),
                    }
                },
            }
        },
        _ => fine(s, ()),
    }
}

/// What a text that is run as a statement leaves. Dynamic PL/SQL runs on its own, seeing only
/// its binds, and dynamic SQL does not see the block's variables.
pub open spec fn text_run(
    m: Mode,
    fuel: nat,
    s: State,
    sql: Seq<char>,
    binds: Seq<Datum>,
    into: Seq<tree::Target>,
) -> Out<()>
    decreases fuel, 1int, into, 0int,
{
    match parser::understood(sql) {
        Err(e) => failing(s, e),
        Ok((stmt, n)) => if binds.len() < n {
            failing(s, error::failure(1008, "not all variables bound"@))
        } else {
            match stmt {
                tree::Statement::Block(b) => if fuel == 0 {
                    exhausted(s)
                } else {
                    let inner = State { w: s.w, l: alone(binds) };
                    let o = block_run(m, (fuel - 1) as nat, inner, b);
                    let back = State { w: o.s.w, l: s.l };
                    match o.r {
                        Err(e) => thrown(back, e),
                        Ok(_) => fine(back, ()),
                    }
                },
                _ => dynamic_sql(m, s, stmt, binds, into),
            }
        },
    }
}

pub open spec fn alone(binds: Seq<Datum>) -> Run {
    Run { binds, frames: Seq::empty(), rowcount: None, handling: Seq::empty() }
}

pub open spec fn dynamic_sql(
    m: Mode,
    s: State,
    stmt: tree::Statement,
    binds: Seq<Datum>,
    into: Seq<tree::Target>,
) -> Out<()> {
    let o = session::ran(s.w, binds, None, stmt, m.read_only);
    let after = State { w: o.world, ..s };
    match o.result {
        Err(f) => failing(after, f),
        Ok(g) => if stmt is Query && into.len() > 0 {
            if g.rows.len() == 0 {
                failing(after, no_data_found())
            } else if g.rows.len() > 1 {
                failing(after, too_many_rows())
            } else {
                let one = counted(after, 1);
                filled(
                    one,
                    assign::row_assigned(
                        one.w.seat.env,
                        one.l,
                        into,
                        names_of(g.columns),
                        g.rows[0],
                    ),
                )
            }
        } else if is_dml(stmt) {
            fine(counted(after, capped_count(g.count)), ())
        } else {
            fine(counted(after, 0), ())
        },
    }
}

// ---- procedure calls ----

/// What calling a procedure leaves, including built-ins such as DBMS_OUTPUT.PUT_LINE.
pub open spec fn call_run(m: Mode, fuel: nat, s: State, name: Seq<char>, args: Seq<tree::Arg>) -> Out<
    (),
>
    decreases fuel, 1int, args, 100 + args.len(),
{
    let x = builtin(m, fuel, s, short_name(name), args);
    match x.r {
        Err(e) => thrown(x.s, e),
        Ok(known) => if known {
            fine(x.s, ())
        } else {
            match find_routine(x.s, name) {
                None => failing(x.s, state::not_declared(name)),
                Some(r) => if r.returns is Some {
                    failing(
                        x.s,
                        parser::pls(
                            221,
                            "'"@ + r.name + "' is not a procedure or is undefined"@,
                        ),
                    )
                } else if fuel == 0 {
                    exhausted(x.s)
                } else {
                    let y = called(m, (fuel - 1) as nat, x.s, Calling { r, args });
                    match y.r {
                        Err(e) => thrown(y.s, e),
                        Ok(_) => fine(y.s, ()),
                    }
                },
            }
        },
    }
}

pub open spec fn short_name(name: Seq<char>) -> Seq<char> {
    if strings::holds_at(name, "SYS."@, 0) {
        name.skip(4)
    } else {
        name
    }
}

pub open spec fn with_output(s: State, o: session::Buffer) -> State {
    State { w: World { seat: session::Seat { output: o, ..s.w.seat }, ..s.w }, ..s }
}

pub open spec fn put_due(s: State, text: Seq<char>, end_line: bool) -> Out<bool> {
    match s.w.seat.output.put(text, end_line) {
        Ok(o) => fine(with_output(s, o), true),
        Err(f) => failing(s, f),
    }
}

/// What a built-in procedure leaves, and whether there is one of a name.
pub open spec fn builtin(m: Mode, fuel: nat, s: State, name: Seq<char>, args: Seq<tree::Arg>) -> Out<
    bool,
>
    decreases fuel, 1int, args, 50 + args.len(),
{
    if name == "RAISE_APPLICATION_ERROR"@ {
        application_error(m, fuel, s, args)
    } else if name == "DBMS_OUTPUT.PUT_LINE"@ || name == "DBMS_OUTPUT.PUT"@ {
        put_run(m, fuel, s, args, name == "DBMS_OUTPUT.PUT_LINE"@)
    } else if name == "DBMS_OUTPUT.NEW_LINE"@ {
        put_due(s, Seq::empty(), true)
    } else if name == "DBMS_OUTPUT.ENABLE"@ {
        fine(with_output(s, session::Buffer { enabled: true, ..s.w.seat.output }), true)
    } else if name == "DBMS_OUTPUT.DISABLE"@ {
        fine(with_output(s, no_output()), true)
    } else if name == "DBMS_OUTPUT.GET_LINE"@ {
        get_line(s, args)
    } else if name == "DBMS_LOCK.SLEEP"@ || name == "DBMS_SESSION.SLEEP"@ {
        slept(m, fuel, s, args, args.len() as int)
    } else {
        fine(s, strings::holds_at(name, "DBMS_STATS."@, 0))
    }
}

pub open spec fn no_output() -> session::Buffer {
    session::Buffer { enabled: false, lines: Seq::empty(), partial: Seq::empty(), bytes: 0 }
}

/// The error that RAISE_APPLICATION_ERROR raises.
pub open spec fn application_error(m: Mode, fuel: nat, s: State, args: Seq<tree::Arg>) -> Out<bool>
    decreases fuel, 1int, args, 0int,
{
    if args.len() < 2 {
        failing(s, wrong_args("RAISE_APPLICATION_ERROR"@))
    } else {
        let x = int_of(m, fuel, s, args[0].value);
        match x.r {
            Err(e) => thrown(x.s, e),
            Ok(code) => {
                let y = value_of(m, fuel, x.s, args[1].value);
                match y.r {
                    Err(e) => thrown(y.s, e),
                    Ok(v) => failing(
                        y.s,
                        if -20999 <= code <= -20000 {
                            error::failure(-code, value::default_text(v))
                        } else {
                            error::failure(
                                21000,
                                "error number argument to raise_application_error of "@
                                    + text::decimal_int(code) + " is out of range"@,
                            )
                        },
                    ),
                }
            },
        }
    }
}

/// What DBMS_OUTPUT.PUT or PUT_LINE leaves.
pub open spec fn put_run(m: Mode, fuel: nat, s: State, args: Seq<tree::Arg>, end_line: bool) -> Out<
    bool,
>
    decreases fuel, 1int, args, 0int,
{
    if args.len() == 0 {
        put_due(s, Seq::empty(), end_line)
    } else {
        let x = value_of(m, fuel, s, args[0].value);
        match x.r {
            Err(e) => thrown(x.s, e),
            Ok(v) => put_due(x.s, eval::text_or_empty(x.s.w.seat.env, v), end_line),
        }
    }
}

/// Where an argument of GET_LINE goes.
pub open spec fn line_target(e: tree::Expr) -> Result<tree::Target, Failure> {
    match e {
        tree::Expr::Bind(i) => Ok(tree::Target::Bind(i)),
        tree::Expr::Column { table, name } => if table is None {
            Ok(tree::Target::Var(name))
        } else {
            Err(no_target())
        },
        _ => Err(no_target()),
    }
}

/// What DBMS_OUTPUT.GET_LINE leaves: the oldest line and 0, or NULL and 1.
pub open spec fn get_line(s: State, args: Seq<tree::Arg>) -> Out<bool> {
    if args.len() == 0 {
        failing(s, wrong_args("GET_LINE"@))
    } else {
        match line_target(args[0].value) {
            Err(f) => failing(s, f),
            Ok(t) => if args.len() == 1 {
                failing(s, wrong_args("GET_LINE"@))
            } else {
                match line_target(args[1].value) {
                    Err(f) => failing(s, f),
                    Ok(u) => {
                        let (line, rest) = s.w.seat.output.take_line();
                        let x = stored(
                            with_output(s, rest),
                            t,
                            match line {
                                Some(l) => value::varchar(l),
                                None => Datum::Null,
                            },
                        );
                        match x.r {
                            Err(e) => thrown(x.s, e),
                            Ok(_) => {
                                let y = stored(
                                    x.s,
                                    u,
                                    vars::integer_value(
                                        if line is Some {
                                            0
                                        } else {
                                            1
                                        },
                                    ),
                                );
                                match y.r {
                                    Err(e) => thrown(y.s, e),
                                    Ok(_) => fine(y.s, true),
                                }
                            },
                        }
                    },
                }
            },
        }
    }
}

/// What a pause leaves: its arguments are evaluated, and no time passes.
pub open spec fn slept(m: Mode, fuel: nat, s: State, args: Seq<tree::Arg>, n: int) -> Out<bool>
    decreases fuel, 1int, args, n,
{
    if n <= 0 || n > args.len() {
        fine(s, true)
    } else {
        let x = slept(m, fuel, s, args, n - 1);
        match x.r {
            Err(e) => x,
            Ok(_) => {
                let y = value_of(m, fuel, x.s, args[n - 1].value);
                match y.r {
                    Err(e) => thrown(y.s, e),
                    Ok(_) => fine(y.s, true),
                }
            },
        }
    }
}

} // verus!
