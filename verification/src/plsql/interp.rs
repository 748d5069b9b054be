//! The interpreter: what [`exec`](crate::plsql::exec) says of blocks, done.

use std::sync::Arc;

use vstd::prelude::*;
use vstd::string::*;

use crate::ast;
use crate::ast::{BinaryOp, Expr};
use crate::ddl::Database;
use crate::dml::Column;
use crate::error::{Failure, OraError};
use crate::eval;
use crate::eval::Ex;
use crate::number::Rounding;
use crate::parser;
use crate::plsql;
use crate::plsql::exec;
use crate::plsql::calls::called;
use crate::plsql::exec::{Calling, Mode, Out, State};
use crate::plsql::state;
use crate::plsql::state::Local;
use crate::plsql::vars;
use crate::plsql::vars::{Exc, Frame, Raised};
use crate::plsql::{Arg, Routine};
use crate::session::{Session, World};
use crate::strings;
use crate::text;
use crate::tree;
use crate::value;
use crate::value::{Datum, Value};

verus! {

/// What a session, its database and a running block are.
pub open spec fn now(ses: Session, db: Database, l: Local) -> State {
    State { w: World { seat: ses@, store: db@ }, l: l@ }
}

/// Whether a step did what it was due to do, where that was settled.
pub open spec fn keeps<A, B>(
    due: Out<A>,
    after: State,
    r: Result<B, Exc>,
    view: spec_fn(B) -> A,
) -> bool {
    exec::open_ended(due.r) || (after == due.s && match r {
        Ok(v) => due.r == Ok::<A, Raised>(view(v)),
        Err(e) => due.r == Err::<A, Raised>(e@),
    })
}

fn last_routine(v: &Vec<Arc<Routine>>, name: &str) -> (r: Option<usize>)
    ensures
        match r {
            Some(k) => exec::last_routine(vars::routines_of(v@), name@, v@.len() as int) == Some(
                k as int,
            ) && k < v@.len(),
            None => exec::last_routine(vars::routines_of(v@), name@, v@.len() as int) is None,
        },
{
    let mut n: usize = v.len();
    while n > 0
        invariant
            n <= v@.len(),
            exec::last_routine(vars::routines_of(v@), name@, v@.len() as int)
                == exec::last_routine(vars::routines_of(v@), name@, n as int),
        decreases n,
    {
        assert(vars::routines_of(v@)[n - 1] == plsql::routine_tree(*v@[n - 1]));
        if text::same(&v[n - 1].name, name) {
            return Some(n - 1);
        }
        n = n - 1;
    }
    None
}

fn local_routine(frames: &Vec<Frame>, name: &str) -> (r: Option<Arc<Routine>>)
    ensures
        opt_routine(r) == exec::local_routine(
            vars::levels(frames@),
            name@,
            frames@.len() as int,
        ),
{
    let mut n: usize = frames.len();
    while n > 0
        invariant
            n <= frames@.len(),
            exec::local_routine(vars::levels(frames@), name@, frames@.len() as int)
                == exec::local_routine(vars::levels(frames@), name@, n as int),
        decreases n,
    {
        assert(vars::levels(frames@)[n - 1] == frames@[n - 1]@);
        match last_routine(&frames[n - 1].routines, name) {
            Some(k) => {
                assert(vars::routines_of(frames@[n - 1].routines@)[k as int] == plsql::routine_tree(
                    *frames@[n - 1].routines@[k as int],
                ));
                return Some(frames[n - 1].routines[k].clone());
            },
            None => {},
        }
        n = n - 1;
    }
    None
}

pub open spec fn opt_routine(r: Option<Arc<Routine>>) -> Option<tree::Routine> {
    match r {
        Some(r) => Some(plsql::routine_tree(*r)),
        None => None,
    }
}

#[verifier::loop_isolation(false)]
fn is_far(name: &str) -> (r: bool)
    ensures
        r == exec::far(name@),
{
    let c = text::chars_of(name);
    match strings::index_of(&c, '.') {
        Some(k) => {
            let total: usize = c.len();
            let mut i: usize = k + 1;
            while i < total
                invariant
                    k < i <= total == c@.len(),
                    strings::index_from(c@, '.', k + 1) == strings::index_from(c@, '.', i as int),
                decreases total - i,
            {
                if c[i] == '.' {
                    return true;
                }
                i = i + 1;
            }
            false
        },
        None => false,
    }
}

/// A local or stored procedure or function.
pub(crate) fn find_routine(ses: &Session, db: &Database, l: &Local, name: &str) -> (r: Option<Arc<Routine>>)
    ensures
        opt_routine(r) == exec::find_routine(now(*ses, *db, *l), name@),
{
    proof {
        reveal(exec::find_routine);
    }
    match local_routine(&l.frames, name) {
        Some(r) => {
            return Some(r);
        },
        None => {},
    }
    if is_far(name) {
        return None;
    }
    match db.state.routine(&parser::last_part_of(name)) {
        Some(i) => {
            assert(db.state@.routines[i as int] == plsql::routine_tree(*db.state.routines@[i as int]));
            Some(db.state.routines[i].clone())
        },
        None => None,
    }
}

/// Whether an expression calls a procedure or function outside any subquery.
#[verifier::spinoff_prover]
#[verifier::rlimit(40)]
pub(crate) fn has_call(ses: &Session, db: &Database, l: &Local, e: &Expr) -> (r: bool)
    ensures
        r == exec::has_call(now(*ses, *db, *l), e@),
    decreases e, 0int,
{
    match e {
        Expr::Column { table, name } => {
            assert(e@ == tree::Expr::Column { table: ast::opt_text_tree(*table), name: name@ });
            table.is_none() && vars::var_place(&l.frames, name).is_none() && find_routine(
                ses,
                db,
                l,
                name,
            ).is_some()
        },
        Expr::Function { name, args, .. } => {
            assert(ast::exprs_tree(*args).len() == args@.len());
            find_routine(ses, db, l, name).is_some() || any_call(ses, db, l, args)
        },
        Expr::Neg(a) => has_call(ses, db, l, a),
        Expr::Not(a) => has_call(ses, db, l, a),
        Expr::Binary(_, a, b) => has_call(ses, db, l, a) || has_call(ses, db, l, b),
        Expr::IsNull { expr, .. } => has_call(ses, db, l, expr),
        Expr::Between { expr, low, high, .. } => has_call(ses, db, l, expr) || has_call(
            ses,
            db,
            l,
            low,
        ) || has_call(ses, db, l, high),
        Expr::InList { expr, list, .. } => {
            assert(ast::exprs_tree(*list).len() == list@.len());
            has_call(ses, db, l, expr) || any_call(ses, db, l, list)
        },
        Expr::Like { expr, pattern, escape, .. } => has_call(ses, db, l, expr) || has_call(
            ses,
            db,
            l,
            pattern,
        ) || opt_call(ses, db, l, escape),
        Expr::Case { operand, whens, else_ } => {
            assert(ast::expr_exprs_tree(*whens).len() == whens@.len());
            opt_call(ses, db, l, operand) || any_case_call(ses, db, l, whens) || opt_call(
                ses,
                db,
                l,
                else_,
            )
        },
        _ => false,
    }
}

fn opt_call(ses: &Session, db: &Database, l: &Local, e: &Option<Box<Expr>>) -> (r: bool)
    ensures
        r == exec::opt_call(now(*ses, *db, *l), ast::opt_boxed_expr_tree(*e)),
    decreases e, 1int,
{
    match e {
        Some(x) => has_call(ses, db, l, x),
        None => false,
    }
}

fn any_call(ses: &Session, db: &Database, l: &Local, es: &Vec<Expr>) -> (r: bool)
    ensures
        r == exec::any_call(now(*ses, *db, *l), ast::exprs_tree(*es), es@.len() as int),
    decreases es, 0int,
{
    let ghost s = now(*ses, *db, *l);
    let ghost all = ast::exprs_tree(*es);
    let mut found = false;
    for i in 0..es.len()
        invariant
            s == now(*ses, *db, *l),
            all == ast::exprs_tree(*es),
            found == exec::any_call(s, all, i as int),
    {
        assert(all[i as int] == es@[i as int]@);
        found = found || has_call(ses, db, l, &es[i]);
    }
    found
}

fn any_case_call(ses: &Session, db: &Database, l: &Local, es: &Vec<(Expr, Expr)>) -> (r: bool)
    ensures
        r == exec::any_case_call(
            now(*ses, *db, *l),
            ast::expr_exprs_tree(*es),
            es@.len() as int,
        ),
    decreases es, 0int,
{
    let ghost s = now(*ses, *db, *l);
    let ghost all = ast::expr_exprs_tree(*es);
    let mut found = false;
    for i in 0..es.len()
        invariant
            s == now(*ses, *db, *l),
            all == ast::expr_exprs_tree(*es),
            found == exec::any_case_call(s, all, i as int),
    {
        assert(all[i as int] == (es@[i as int].0@, es@[i as int].1@));
        found = found || has_call(ses, db, l, &es[i].0) || has_call(ses, db, l, &es[i].1);
    }
    found
}

/// The value of an expression without calls.
fn plain(ses: &Session, db: &Database, l: &Local, e: &Expr) -> (r: Result<Value, Exc>)
    ensures
        ({
            let due = exec::plain(now(*ses, *db, *l), e@);
            exec::open_ended(due) || match r {
                Ok(v) => due == Ok::<Datum, Raised>(v@),
                Err(e) => due == Err::<Datum, Raised>(e@),
            }
        }),
{
    let vars = l.vars();
    let ex = Ex { binds: &l.binds, env: &ses.env, vars: Some(&vars), row: None };
    match ex.eval(e) {
        Ok(v) => Ok(v),
        Err(e) => Err(Exc::of(state::undeclared_error(e))),
    }
}

fn plain_truth(ses: &Session, db: &Database, l: &Local, e: &Expr) -> (r: Result<Option<bool>, Exc>)
    ensures
        ({
            let due = exec::plain_truth(now(*ses, *db, *l), e@);
            exec::open_ended(due) || match r {
                Ok(v) => due == Ok::<Option<bool>, Raised>(v),
                Err(e) => due == Err::<Option<bool>, Raised>(e@),
            }
        }),
{
    let vars = l.vars();
    let ex = Ex { binds: &l.binds, env: &ses.env, vars: Some(&vars), row: None };
    match ex.eval_bool(e) {
        Ok(v) => Ok(v),
        Err(e) => Err(Exc::of(state::undeclared_error(e))),
    }
}

/// Whether two values are equal, as CASE and DECODE compare them.
fn same_value(ses: &Session, db: &Database, l: &Local, a: &Value, b: &Value) -> (r: Result<
    bool,
    Exc,
>)
    ensures
        match r {
            Ok(v) => exec::same_value(now(*ses, *db, *l), a@, b@) == Ok::<bool, Raised>(v),
            Err(e) => exec::same_value(now(*ses, *db, *l), a@, b@) == Err::<bool, Raised>(e@),
        },
{
    match eval::compare_as(&ses.env, BinaryOp::Eq, a, b) {
        Ok(Some(t)) => Ok(t),
        Ok(None) => Ok(false),
        Err(e) => Err(Exc::of(e)),
    }
}

fn joins(e: &Expr) -> (r: bool)
    ensures
        r == exec::joins(e@),
{
    match e {
        Expr::Binary(op, _, _) => match op {
            BinaryOp::And => true,
            BinaryOp::Or => true,
            _ => false,
        },
        Expr::Not(_) => true,
        _ => false,
    }
}

/// Evaluates an expression.
#[verifier::spinoff_prover]
#[verifier::rlimit(30)]
pub(crate) fn value_of(
    ses: &mut Session,
    db: &mut Database,
    l: &mut Local,
    m: Mode,
    fuel: u64,
    e: &Expr,
) -> (r: Result<Value, Exc>)
    requires
        old(ses).wf(),
        old(db)@.state.wf(),
    ensures
        keeps(
            exec::value_of(m, fuel as nat, now(*old(ses), *old(db), *old(l)), e@),
            now(*final(ses), *final(db), *final(l)),
            r,
            |v: Value| v@,
        ),
        final(ses).wf(),
        final(db)@.state.wf(),
    decreases fuel, 0int, e, 3int,
{
    let t = resolved(ses, db, l, m, fuel, e)?;
    plain(ses, db, l, &t)
}

/// Evaluates a condition. Calls in operands that do not decide the result never run.
#[verifier::spinoff_prover]
#[verifier::rlimit(30)]
pub(crate) fn truth_of(
    ses: &mut Session,
    db: &mut Database,
    l: &mut Local,
    m: Mode,
    fuel: u64,
    e: &Expr,
) -> (r: Result<Option<bool>, Exc>)
    requires
        old(ses).wf(),
        old(db)@.state.wf(),
    ensures
        keeps(
            exec::truth_of(m, fuel as nat, now(*old(ses), *old(db), *old(l)), e@),
            now(*final(ses), *final(db), *final(l)),
            r,
            |v: Option<bool>| v,
        ),
        final(ses).wf(),
        final(db)@.state.wf(),
    decreases fuel, 0int, e, 3int,
{
    if has_call(ses, db, l, e) && joins(e) {
        return joined(ses, db, l, m, fuel, e);
    }
    let t = resolved(ses, db, l, m, fuel, e)?;
    plain_truth(ses, db, l, &t)
}

#[verifier::spinoff_prover]
#[verifier::rlimit(30)]
pub(crate) fn joined(
    ses: &mut Session,
    db: &mut Database,
    l: &mut Local,
    m: Mode,
    fuel: u64,
    e: &Expr,
) -> (r: Result<Option<bool>, Exc>)
    requires
        old(ses).wf(),
        old(db)@.state.wf(),
    ensures
        keeps(
            exec::joined(m, fuel as nat, now(*old(ses), *old(db), *old(l)), e@),
            now(*final(ses), *final(db), *final(l)),
            r,
            |v: Option<bool>| v,
        ),
        final(ses).wf(),
        final(db)@.state.wf(),
    decreases fuel, 0int, e, 0int,
{
    match e {
        Expr::Binary(op, a, b) => {
            let or = match op {
                BinaryOp::Or => true,
                _ => false,
            };
            let p = truth_of(ses, db, l, m, fuel, a)?;
            match p {
                Some(t) => {
                    if t == or {
                        return Ok(p);
                    }
                },
                None => {},
            }
            let q = truth_of(ses, db, l, m, fuel, b)?;
            Ok(
                if or {
                    eval::or3(p, q)
                } else {
                    eval::and3(p, q)
                },
            )
        },
        Expr::Not(a) => {
            let p = truth_of(ses, db, l, m, fuel, a)?;
            Ok(eval::not3(p))
        },
        _ => Ok(None),
    }
}

/// Runs the calls of an expression and puts their results in their place.
#[verifier::spinoff_prover]
#[verifier::rlimit(30)]
pub(crate) fn resolved(
    ses: &mut Session,
    db: &mut Database,
    l: &mut Local,
    m: Mode,
    fuel: u64,
    e: &Expr,
) -> (r: Result<Expr, Exc>)
    requires
        old(ses).wf(),
        old(db)@.state.wf(),
    ensures
        keeps(
            exec::resolved(m, fuel as nat, now(*old(ses), *old(db), *old(l)), e@),
            now(*final(ses), *final(db), *final(l)),
            r,
            |v: Expr| ast::expr_tree(v),
        ),
        final(ses).wf(),
        final(db)@.state.wf(),
    decreases fuel, 0int, e, 2int,
{
    if !has_call(ses, db, l, e) {
        return Ok(ast::copy_expr(e));
    }
    match lazy(ses, db, l, m, fuel, e)? {
        Some(v) => Ok(Expr::Literal(v)),
        None => resolved_parts(ses, db, l, m, fuel, e),
    }
}

/// Evaluates an expression whose operands are evaluated only when needed.
#[verifier::spinoff_prover]
#[verifier::rlimit(30)]
pub(crate) fn lazy(
    ses: &mut Session,
    db: &mut Database,
    l: &mut Local,
    m: Mode,
    fuel: u64,
    e: &Expr,
) -> (r: Result<Option<Value>, Exc>)
    requires
        old(ses).wf(),
        old(db)@.state.wf(),
    ensures
        keeps(
            exec::lazy(m, fuel as nat, now(*old(ses), *old(db), *old(l)), e@),
            now(*final(ses), *final(db), *final(l)),
            r,
            |v: Option<Value>| vars::opt_datum(v),
        ),
        final(ses).wf(),
        final(db)@.state.wf(),
    decreases fuel, 0int, e, 1int,
{
    match e {
        Expr::Binary(op, _, _) => match op {
            BinaryOp::And | BinaryOp::Or => {
                let t = joined(ses, db, l, m, fuel, e)?;
                Ok(Some(vars::bool_value(t)))
            },
            _ => Ok(None),
        },
        Expr::Case { .. } => lazy_case(ses, db, l, m, fuel, e),
        Expr::Function { name, .. } => {
            if find_routine(ses, db, l, name).is_some() {
                return Ok(None);
            }
            lazy_call(ses, db, l, m, fuel, e)
        },
        _ => Ok(None),
    }
}

proof fn case_tree(e: Expr)
    requires
        e is Case,
    ensures
        e@ == (tree::Expr::Case {
            operand: ast::opt_boxed_expr_tree(e->Case_operand),
            whens: ast::expr_exprs_tree(e->Case_whens),
            else_: ast::opt_boxed_expr_tree(e->Case_else_),
        }),
{
}

#[verifier::spinoff_prover]
#[verifier::rlimit(30)]
pub(crate) fn lazy_case(
    ses: &mut Session,
    db: &mut Database,
    l: &mut Local,
    m: Mode,
    fuel: u64,
    e: &Expr,
) -> (r: Result<Option<Value>, Exc>)
    requires
        old(ses).wf(),
        old(db)@.state.wf(),
        e is Case,
    ensures
        keeps(
            exec::lazy_case(m, fuel as nat, now(*old(ses), *old(db), *old(l)), e@),
            now(*final(ses), *final(db), *final(l)),
            r,
            |v: Option<Value>| vars::opt_datum(v),
        ),
        final(ses).wf(),
        final(db)@.state.wf(),
    decreases fuel, 0int, e, 0int,
{
    match e {
        Expr::Case { operand, whens, else_ } => {
            proof {
                case_tree(*e);
            }
            let subject = match operand {
                Some(o) => {
                    let v = value_of(ses, db, l, m, fuel, o)?;
                    Some(v)
                },
                None => None,
            };
            match case_from(ses, db, l, m, fuel, &subject, whens, 0)? {
                Some(v) => Ok(Some(v)),
                None => lazy_else(ses, db, l, m, fuel, else_),
            }
        },
        _ => Ok(None),
    }
}

#[verifier::spinoff_prover]
#[verifier::rlimit(30)]
pub(crate) fn lazy_else(
    ses: &mut Session,
    db: &mut Database,
    l: &mut Local,
    m: Mode,
    fuel: u64,
    else_: &Option<Box<Expr>>,
) -> (r: Result<Option<Value>, Exc>)
    requires
        old(ses).wf(),
        old(db)@.state.wf(),
    ensures
        keeps(
            exec::lazy_else(m, fuel as nat, exec::fine(now(*old(ses), *old(db), *old(l)), None), ast::opt_boxed_expr_tree(*else_)),
            now(*final(ses), *final(db), *final(l)),
            r,
            |v: Option<Value>| vars::opt_datum(v),
        ),
        final(ses).wf(),
        final(db)@.state.wf(),
    decreases fuel, 0int, else_, 4int,
{
    match else_ {
        Some(x) => {
            let v = value_of(ses, db, l, m, fuel, x)?;
            Ok(Some(v))
        },
        None => Ok(Some(Value::Null)),
    }
}

#[verifier::spinoff_prover]
#[verifier::rlimit(30)]
pub(crate) fn case_from(
    ses: &mut Session,
    db: &mut Database,
    l: &mut Local,
    m: Mode,
    fuel: u64,
    subject: &Option<Value>,
    whens: &Vec<(Expr, Expr)>,
    i: usize,
) -> (r: Result<Option<Value>, Exc>)
    requires
        old(ses).wf(),
        old(db)@.state.wf(),
        i <= whens@.len(),
    ensures
        keeps(
            exec::case_from(m, fuel as nat, now(*old(ses), *old(db), *old(l)), vars::opt_datum(*subject), ast::expr_exprs_tree(*whens), i as int),
            now(*final(ses), *final(db), *final(l)),
            r,
            |v: Option<Value>| vars::opt_datum(v),
        ),
        final(ses).wf(),
        final(db)@.state.wf(),
    decreases fuel, 0int, whens, whens@.len() - i,
{
    if i >= whens.len() {
        return Ok(None);
    }
    assert(ast::expr_exprs_tree(*whens)[i as int] == (whens@[i as int].0@, whens@[i as int].1@));
    if case_hit(ses, db, l, m, fuel, subject, &whens[i].0)? {
        let v = value_of(ses, db, l, m, fuel, &whens[i].1)?;
        return Ok(Some(v));
    }
    case_from(ses, db, l, m, fuel, subject, whens, i + 1)
}

#[verifier::spinoff_prover]
#[verifier::rlimit(30)]
pub(crate) fn case_hit(
    ses: &mut Session,
    db: &mut Database,
    l: &mut Local,
    m: Mode,
    fuel: u64,
    subject: &Option<Value>,
    cond: &Expr,
) -> (r: Result<bool, Exc>)
    requires
        old(ses).wf(),
        old(db)@.state.wf(),
    ensures
        keeps(
            exec::case_hit(m, fuel as nat, now(*old(ses), *old(db), *old(l)), vars::opt_datum(*subject), cond@),
            now(*final(ses), *final(db), *final(l)),
            r,
            |v: bool| v,
        ),
        final(ses).wf(),
        final(db)@.state.wf(),
    decreases fuel, 0int, cond, 4int,
{
    match subject {
        Some(v) => {
            let w = value_of(ses, db, l, m, fuel, cond)?;
            same_value(ses, db, l, v, &w)
        },
        None => {
            let t = truth_of(ses, db, l, m, fuel, cond)?;
            match t {
                Some(b) => Ok(b),
                None => Ok(false),
            }
        },
    }
}

proof fn function_tree(e: Expr)
    requires
        e is Function,
    ensures
        e@ == (tree::Expr::Function {
            name: e->Function_name@,
            args: ast::exprs_tree(e->Function_args),
            distinct: e->Function_distinct,
        }),
        ast::exprs_tree(e->Function_args).len() == e->Function_args@.len(),
        forall|i: int|
            0 <= i < e->Function_args@.len() ==> #[trigger] ast::exprs_tree(e->Function_args)[i]
                == e->Function_args@[i]@,
{
}

/// What NVL2 gives.
pub open spec fn picked(m: Mode, fuel: nat, s: State, args: Seq<tree::Expr>) -> Out<Option<Datum>> {
    let x = exec::value_of(m, fuel, s, args[0]);
    match x.r {
        Err(e) => exec::thrown(x.s, e),
        Ok(v) => {
            let y = exec::value_of(
                m,
                fuel,
                x.s,
                if v is Null {
                    args[2]
                } else {
                    args[1]
                },
            );
            match y.r {
                Err(e) => exec::thrown(y.s, e),
                Ok(v) => exec::fine(y.s, Some(v)),
            }
        },
    }
}

/// What DECODE gives.
pub open spec fn matched(m: Mode, fuel: nat, s: State, args: Seq<tree::Expr>) -> Out<Option<Datum>> {
    let x = exec::value_of(m, fuel, s, args[0]);
    match x.r {
        Err(e) => exec::thrown(x.s, e),
        Ok(v) => exec::decode_from(m, fuel, x.s, v, args, 1),
    }
}

/// Evaluates NVL2.
#[verifier::spinoff_prover]
#[verifier::rlimit(80)]
fn nvl2_value(
    ses: &mut Session,
    db: &mut Database,
    l: &mut Local,
    m: Mode,
    fuel: u64,
    args: &Vec<Expr>,
) -> (r: Result<Option<Value>, Exc>)
    requires
        old(ses).wf(),
        old(db)@.state.wf(),
        args@.len() == 3,
    ensures
        keeps(
            picked(m, fuel as nat, now(*old(ses), *old(db), *old(l)), ast::exprs_tree(*args)),
            now(*final(ses), *final(db), *final(l)),
            r,
            |v: Option<Value>| vars::opt_datum(v),
        ),
        final(ses).wf(),
        final(db)@.state.wf(),
    decreases fuel, 0int, args, 0int,
{
    assert(ast::exprs_tree(*args)[0] == args@[0]@);
    assert(ast::exprs_tree(*args)[1] == args@[1]@);
    assert(ast::exprs_tree(*args)[2] == args@[2]@);
    let v = value_of(ses, db, l, m, fuel, &args[0])?;
    let w = if v.is_null() {
        value_of(ses, db, l, m, fuel, &args[2])?
    } else {
        value_of(ses, db, l, m, fuel, &args[1])?
    };
    Ok(Some(w))
}

/// Evaluates DECODE.
#[verifier::spinoff_prover]
#[verifier::rlimit(80)]
fn decode_value(
    ses: &mut Session,
    db: &mut Database,
    l: &mut Local,
    m: Mode,
    fuel: u64,
    args: &Vec<Expr>,
) -> (r: Result<Option<Value>, Exc>)
    requires
        old(ses).wf(),
        old(db)@.state.wf(),
        args@.len() >= 3,
    ensures
        keeps(
            matched(m, fuel as nat, now(*old(ses), *old(db), *old(l)), ast::exprs_tree(*args)),
            now(*final(ses), *final(db), *final(l)),
            r,
            |v: Option<Value>| vars::opt_datum(v),
        ),
        final(ses).wf(),
        final(db)@.state.wf(),
    decreases fuel, 0int, args, args@.len(),
{
    assert(ast::exprs_tree(*args)[0] == args@[0]@);
    let v = value_of(ses, db, l, m, fuel, &args[0])?;
    decode_from(ses, db, l, m, fuel, &v, args, 1)
}

#[verifier::spinoff_prover]
#[verifier::rlimit(60)]
pub(crate) fn lazy_call(
    ses: &mut Session,
    db: &mut Database,
    l: &mut Local,
    m: Mode,
    fuel: u64,
    e: &Expr,
) -> (r: Result<Option<Value>, Exc>)
    requires
        old(ses).wf(),
        old(db)@.state.wf(),
        e is Function,
    ensures
        keeps(
            exec::lazy_call(m, fuel as nat, now(*old(ses), *old(db), *old(l)), e@),
            now(*final(ses), *final(db), *final(l)),
            r,
            |v: Option<Value>| vars::opt_datum(v),
        ),
        final(ses).wf(),
        final(db)@.state.wf(),
    decreases fuel, 0int, e, 0int,
{
    match e {
        Expr::Function { name, args, .. } => {
            proof {
                function_tree(*e);
            }
            let n: usize = args.len();
            if (text::same(name, "NVL") && n == 2) || (text::same(name, "COALESCE") && n >= 1) {
                return first_value(ses, db, l, m, fuel, args, 0);
            }
            if text::same(name, "NVL2") && n == 3 {
                return nvl2_value(ses, db, l, m, fuel, args);
            }
            if text::same(name, "DECODE") && n >= 3 {
                return decode_value(ses, db, l, m, fuel, args);
            }
            Ok(None)
        },
        _ => Ok(None),
    }
}

#[verifier::spinoff_prover]
#[verifier::rlimit(30)]
pub(crate) fn first_value(
    ses: &mut Session,
    db: &mut Database,
    l: &mut Local,
    m: Mode,
    fuel: u64,
    args: &Vec<Expr>,
    i: usize,
) -> (r: Result<Option<Value>, Exc>)
    requires
        old(ses).wf(),
        old(db)@.state.wf(),
        i <= args@.len(),
    ensures
        keeps(
            exec::first_value(m, fuel as nat, now(*old(ses), *old(db), *old(l)), ast::exprs_tree(*args), i as int),
            now(*final(ses), *final(db), *final(l)),
            r,
            |v: Option<Value>| vars::opt_datum(v),
        ),
        final(ses).wf(),
        final(db)@.state.wf(),
    decreases fuel, 0int, args, args@.len() - i,
{
    if i >= args.len() {
        return Ok(Some(Value::Null));
    }
    assert(ast::exprs_tree(*args)[i as int] == args@[i as int]@);
    let v = value_of(ses, db, l, m, fuel, &args[i])?;
    if v.is_null() {
        return first_value(ses, db, l, m, fuel, args, i + 1);
    }
    Ok(Some(v))
}

#[verifier::spinoff_prover]
#[verifier::rlimit(30)]
pub(crate) fn decode_from(
    ses: &mut Session,
    db: &mut Database,
    l: &mut Local,
    m: Mode,
    fuel: u64,
    v: &Value,
    args: &Vec<Expr>,
    i: usize,
) -> (r: Result<Option<Value>, Exc>)
    requires
        old(ses).wf(),
        old(db)@.state.wf(),
        i <= args@.len(),
    ensures
        keeps(
            exec::decode_from(m, fuel as nat, now(*old(ses), *old(db), *old(l)), v@, ast::exprs_tree(*args), i as int),
            now(*final(ses), *final(db), *final(l)),
            r,
            |v: Option<Value>| vars::opt_datum(v),
        ),
        final(ses).wf(),
        final(db)@.state.wf(),
    decreases fuel, 0int, args, args@.len() - i,
{
    let n: usize = args.len();
    if i >= n {
        return Ok(Some(Value::Null));
    }
    assert(ast::exprs_tree(*args)[i as int] == args@[i as int]@);
    if n - i == 1 {
        let w = value_of(ses, db, l, m, fuel, &args[i])?;
        return Ok(Some(w));
    }
    assert(ast::exprs_tree(*args)[i + 1] == args@[i + 1]@);
    if decode_hit(ses, db, l, m, fuel, v, &args[i])? {
        let w = value_of(ses, db, l, m, fuel, &args[i + 1])?;
        return Ok(Some(w));
    }
    decode_from(ses, db, l, m, fuel, v, args, i + 2)
}

#[verifier::spinoff_prover]
#[verifier::rlimit(30)]
pub(crate) fn decode_hit(
    ses: &mut Session,
    db: &mut Database,
    l: &mut Local,
    m: Mode,
    fuel: u64,
    v: &Value,
    search: &Expr,
) -> (r: Result<bool, Exc>)
    requires
        old(ses).wf(),
        old(db)@.state.wf(),
    ensures
        keeps(
            exec::decode_hit(m, fuel as nat, now(*old(ses), *old(db), *old(l)), v@, search@),
            now(*final(ses), *final(db), *final(l)),
            r,
            |v: bool| v,
        ),
        final(ses).wf(),
        final(db)@.state.wf(),
    decreases fuel, 0int, search, 4int,
{
    let w = value_of(ses, db, l, m, fuel, search)?;
    if v.is_null() && w.is_null() {
        return Ok(true);
    }
    same_value(ses, db, l, v, &w)
}

fn unnamed(es: Vec<Expr>) -> (r: Vec<Arg>)
    ensures
        plsql::args_tree(r) == exec::unnamed(ast::exprs_tree(es)),
{
    let ghost all = ast::exprs_tree(es);
    let mut out: Vec<Arg> = Vec::new();
    for i in 0..es.len()
        invariant
            all == ast::exprs_tree(es),
            out@.len() == i,
            forall|k: int|
                0 <= k < i ==> plsql::arg_tree(#[trigger] out@[k]) == (tree::Arg {
                    name: None,
                    value: all[k],
                }),
    {
        let value = ast::copy_expr(&es[i]);
        assert(all[i as int] == es@[i as int]@);
        out.push(Arg { name: None, value });
    }
    assert(plsql::args_tree(out) =~= exec::unnamed(all));
    out
}

#[verifier::spinoff_prover]
#[verifier::rlimit(30)]
pub(crate) fn call_result(
    ses: &mut Session,
    db: &mut Database,
    l: &mut Local,
    m: Mode,
    fuel: u64,
    r_: &Arc<Routine>,
    args: &Vec<Arg>,
) -> (r: Result<Expr, Exc>)
    requires
        old(ses).wf(),
        old(db)@.state.wf(),
    ensures
        keeps(
            exec::call_result(m, fuel as nat, now(*old(ses), *old(db), *old(l)), Calling { r: plsql::routine_tree(**r_), args: plsql::args_tree(*args) }),
            now(*final(ses), *final(db), *final(l)),
            r,
            |v: Expr| ast::expr_tree(v),
        ),
        final(ses).wf(),
        final(db)@.state.wf(),
    decreases fuel, 4int, r_, 8 + r_.params@.len(),
{
    match called(ses, db, l, m, fuel, r_, args)? {
        Some(v) => Ok(Expr::Literal(v)),
        None => Ok(Expr::Literal(Value::Null)),
    }
}

#[verifier::spinoff_prover]
#[verifier::rlimit(80)]
pub(crate) fn resolved_parts(
    ses: &mut Session,
    db: &mut Database,
    l: &mut Local,
    m: Mode,
    fuel: u64,
    e: &Expr,
) -> (r: Result<Expr, Exc>)
    requires
        old(ses).wf(),
        old(db)@.state.wf(),
    ensures
        keeps(
            exec::resolved_parts(m, fuel as nat, now(*old(ses), *old(db), *old(l)), e@),
            now(*final(ses), *final(db), *final(l)),
            r,
            |v: Expr| ast::expr_tree(v),
        ),
        final(ses).wf(),
        final(db)@.state.wf(),
    decreases fuel, 0int, e, 1int,
{
    match e {
        Expr::Column { .. } => resolved_name(ses, db, l, m, fuel, e),
        Expr::Function { .. } => resolved_call(ses, db, l, m, fuel, e),
        Expr::InList { .. } => resolved_in(ses, db, l, m, fuel, e),
        Expr::Between { .. } => resolved_between(ses, db, l, m, fuel, e),
        Expr::Like { .. } => resolved_like(ses, db, l, m, fuel, e),
        Expr::Binary(..) => resolved_binary(ses, db, l, m, fuel, e),
        _ => resolved_operand(ses, db, l, m, fuel, e),
    }
}

#[verifier::spinoff_prover]
#[verifier::rlimit(80)]
pub(crate) fn resolved_name(
    ses: &mut Session,
    db: &mut Database,
    l: &mut Local,
    m: Mode,
    fuel: u64,
    e: &Expr,
) -> (r: Result<Expr, Exc>)
    requires
        old(ses).wf(),
        old(db)@.state.wf(),
        e is Column,
    ensures
        keeps(
            exec::resolved_name(m, fuel as nat, now(*old(ses), *old(db), *old(l)), e@),
            now(*final(ses), *final(db), *final(l)),
            r,
            |v: Expr| ast::expr_tree(v),
        ),
        final(ses).wf(),
        final(db)@.state.wf(),
    decreases fuel, 0int, e, 0int,
{
    match e {
        Expr::Column { table, name } => {
            assert(e@ == tree::Expr::Column { table: ast::opt_text_tree(*table), name: name@ });
            match find_routine(ses, db, l, name) {
                Some(x) => {
                    if table.is_some() {
                        return Ok(ast::copy_expr(e));
                    }
                    if fuel == 0 {
                        return Err(exec::exhaustion());
                    }
                    let none = plsql::no_args();
                    call_result(ses, db, l, m, fuel - 1, &x, &none)
                },
                None => Ok(ast::copy_expr(e)),
            }
        },
        _ => Ok(ast::copy_expr(e)),
    }
}

#[verifier::spinoff_prover]
#[verifier::rlimit(80)]
pub(crate) fn resolved_call(
    ses: &mut Session,
    db: &mut Database,
    l: &mut Local,
    m: Mode,
    fuel: u64,
    e: &Expr,
) -> (r: Result<Expr, Exc>)
    requires
        old(ses).wf(),
        old(db)@.state.wf(),
        e is Function,
    ensures
        keeps(
            exec::resolved_call(m, fuel as nat, now(*old(ses), *old(db), *old(l)), e@),
            now(*final(ses), *final(db), *final(l)),
            r,
            |v: Expr| ast::expr_tree(v),
        ),
        final(ses).wf(),
        final(db)@.state.wf(),
    decreases fuel, 0int, e, 0int,
{
    match e {
        Expr::Function { name, args, distinct } => {
            proof {
                function_tree(*e);
            }
            let routine = find_routine(ses, db, l, name);
            let a = resolved_list(ses, db, l, m, fuel, args, args.len())?;
            match routine {
                Some(x) => {
                    if fuel == 0 {
                        return Err(exec::exhaustion());
                    }
                    let given = unnamed(a);
                    call_result(ses, db, l, m, fuel - 1, &x, &given)
                },
                None => Ok(Expr::Function { name: name.clone(), args: a, distinct: *distinct }),
            }
        },
        _ => Ok(ast::copy_expr(e)),
    }
}

#[verifier::spinoff_prover]
#[verifier::rlimit(80)]
pub(crate) fn resolved_in(
    ses: &mut Session,
    db: &mut Database,
    l: &mut Local,
    m: Mode,
    fuel: u64,
    e: &Expr,
) -> (r: Result<Expr, Exc>)
    requires
        old(ses).wf(),
        old(db)@.state.wf(),
        e is InList,
    ensures
        keeps(
            exec::resolved_in(m, fuel as nat, now(*old(ses), *old(db), *old(l)), e@),
            now(*final(ses), *final(db), *final(l)),
            r,
            |v: Expr| ast::expr_tree(v),
        ),
        final(ses).wf(),
        final(db)@.state.wf(),
    decreases fuel, 0int, e, 0int,
{
    match e {
        Expr::InList { expr, list, negated } => {
            assert(ast::exprs_tree(*list).len() == list@.len());
            let a = resolved(ses, db, l, m, fuel, expr)?;
            let b = resolved_list(ses, db, l, m, fuel, list, list.len())?;
            Ok(Expr::InList { expr: Box::new(a), list: b, negated: *negated })
        },
        _ => Ok(ast::copy_expr(e)),
    }
}

#[verifier::spinoff_prover]
#[verifier::rlimit(80)]
pub(crate) fn resolved_between(
    ses: &mut Session,
    db: &mut Database,
    l: &mut Local,
    m: Mode,
    fuel: u64,
    e: &Expr,
) -> (r: Result<Expr, Exc>)
    requires
        old(ses).wf(),
        old(db)@.state.wf(),
        e is Between,
    ensures
        keeps(
            exec::resolved_between(m, fuel as nat, now(*old(ses), *old(db), *old(l)), e@),
            now(*final(ses), *final(db), *final(l)),
            r,
            |v: Expr| ast::expr_tree(v),
        ),
        final(ses).wf(),
        final(db)@.state.wf(),
    decreases fuel, 0int, e, 0int,
{
    match e {
        Expr::Between { expr, low, high, negated } => {
            let x = resolved(ses, db, l, m, fuel, expr)?;
            let y = resolved(ses, db, l, m, fuel, low)?;
            let z = resolved(ses, db, l, m, fuel, high)?;
            Ok(
                Expr::Between {
                    expr: Box::new(x),
                    low: Box::new(y),
                    high: Box::new(z),
                    negated: *negated,
                },
            )
        },
        _ => Ok(ast::copy_expr(e)),
    }
}

#[verifier::spinoff_prover]
#[verifier::rlimit(80)]
pub(crate) fn resolved_like(
    ses: &mut Session,
    db: &mut Database,
    l: &mut Local,
    m: Mode,
    fuel: u64,
    e: &Expr,
) -> (r: Result<Expr, Exc>)
    requires
        old(ses).wf(),
        old(db)@.state.wf(),
        e is Like,
    ensures
        keeps(
            exec::resolved_like(m, fuel as nat, now(*old(ses), *old(db), *old(l)), e@),
            now(*final(ses), *final(db), *final(l)),
            r,
            |v: Expr| ast::expr_tree(v),
        ),
        final(ses).wf(),
        final(db)@.state.wf(),
    decreases fuel, 0int, e, 0int,
{
    match e {
        Expr::Like { expr, pattern, escape, negated } => {
            let x = resolved(ses, db, l, m, fuel, expr)?;
            let y = resolved(ses, db, l, m, fuel, pattern)?;
            let z = resolved_opt(ses, db, l, m, fuel, escape)?;
            Ok(
                Expr::Like {
                    expr: Box::new(x),
                    pattern: Box::new(y),
                    escape: z,
                    negated: *negated,
                },
            )
        },
        _ => Ok(ast::copy_expr(e)),
    }
}

#[verifier::spinoff_prover]
#[verifier::rlimit(80)]
pub(crate) fn resolved_binary(
    ses: &mut Session,
    db: &mut Database,
    l: &mut Local,
    m: Mode,
    fuel: u64,
    e: &Expr,
) -> (r: Result<Expr, Exc>)
    requires
        old(ses).wf(),
        old(db)@.state.wf(),
        e is Binary,
    ensures
        keeps(
            exec::resolved_binary(m, fuel as nat, now(*old(ses), *old(db), *old(l)), e@),
            now(*final(ses), *final(db), *final(l)),
            r,
            |v: Expr| ast::expr_tree(v),
        ),
        final(ses).wf(),
        final(db)@.state.wf(),
    decreases fuel, 0int, e, 0int,
{
    match e {
        Expr::Binary(op, a, b) => {
            let x = resolved(ses, db, l, m, fuel, a)?;
            let y = resolved(ses, db, l, m, fuel, b)?;
            Ok(Expr::Binary(*op, Box::new(x), Box::new(y)))
        },
        _ => Ok(ast::copy_expr(e)),
    }
}

#[verifier::spinoff_prover]
#[verifier::rlimit(80)]
pub(crate) fn resolved_operand(
    ses: &mut Session,
    db: &mut Database,
    l: &mut Local,
    m: Mode,
    fuel: u64,
    e: &Expr,
) -> (r: Result<Expr, Exc>)
    requires
        old(ses).wf(),
        old(db)@.state.wf(),
    ensures
        keeps(
            exec::resolved_operand(m, fuel as nat, now(*old(ses), *old(db), *old(l)), e@),
            now(*final(ses), *final(db), *final(l)),
            r,
            |v: Expr| ast::expr_tree(v),
        ),
        final(ses).wf(),
        final(db)@.state.wf(),
    decreases fuel, 0int, e, 0int,
{
    match e {
        Expr::Neg(a) => {
            let x = resolved(ses, db, l, m, fuel, a)?;
            Ok(Expr::Neg(Box::new(x)))
        },
        Expr::Not(a) => {
            let x = resolved(ses, db, l, m, fuel, a)?;
            Ok(Expr::Not(Box::new(x)))
        },
        Expr::IsNull { expr, negated } => {
            let x = resolved(ses, db, l, m, fuel, expr)?;
            Ok(Expr::IsNull { expr: Box::new(x), negated: *negated })
        },
        _ => Ok(ast::copy_expr(e)),
    }
}

#[verifier::spinoff_prover]
#[verifier::rlimit(30)]
pub(crate) fn resolved_opt(
    ses: &mut Session,
    db: &mut Database,
    l: &mut Local,
    m: Mode,
    fuel: u64,
    e: &Option<Box<Expr>>,
) -> (r: Result<Option<Box<Expr>>, Exc>)
    requires
        old(ses).wf(),
        old(db)@.state.wf(),
    ensures
        keeps(
            exec::resolved_opt(m, fuel as nat, now(*old(ses), *old(db), *old(l)), ast::opt_boxed_expr_tree(*e)),
            now(*final(ses), *final(db), *final(l)),
            r,
            |v: Option<Box<Expr>>| ast::opt_boxed_expr_tree(v),
        ),
        final(ses).wf(),
        final(db)@.state.wf(),
    decreases fuel, 0int, e, 4int,
{
    match e {
        Some(x) => {
            let v = resolved(ses, db, l, m, fuel, x)?;
            Ok(Some(Box::new(v)))
        },
        None => Ok(None),
    }
}

#[verifier::spinoff_prover]
#[verifier::rlimit(30)]
pub(crate) fn resolved_list(
    ses: &mut Session,
    db: &mut Database,
    l: &mut Local,
    m: Mode,
    fuel: u64,
    es: &Vec<Expr>,
    n: usize,
) -> (r: Result<Vec<Expr>, Exc>)
    requires
        old(ses).wf(),
        old(db)@.state.wf(),
        n <= es@.len(),
    ensures
        keeps(
            exec::resolved_list(m, fuel as nat, now(*old(ses), *old(db), *old(l)), ast::exprs_tree(*es), n as int),
            now(*final(ses), *final(db), *final(l)),
            r,
            |v: Vec<Expr>| ast::exprs_tree(v),
        ),
        final(ses).wf(),
        final(db)@.state.wf(),
    decreases fuel, 0int, es, n,
{
    if n == 0 {
        return Ok(ast::no_exprs());
    }
    let ghost all = ast::exprs_tree(*es);
    assert(all.len() == es@.len());
    assert(all[n - 1] == es@[n - 1]@);
    let mut out = resolved_list(ses, db, l, m, fuel, es, n - 1)?;
    let x = resolved(ses, db, l, m, fuel, &es[n - 1])?;
    let ghost before = out;
    out.push(x);
    assert(ast::exprs_tree(out) =~= ast::exprs_tree(before).push(x@));
    Ok(out)
}

/// A value as a whole number.
fn whole_number(v: &Value) -> (r: Result<i64, OraError>)
    ensures
        match r {
            Ok(n) => exec::whole_number(v@) == Ok::<int, Failure>(n as int),
            Err(e) => exec::whole_number(v@) == Err::<int, Failure>(e@),
        },
{
    match v.to_number() {
        Err(e) => Err(state::to_value_error(e)),
        Ok(None) => Err(state::value_error_of("")),
        Ok(Some(n)) => match n.round(0, Rounding::HalfUp) {
            Some(w) => match w.to_i64() {
                Some(i) => Ok(i),
                None => Err(state::value_error_of("")),
            },
            None => Err(state::value_error_of("")),
        },
    }
}

#[verifier::spinoff_prover]
#[verifier::rlimit(30)]
pub(crate) fn int_of(
    ses: &mut Session,
    db: &mut Database,
    l: &mut Local,
    m: Mode,
    fuel: u64,
    e: &Expr,
) -> (r: Result<i64, Exc>)
    requires
        old(ses).wf(),
        old(db)@.state.wf(),
    ensures
        keeps(
            exec::int_of(m, fuel as nat, now(*old(ses), *old(db), *old(l)), e@),
            now(*final(ses), *final(db), *final(l)),
            r,
            |v: i64| v as int,
        ),
        final(ses).wf(),
        final(db)@.state.wf(),
    decreases fuel, 0int, e, 4int,
{
    let v = value_of(ses, db, l, m, fuel, e)?;
    match whole_number(&v) {
        Ok(n) => Ok(n),
        Err(e) => Err(Exc::of(e)),
    }
}

} // verus!
