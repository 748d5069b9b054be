//! The parameters of a cursor.

use std::sync::Arc;

use vstd::prelude::*;
use vstd::string::*;

use crate::ast;
use crate::ast::Expr;
use crate::ddl::Database;
use crate::plsql;
use crate::plsql::exec;
use crate::plsql::exec::Mode;
use crate::plsql::state;
use crate::plsql::state::Local;
use crate::plsql::vars;
use crate::plsql::vars::{Exc, Slot, Var, Variable};
use crate::plsql::{CursorDecl, Param};
use crate::session::Session;
use crate::tree;
use crate::value::{Datum, Value};

use crate::plsql::calls::seen_catalog;
use crate::plsql::interp::{keeps, now, value_of};

verus! {

proof fn decl_parts(d: CursorDecl, i: int)
    requires
        0 <= i < d.params@.len(),
    ensures
        d@.params.len() == d.params@.len(),
        d@.params[i] == d.params@[i]@,
        d.params@[i]@.default == ast::opt_expr_tree(d.params@[i].default),
        d.params@[i]@.name == d.params@[i].name@,
        d.params@[i]@.ty == plsql::type_ref_tree(d.params@[i].ty),
{
}

/// A cursor's parameter is not set where its value cannot be computed.
proof fn values_fail(p: tree::Param)
    ensures
        forall|x: exec::Out<Datum>|
            x.r is Err ==> #[trigger] exec::cursor_value(x, p) == exec::thrown::<
                (Seq<char>, Variable),
            >(x.s, x.r->Err_0),
{
    reveal(exec::cursor_value);
}

/// Converts a cursor's argument to its parameter's type.
fn typed_param(ses: &Session, db: &Database, l: &Local, p: &Param, v: Value) -> (r: Result<
    (String, Var),
    Exc,
>)
    ensures
        keeps(
            exec::cursor_value(exec::fine(now(*ses, *db, *l), v@), p@),
            now(*ses, *db, *l),
            r,
            |v: (String, Var)| (v.0@, v.1@),
        ),
{
    proof {
        reveal(exec::cursor_value);
    }
    assert(p@.name == p.name@);
    assert(p@.ty == plsql::type_ref_tree(p.ty));
    let (ty, _) = match state::var_type(seen_catalog(ses, db), &l.frames, &p.ty) {
        Ok(x) => x,
        Err(e) => {
            return Err(Exc::of(e));
        },
    };
    match state::convert(&ses.env, ty, v) {
        Ok(x) => Ok(
            (
                p.name.clone(),
                Var { ty, slot: Slot::Scalar(x), constant: true, not_null: false },
            ),
        ),
        Err(e) => Err(Exc::of(e)),
    }
}

#[verifier::spinoff_prover]
#[verifier::rlimit(60)]
pub(crate) fn cursor_param(
    ses: &mut Session,
    db: &mut Database,
    l: &mut Local,
    m: Mode,
    fuel: u64,
    d: &CursorDecl,
    args: &Vec<Expr>,
    i: usize,
) -> (r: Result<(String, Var), Exc>)
    requires
        old(ses).wf(),
        old(db)@.state.wf(),
        i < d.params@.len(),
    ensures
        keeps(
            exec::cursor_param(m, fuel as nat, now(*old(ses), *old(db), *old(l)), exec::Opening { decl: d@, args: ast::exprs_tree(*args) }, i as int),
            now(*final(ses), *final(db), *final(l)),
            r,
            |v: (String, Var)| (v.0@, v.1@),
        ),
        final(ses).wf(),
        final(db)@.state.wf(),
    decreases fuel, 1int, args, 0int,
{
    proof {
        decl_parts(*d, i as int);
    }
    assert(ast::exprs_tree(*args).len() == args@.len());
    let ghost p_ = d.params@[i as int]@;
    let p = &d.params[i];
    let v = if i < args.len() {
        assert(ast::exprs_tree(*args)[i as int] == args@[i as int]@);
        value_of(ses, db, l, m, fuel, &args[i])
    } else {
        match &p.default {
            Some(x) => value_of(ses, db, l, m, fuel, x),
            None => {
                return Err(Exc::of(exec::wrong_args_error(&d.name)));
            },
        }
    };
    proof {
        values_fail(p_);
    }
    match v {
        Ok(v) => typed_param(ses, db, l, p, v),
        Err(e) => Err(e),
    }
}

#[verifier::spinoff_prover]
#[verifier::rlimit(60)]
pub(crate) fn cursor_params(
    ses: &mut Session,
    db: &mut Database,
    l: &mut Local,
    m: Mode,
    fuel: u64,
    d: &CursorDecl,
    args: &Vec<Expr>,
    n: usize,
) -> (r: Result<Vec<(String, Var)>, Exc>)
    requires
        old(ses).wf(),
        old(db)@.state.wf(),
        n <= d.params@.len(),
    ensures
        keeps(
            exec::cursor_params(m, fuel as nat, now(*old(ses), *old(db), *old(l)), exec::Opening { decl: d@, args: ast::exprs_tree(*args) }, n as int),
            now(*final(ses), *final(db), *final(l)),
            r,
            |v: Vec<(String, Var)>| vars::vars_of(v@),
        ),
        final(ses).wf(),
        final(db)@.state.wf(),
    decreases fuel, 1int, args, 1 + n,
{
    let ghost q = exec::Opening { decl: d@, args: ast::exprs_tree(*args) };
    assert(q.decl.params == plsql::params_tree(d.params));
    assert(q.decl.params.len() == d.params@.len());
    if n == 0 {
        let out: Vec<(String, Var)> = Vec::new();
        assert(vars::vars_of(out@) =~= Seq::empty());
        return Ok(out);
    }
    let mut out = cursor_params(ses, db, l, m, fuel, d, args, n - 1)?;
    let v = cursor_param(ses, db, l, m, fuel, d, args, n - 1)?;
    let ghost before = vars::vars_of(out@);
    let ghost shown = (v.0@, v.1@);
    out.push(v);
    assert(vars::vars_of(out@) =~= before.push(shown));
    Ok(out)
}

} // verus!
