//! Opening cursors.

use std::sync::Arc;

use vstd::prelude::*;
use vstd::string::*;

use crate::ast;
use crate::ast::{Expr, Query};
use crate::ddl::Database;
use crate::error::OraError;
use crate::plsql;
use crate::plsql::assign;
use crate::plsql::exec;
use crate::plsql::exec::Mode;
use crate::plsql::state;
use crate::plsql::state::Local;
use crate::plsql::vars;
use crate::plsql::vars::{Exc, Frame, Level, OpenCursor, Var};
use crate::plsql::CursorDecl;
use crate::session::Session;
use crate::tree;

use crate::plsql::cursor_args::cursor_params;
use crate::plsql::interp::{keeps, now};
use crate::plsql::run::{opened, query_statement, run_sql};

verus! {

/// Runs a cursor's query with its parameters bound.
fn cursor_query(
    ses: &mut Session,
    db: &mut Database,
    l: &mut Local,
    m: Mode,
    params: Vec<(String, Var)>,
    q: &Query,
) -> (r: Result<OpenCursor, Exc>)
    requires
        old(ses).wf(),
        old(db)@.state.wf(),
    ensures
        keeps(
            exec::cursor_query(
                m,
                now(*old(ses), *old(db), *old(l)),
                vars::vars_of(params@),
                q@,
            ),
            now(*final(ses), *final(db), *final(l)),
            r,
            |v: OpenCursor| v@,
        ),
        final(ses).wf(),
        final(db)@.state.wf(),
{
    proof {
        reveal(exec::cursor_query);
    }
    let mut f = Frame::new();
    let ghost before = f@;
    let ghost shown = vars::vars_of(params@);
    f.vars = params;
    assert(f@ == (Level { vars: shown, ..before }));
    l.push_frame(f);
    let stmt = query_statement(q);
    let o = run_sql(ses, db, l, m, &stmt);
    l.pop_frame();
    match o {
        Ok(o) => Ok(opened(o)),
        Err(e) => Err(e),
    }
}

/// Runs a declared cursor's query.
#[verifier::spinoff_prover]
#[verifier::rlimit(80)]
pub(crate) fn query_opened(
    ses: &mut Session,
    db: &mut Database,
    l: &mut Local,
    m: Mode,
    fuel: u64,
    name: &String,
    args: &Vec<Expr>,
) -> (r: Result<OpenCursor, Exc>)
    requires
        old(ses).wf(),
        old(db)@.state.wf(),
    ensures
        keeps(
            exec::query_opened(m, fuel as nat, now(*old(ses), *old(db), *old(l)), name@, ast::exprs_tree(*args)),
            now(*final(ses), *final(db), *final(l)),
            r,
            |v: OpenCursor| v@,
        ),
        final(ses).wf(),
        final(db)@.state.wf(),
    decreases fuel, 1int, args, 9int,
{
    let (a, b) = match vars::cursor_place(&l.frames, name) {
        Some(p) => p,
        None => {
            return Err(Exc::of(state::not_declared_error(name)));
        },
    };
    assert(vars::levels(l.frames@)[a as int] == l.frames@[a as int]@);
    let copied = plsql::copy_cursor_decl(&l.frames[a].cursors[b].1.decl);
    let d = CursorDecl { name: name.clone(), params: copied.params, query: copied.query };
    assert(d@ == (tree::CursorDecl { name: name@, ..copied@ }));
    assert(ast::exprs_tree(*args).len() == args@.len());
    assert(d@.params.len() == d.params@.len());
    if args.len() > d.params.len() {
        return Err(Exc::of(exec::wrong_args_error(name)));
    }
    if fuel == 0 {
        return Err(exec::exhaustion());
    }
    let params = cursor_params(ses, db, l, m, fuel - 1, &d, args, d.params.len())?;
    cursor_query(ses, db, l, m, params, &d.query)
}

#[verifier::spinoff_prover]
#[verifier::rlimit(60)]
pub(crate) fn open_run(
    ses: &mut Session,
    db: &mut Database,
    l: &mut Local,
    m: Mode,
    fuel: u64,
    cursor: &String,
    args: &Vec<Expr>,
) -> (r: Result<(), Exc>)
    requires
        old(ses).wf(),
        old(db)@.state.wf(),
    ensures
        keeps(
            exec::open_run(m, fuel as nat, now(*old(ses), *old(db), *old(l)), cursor@, ast::exprs_tree(*args)),
            now(*final(ses), *final(db), *final(l)),
            r,
            |v: ()| v,
        ),
        final(ses).wf(),
        final(db)@.state.wf(),
    decreases fuel, 1int, args, 10int,
{
    match vars::cursor_place(&l.frames, cursor) {
        None => {
            return Err(Exc::of(state::not_declared_error(cursor)));
        },
        Some((a, b)) => {
            assert(vars::levels(l.frames@)[a as int] == l.frames@[a as int]@);
            if l.frames[a].cursors[b].1.open.is_some() {
                return Err(Exc::of(OraError::new(6511, "PL/SQL: cursor already open")));
            }
        },
    }
    let o = query_opened(ses, db, l, m, fuel, cursor, args)?;
    match vars::cursor_place(&l.frames, cursor) {
        None => Err(Exc::of(state::not_declared_error(cursor))),
        Some((a, b)) => {
            assign::set_cursor(&mut l.frames, a, b, Some(o));
            Ok(())
        },
    }
}

} // verus!
