//! EXECUTE IMMEDIATE.

use std::sync::Arc;

use vstd::prelude::*;
use vstd::string::*;

use crate::ast;
use crate::ast::{Expr, Query, Statement};
use crate::ddl::Database;
use crate::error::OraError;
use crate::functions;
use crate::parser;
use crate::plsql;
use crate::plsql::exec;
use crate::plsql::exec::Mode;
use crate::plsql::state;
use crate::plsql::state::Local;
use crate::plsql::vars::Exc;
use crate::plsql::{Block, Stmt, Target};
use crate::session::Session;
use crate::text;
use crate::tree;
use crate::value::Value;

use crate::plsql::calls::block_run;
use crate::plsql::interp::{keeps, now, value_of};
use crate::plsql::run::{capped_count, fill_row, no_data_found, too_many_rows, names_of};

verus! {

#[verifier::spinoff_prover]
#[verifier::rlimit(30)]
pub(crate) fn values_upto(
    ses: &mut Session,
    db: &mut Database,
    l: &mut Local,
    m: Mode,
    fuel: u64,
    es: &Vec<Expr>,
    n: usize,
) -> (r: Result<Vec<Value>, Exc>)
    requires
        old(ses).wf(),
        old(db)@.state.wf(),
        n <= es@.len(),
    ensures
        keeps(
            exec::values_upto(m, fuel as nat, now(*old(ses), *old(db), *old(l)), ast::exprs_tree(*es), n as int),
            now(*final(ses), *final(db), *final(l)),
            r,
            |v: Vec<Value>| functions::views(v@),
        ),
        final(ses).wf(),
        final(db)@.state.wf(),
    decreases fuel, 1int, es, n,
{
    if n == 0 {
        let out: Vec<Value> = Vec::new();
        assert(functions::views(out@) =~= Seq::empty());
        return Ok(out);
    }
    let ghost all = ast::exprs_tree(*es);
    assert(all.len() == es@.len());
    assert(all[n - 1] == es@[n - 1]@);
    let mut out = values_upto(ses, db, l, m, fuel, es, n - 1)?;
    let v = value_of(ses, db, l, m, fuel, &es[n - 1])?;
    let ghost before = functions::views(out@);
    out.push(v);
    assert(functions::views(out@) =~= before.push(v@));
    Ok(out)
}

proof fn dynamic_tree(st: Stmt)
    requires
        st is ExecuteImmediate,
    ensures
        st@ == (tree::Stmt::ExecuteImmediate {
            sql: st->ExecuteImmediate_sql@,
            into: plsql::targets_tree(st->ExecuteImmediate_into),
            using: ast::exprs_tree(st->ExecuteImmediate_using),
        }),
        ast::exprs_tree(st->ExecuteImmediate_using).len() == st->ExecuteImmediate_using@.len(),
{
}

/// Runs EXECUTE IMMEDIATE.
#[verifier::spinoff_prover]
#[verifier::rlimit(60)]
pub(crate) fn dynamic_run(
    ses: &mut Session,
    db: &mut Database,
    l: &mut Local,
    m: Mode,
    fuel: u64,
    st: &Stmt,
) -> (r: Result<(), Exc>)
    requires
        old(ses).wf(),
        old(db)@.state.wf(),
        st is ExecuteImmediate,
    ensures
        keeps(
            exec::dynamic_run(m, fuel as nat, now(*old(ses), *old(db), *old(l)), st@),
            now(*final(ses), *final(db), *final(l)),
            r,
            |v: ()| v,
        ),
        final(ses).wf(),
        final(db)@.state.wf(),
    decreases fuel, 2int, st, 1int,
{
    match st {
        Stmt::ExecuteImmediate { sql, into, using } => {
            proof {
                dynamic_tree(*st);
            }
            let v = value_of(ses, db, l, m, fuel, sql)?;
            if v.is_null() {
                return Err(Exc::of(OraError::new(900, "invalid SQL statement")));
            }
            let binds = values_upto(ses, db, l, m, fuel, using, using.len())?;
            let sql_text = text::string_of(&text::trim(&v.to_string()));
            text_run(ses, db, l, m, fuel, &sql_text, binds, into)
        },
        _ => Ok(()),
    }
}

#[verifier::spinoff_prover]
#[verifier::rlimit(60)]
pub(crate) fn text_run(
    ses: &mut Session,
    db: &mut Database,
    l: &mut Local,
    m: Mode,
    fuel: u64,
    sql: &str,
    binds: Vec<Value>,
    into: &Vec<Target>,
) -> (r: Result<(), Exc>)
    requires
        old(ses).wf(),
        old(db)@.state.wf(),
    ensures
        keeps(
            exec::text_run(m, fuel as nat, now(*old(ses), *old(db), *old(l)), sql@, functions::views(binds@), plsql::targets_tree(*into)),
            now(*final(ses), *final(db), *final(l)),
            r,
            |v: ()| v,
        ),
        final(ses).wf(),
        final(db)@.state.wf(),
    decreases fuel, 1int, into, 0int,
{
    let parsed = match parser::parse_statement(sql) {
        Ok(p) => p,
        Err(e) => {
            return Err(Exc::of(e));
        },
    };
    if binds.len() < parsed.binds {
        return Err(Exc::of(OraError::new(1008, "not all variables bound")));
    }
    match &parsed.stmt {
        Statement::Block(b) => {
            if fuel == 0 {
                return Err(exec::exhaustion());
            }
            let mut inner = Local::new(binds);
            block_run(ses, db, &mut inner, m, fuel - 1, b)?;
            Ok(())
        },
        stmt => dynamic_sql(ses, db, l, m, stmt, &binds, into),
    }
}

#[verifier::spinoff_prover]
#[verifier::rlimit(60)]
fn dynamic_sql(
    ses: &mut Session,
    db: &mut Database,
    l: &mut Local,
    m: Mode,
    stmt: &Statement,
    binds: &Vec<Value>,
    into: &Vec<Target>,
) -> (r: Result<(), Exc>)
    requires
        old(ses).wf(),
        old(db)@.state.wf(),
    ensures
        keeps(
            exec::dynamic_sql(
                m,
                now(*old(ses), *old(db), *old(l)),
                stmt@,
                functions::views(binds@),
                plsql::targets_tree(*into),
            ),
            now(*final(ses), *final(db), *final(l)),
            r,
            |v: ()| v,
        ),
        final(ses).wf(),
        final(db)@.state.wf(),
{
    let o = match ses.run(db, stmt, binds, None, m.read_only) {
        Ok(o) => o,
        Err(e) => {
            return Err(Exc::of(e));
        },
    };
    assert(o@.rows.len() == o.rows@.len());
    assert(plsql::targets_tree(*into).len() == into@.len());
    match stmt {
        Statement::Query(_) => {
            if into.len() == 0 {
                l.rowcount = Some(0);
                return Ok(());
            }
            if o.rows.len() == 0 {
                return Err(no_data_found());
            }
            if o.rows.len() > 1 {
                return Err(too_many_rows());
            }
            l.rowcount = Some(1);
            assert(o@.rows[0] == functions::views(o.rows@[0]@));
            let names = names_of(&o.columns);
            fill_row(ses, db, l, into, &names, &o.rows[0])
        },
        Statement::Insert(_) | Statement::Update(_) | Statement::Delete(_) => {
            l.rowcount = Some(capped_count(o.rows_affected));
            Ok(())
        },
        _ => {
            l.rowcount = Some(0);
            Ok(())
        },
    }
}

} // verus!
