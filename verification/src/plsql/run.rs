//! Running statements.

use std::sync::Arc;

use vstd::prelude::*;
use vstd::string::*;

use crate::ast;
use crate::ast::{Expr, Query, Statement};
use crate::ddl::Database;
use crate::dml;
use crate::dml::Column;
use crate::error::{Failure, OraError};
use crate::functions;
use crate::number;
use crate::parser;
use crate::plsql;
use crate::plsql::assign;
use crate::plsql::exec;
use crate::plsql::exec::{Flow, Mode, State};
use crate::plsql::state;
use crate::plsql::state::Local;
use crate::plsql::vars;
use crate::plsql::vars::{Exc, Frame, Level, OpenCursor, Slot, Var, VarType};
use crate::plsql::{Block, CursorSource, Stmt, Target};
use crate::session::{Outcome, Session};
use crate::text;
use crate::tree;
use crate::value;
use crate::value::{Datum, Value};

use crate::plsql::calling::call_run;
use crate::plsql::cursors::{open_run, query_opened};
use crate::plsql::dynamic::dynamic_run;
use crate::plsql::fetching::{closed, fetched};
use crate::plsql::calls::block_run;
use crate::plsql::interp::{case_hit, int_of, keeps, now, truth_of, value_of};

verus! {

/// Runs statements from `i` on.
#[verifier::spinoff_prover]
#[verifier::rlimit(30)]
pub(crate) fn statements_run(
    ses: &mut Session,
    db: &mut Database,
    l: &mut Local,
    m: Mode,
    fuel: u64,
    stmts: &Vec<Stmt>,
    i: usize,
) -> (r: Result<Flow, Exc>)
    requires
        old(ses).wf(),
        old(db)@.state.wf(),
        i <= stmts@.len(),
    ensures
        keeps(
            exec::statements_run(m, fuel as nat, now(*old(ses), *old(db), *old(l)), plsql::stmts_tree(*stmts), i as int),
            now(*final(ses), *final(db), *final(l)),
            r,
            |v: Flow| v@,
        ),
        final(ses).wf(),
        final(db)@.state.wf(),
    decreases fuel, 2int, stmts, stmts@.len() - i,
{
    if i >= stmts.len() {
        return Ok(Flow::Normal);
    }
    assert(plsql::stmts_tree(*stmts)[i as int] == stmts@[i as int]@);
    match statement_run(ses, db, l, m, fuel, &stmts[i])? {
        Flow::Normal => statements_run(ses, db, l, m, fuel, stmts, i + 1),
        f => Ok(f),
    }
}

pub open spec fn exec_parts(st: Stmt) -> int {
    match st {
        Stmt::If { branches, .. } => branches@.len() as int,
        Stmt::Case { whens, .. } => whens@.len() as int,
        _ => 0,
    }
}

pub(crate) fn store(ses: &Session, db: &Database, l: &mut Local, target: &Target, v: Value) -> (r: Result<
    (),
    Exc,
>)
    ensures
        keeps(
            exec::stored(now(*ses, *db, *old(l)), target@, v@),
            now(*ses, *db, *final(l)),
            r,
            |v: ()| v,
        ),
{
    match assign::assign(&ses.env, l, target, v) {
        Ok(_) => Ok(()),
        Err(e) => Err(Exc::of(e)),
    }
}

/// Assigns the value of an expression.
#[verifier::spinoff_prover]
#[verifier::rlimit(40)]
fn assign_run(
    ses: &mut Session,
    db: &mut Database,
    l: &mut Local,
    m: Mode,
    fuel: u64,
    target: &Target,
    value: &Expr,
) -> (r: Result<Flow, Exc>)
    requires
        old(ses).wf(),
        old(db)@.state.wf(),
    ensures
        keeps(
            exec::assign_run(m, fuel as nat, now(*old(ses), *old(db), *old(l)), target@, value@),
            now(*final(ses), *final(db), *final(l)),
            r,
            |v: Flow| v@,
        ),
        final(ses).wf(),
        final(db)@.state.wf(),
    decreases fuel, 1int, value, 4int,
{
    let v = value_of(ses, db, l, m, fuel, value)?;
    on_with(store(ses, db, l, target, v))
}

/// Runs a statement.
#[verifier::spinoff_prover]
#[verifier::rlimit(80)]
pub(crate) fn statement_run(
    ses: &mut Session,
    db: &mut Database,
    l: &mut Local,
    m: Mode,
    fuel: u64,
    st: &Stmt,
) -> (r: Result<Flow, Exc>)
    requires
        old(ses).wf(),
        old(db)@.state.wf(),
    ensures
        keeps(
            exec::statement_run(m, fuel as nat, now(*old(ses), *old(db), *old(l)), st@),
            now(*final(ses), *final(db), *final(l)),
            r,
            |v: Flow| v@,
        ),
        final(ses).wf(),
        final(db)@.state.wf(),
    decreases fuel, 2int, st, 9 + exec_parts(*st),
{
    match st {
        Stmt::Null => Ok(Flow::Normal),
        Stmt::Assign { target, value } => assign_run(ses, db, l, m, fuel, target, value),
        Stmt::If { .. } => branch_from(ses, db, l, m, fuel, st, 0),
        Stmt::Case { .. } => case_run(ses, db, l, m, fuel, st),
        Stmt::Loop { .. } | Stmt::While { .. } | Stmt::ForRange { .. } | Stmt::ForCursor { .. } => {
            loop_run(ses, db, l, m, fuel, st)
        },
        Stmt::Block(b) => block_run(ses, db, l, m, fuel, b),
        _ => simple_run(ses, db, l, m, fuel, st),
    }
}

/// Runs a loop.
#[verifier::spinoff_prover]
#[verifier::rlimit(80)]
pub(crate) fn loop_run(
    ses: &mut Session,
    db: &mut Database,
    l: &mut Local,
    m: Mode,
    fuel: u64,
    st: &Stmt,
) -> (r: Result<Flow, Exc>)
    requires
        old(ses).wf(),
        old(db)@.state.wf(),
        st is Loop || st is While || st is ForRange || st is ForCursor,
    ensures
        keeps(
            exec::loop_run(m, fuel as nat, now(*old(ses), *old(db), *old(l)), st@),
            now(*final(ses), *final(db), *final(l)),
            r,
            |v: Flow| v@,
        ),
        final(ses).wf(),
        final(db)@.state.wf(),
    decreases fuel, 2int, st, 8int,
{
    match st {
        Stmt::Loop { label, body } => loop_from(ses, db, l, m, fuel, label, body),
        Stmt::While { label, cond, body } => while_from(ses, db, l, m, fuel, label, cond, body),
        Stmt::ForRange { .. } => range_run(ses, db, l, m, fuel, st),
        _ => cursor_loop(ses, db, l, m, fuel, st),
    }
}

/// Returns from a routine.
#[verifier::spinoff_prover]
#[verifier::rlimit(40)]
fn return_run(
    ses: &mut Session,
    db: &mut Database,
    l: &mut Local,
    m: Mode,
    fuel: u64,
    e: &Option<Expr>,
) -> (r: Result<Flow, Exc>)
    requires
        old(ses).wf(),
        old(db)@.state.wf(),
    ensures
        keeps(
            exec::return_run(m, fuel as nat, now(*old(ses), *old(db), *old(l)), ast::opt_expr_tree(*e)),
            now(*final(ses), *final(db), *final(l)),
            r,
            |v: Flow| v@,
        ),
        final(ses).wf(),
        final(db)@.state.wf(),
    decreases fuel, 1int, e, 4int,
{
    match e {
        Some(e) => {
            let v = value_of(ses, db, l, m, fuel, e)?;
            Ok(Flow::Return(Some(v)))
        },
        None => Ok(Flow::Return(None)),
    }
}

/// Raises an exception by its name, or again the one that is handled.
fn raise_run(ses: &Session, db: &Database, l: &Local, name: &Option<String>) -> (r: Result<Flow, Exc>)
    ensures
        keeps(
            exec::raise_run(now(*ses, *db, *l), ast::opt_text_tree(*name)),
            now(*ses, *db, *l),
            r,
            |v: Flow| v@,
        ),
{
    match name {
        Some(name) => Err(state::raise(&l.frames, name)),
        None => {
            let n: usize = l.handling.len();
            if n > 0 {
                assert(l@.handling.last() == l.handling@[n - 1]@);
                return Err(l.handling[n - 1].copy());
            }
            Err(
                Exc::of(
                    parser::pls_error(
                        367,
                        "a RAISE statement with no exception name must be inside an exception handler",
                    ),
                ),
            )
        },
    }
}

/// Runs a statement that holds no others.
#[verifier::spinoff_prover]
#[verifier::rlimit(80)]
pub(crate) fn simple_run(
    ses: &mut Session,
    db: &mut Database,
    l: &mut Local,
    m: Mode,
    fuel: u64,
    st: &Stmt,
) -> (r: Result<Flow, Exc>)
    requires
        old(ses).wf(),
        old(db)@.state.wf(),
        st is Exit || st is Continue || st is Return || st is Raise || st is Sql || st is Call || st is ExecuteImmediate || st is Open || st is Fetch || st is Close,
    ensures
        keeps(
            exec::simple_run(m, fuel as nat, now(*old(ses), *old(db), *old(l)), st@),
            now(*final(ses), *final(db), *final(l)),
            r,
            |v: Flow| v@,
        ),
        final(ses).wf(),
        final(db)@.state.wf(),
    decreases fuel, 2int, st, 8int,
{
    match st {
        Stmt::Exit { label, when } => {
            let flow = Flow::Exit(ast::copy_opt_text(label));
            jump(ses, db, l, m, fuel, when, flow)
        },
        Stmt::Continue { label, when } => {
            let flow = Flow::Continue(ast::copy_opt_text(label));
            jump(ses, db, l, m, fuel, when, flow)
        },
        Stmt::Return(e) => return_run(ses, db, l, m, fuel, e),
        Stmt::Raise(name) => raise_run(ses, db, l, name),
        Stmt::Open { .. } | Stmt::Fetch { .. } | Stmt::Close { .. } => {
            cursor_run(ses, db, l, m, fuel, st)
        },
        _ => other_run(ses, db, l, m, fuel, st),
    }
}

/// What follows a statement that has nothing to give.
fn on_with(r: Result<(), Exc>) -> (x: Result<Flow, Exc>)
    ensures
        match r {
            Ok(_) => x is Ok && x->Ok_0@ == exec::Course::Normal,
            Err(e) => x == Err::<Flow, Exc>(e),
        },
{
    match r {
        Ok(_) => Ok(Flow::Normal),
        Err(e) => Err(e),
    }
}

/// Runs SQL or a call.
#[verifier::spinoff_prover]
#[verifier::rlimit(80)]
pub(crate) fn other_run(
    ses: &mut Session,
    db: &mut Database,
    l: &mut Local,
    m: Mode,
    fuel: u64,
    st: &Stmt,
) -> (r: Result<Flow, Exc>)
    requires
        old(ses).wf(),
        old(db)@.state.wf(),
        st is Sql || st is Call || st is ExecuteImmediate,
    ensures
        keeps(
            exec::other_run(m, fuel as nat, now(*old(ses), *old(db), *old(l)), st@),
            now(*final(ses), *final(db), *final(l)),
            r,
            |v: Flow| v@,
        ),
        final(ses).wf(),
        final(db)@.state.wf(),
    decreases fuel, 2int, st, 7int,
{
    match st {
        Stmt::Sql { stmt, into } => on_with(sql_run(ses, db, l, m, stmt, into)),
        Stmt::Call { name, args } => on_with(call_run(ses, db, l, m, fuel, name, args)),
        _ => on_with(dynamic_run(ses, db, l, m, fuel, st)),
    }
}

/// Runs a cursor statement.
#[verifier::spinoff_prover]
#[verifier::rlimit(80)]
pub(crate) fn cursor_run(
    ses: &mut Session,
    db: &mut Database,
    l: &mut Local,
    m: Mode,
    fuel: u64,
    st: &Stmt,
) -> (r: Result<Flow, Exc>)
    requires
        old(ses).wf(),
        old(db)@.state.wf(),
        st is Open || st is Fetch || st is Close,
    ensures
        keeps(
            exec::cursor_run(m, fuel as nat, now(*old(ses), *old(db), *old(l)), st@),
            now(*final(ses), *final(db), *final(l)),
            r,
            |v: Flow| v@,
        ),
        final(ses).wf(),
        final(db)@.state.wf(),
    decreases fuel, 2int, st, 6int,
{
    match st {
        Stmt::Open { cursor, args } => on_with(open_run(ses, db, l, m, fuel, cursor, args)),
        Stmt::Fetch { cursor, into } => on_with(fetched(ses, db, l, cursor, into)),
        Stmt::Close { cursor } => on_with(closed(ses, db, l, cursor)),
        _ => Ok(Flow::Normal),
    }
}

proof fn if_tree(st: Stmt)
    requires
        st is If,
    ensures
        st@ == (tree::Stmt::If {
            branches: plsql::expr_stmtss_tree(st->If_branches),
            else_: plsql::opt_stmts_tree(st->If_else_),
        }),
        plsql::expr_stmtss_tree(st->If_branches).len() == st->If_branches@.len(),
{
}

proof fn case_tree(st: Stmt)
    requires
        st is Case,
    ensures
        st@ == (tree::Stmt::Case {
            operand: ast::opt_expr_tree(st->Case_operand),
            whens: plsql::expr_stmtss_tree(st->Case_whens),
            else_: plsql::opt_stmts_tree(st->Case_else_),
        }),
        plsql::expr_stmtss_tree(st->Case_whens).len() == st->Case_whens@.len(),
{
}

proof fn branch_tree(v: Vec<(Expr, Vec<Stmt>)>, i: int)
    requires
        0 <= i < v@.len(),
    ensures
        plsql::expr_stmtss_tree(v)[i] == (v@[i].0@, plsql::stmts_tree(v@[i].1)),
{
}

#[verifier::spinoff_prover]
#[verifier::rlimit(60)]
pub(crate) fn branch_from(
    ses: &mut Session,
    db: &mut Database,
    l: &mut Local,
    m: Mode,
    fuel: u64,
    st: &Stmt,
    i: usize,
) -> (r: Result<Flow, Exc>)
    requires
        old(ses).wf(),
        old(db)@.state.wf(),
        st is If,
        i <= exec_parts(*st),
    ensures
        keeps(
            exec::branch_from(m, fuel as nat, now(*old(ses), *old(db), *old(l)), st@, i as int),
            now(*final(ses), *final(db), *final(l)),
            r,
            |v: Flow| v@,
        ),
        final(ses).wf(),
        final(db)@.state.wf(),
    decreases fuel, 2int, st, exec_parts(*st) - i,
{
    match st {
        Stmt::If { branches, else_ } => {
            proof {
                if_tree(*st);
            }
            if i >= branches.len() {
                return match else_ {
                    Some(body) => statements_run(ses, db, l, m, fuel, body, 0),
                    None => Ok(Flow::Normal),
                };
            }
            proof {
                branch_tree(*branches, i as int);
            }
            if let Some(true) = truth_of(ses, db, l, m, fuel, &branches[i].0)? {
                return statements_run(ses, db, l, m, fuel, &branches[i].1, 0);
            }
            branch_from(ses, db, l, m, fuel, st, i + 1)
        },
        _ => Ok(Flow::Normal),
    }
}

#[verifier::spinoff_prover]
#[verifier::rlimit(60)]
pub(crate) fn case_run(
    ses: &mut Session,
    db: &mut Database,
    l: &mut Local,
    m: Mode,
    fuel: u64,
    st: &Stmt,
) -> (r: Result<Flow, Exc>)
    requires
        old(ses).wf(),
        old(db)@.state.wf(),
        st is Case,
    ensures
        keeps(
            exec::case_run(m, fuel as nat, now(*old(ses), *old(db), *old(l)), st@),
            now(*final(ses), *final(db), *final(l)),
            r,
            |v: Flow| v@,
        ),
        final(ses).wf(),
        final(db)@.state.wf(),
    decreases fuel, 2int, st, 1 + exec_parts(*st),
{
    match st {
        Stmt::Case { operand, .. } => {
            proof {
                case_tree(*st);
            }
            match operand {
                Some(o) => {
                    let v = value_of(ses, db, l, m, fuel, o)?;
                    when_from(ses, db, l, m, fuel, st, &Some(v), 0)
                },
                None => when_from(ses, db, l, m, fuel, st, &None, 0),
            }
        },
        _ => Ok(Flow::Normal),
    }
}

#[verifier::spinoff_prover]
#[verifier::rlimit(60)]
pub(crate) fn when_from(
    ses: &mut Session,
    db: &mut Database,
    l: &mut Local,
    m: Mode,
    fuel: u64,
    st: &Stmt,
    subject: &Option<Value>,
    i: usize,
) -> (r: Result<Flow, Exc>)
    requires
        old(ses).wf(),
        old(db)@.state.wf(),
        st is Case,
        i <= exec_parts(*st),
    ensures
        keeps(
            exec::when_from(m, fuel as nat, now(*old(ses), *old(db), *old(l)), st@, vars::opt_datum(*subject), i as int),
            now(*final(ses), *final(db), *final(l)),
            r,
            |v: Flow| v@,
        ),
        final(ses).wf(),
        final(db)@.state.wf(),
    decreases fuel, 2int, st, exec_parts(*st) - i,
{
    match st {
        Stmt::Case { whens, else_, .. } => {
            proof {
                case_tree(*st);
            }
            if i >= whens.len() {
                return match else_ {
                    Some(body) => statements_run(ses, db, l, m, fuel, body, 0),
                    None => Err(
                        Exc::of(
                            OraError::new(6592, "CASE not found while executing CASE statement"),
                        ),
                    ),
                };
            }
            proof {
                branch_tree(*whens, i as int);
            }
            if case_hit(ses, db, l, m, fuel, subject, &whens[i].0)? {
                return statements_run(ses, db, l, m, fuel, &whens[i].1, 0);
            }
            when_from(ses, db, l, m, fuel, st, subject, i + 1)
        },
        _ => Ok(Flow::Normal),
    }
}

fn is_mine(l: &Option<String>, label: &Option<String>) -> (r: bool)
    ensures
        r == exec::is_mine(ast::opt_text_tree(*l), ast::opt_text_tree(*label)),
{
    match l {
        None => true,
        Some(x) => match label {
            Some(y) => text::same(x, y),
            None => false,
        },
    }
}

/// How a loop stops behind one run of its body, if it does.
fn stops(label: &Option<String>, f: Flow) -> (r: Option<Flow>)
    ensures
        match r {
            Some(x) => exec::stops(ast::opt_text_tree(*label), f@) == Some(x@),
            None => exec::stops(ast::opt_text_tree(*label), f@) is None,
        },
{
    match f {
        Flow::Normal => None,
        Flow::Continue(l) => if is_mine(&l, label) {
            None
        } else {
            Some(Flow::Continue(l))
        },
        Flow::Exit(l) => if is_mine(&l, label) {
            Some(Flow::Normal)
        } else {
            Some(Flow::Exit(l))
        },
        Flow::Return(v) => Some(Flow::Return(v)),
    }
}

#[verifier::spinoff_prover]
#[verifier::rlimit(60)]
#[verifier::loop_isolation(false)]
pub(crate) fn loop_from(
    ses: &mut Session,
    db: &mut Database,
    l: &mut Local,
    m: Mode,
    fuel: u64,
    label: &Option<String>,
    body: &Vec<Stmt>,
) -> (r: Result<Flow, Exc>)
    requires
        old(ses).wf(),
        old(db)@.state.wf(),
    ensures
        keeps(
            exec::loop_from(m, fuel as nat, now(*old(ses), *old(db), *old(l)), ast::opt_text_tree(*label), plsql::stmts_tree(*body)),
            now(*final(ses), *final(db), *final(l)),
            r,
            |v: Flow| v@,
        ),
        final(ses).wf(),
        final(db)@.state.wf(),
    decreases fuel, 2int, body, 0int,
{
    let ghost due = exec::loop_from(
        m,
        fuel as nat,
        now(*ses, *db, *l),
        ast::opt_text_tree(*label),
        plsql::stmts_tree(*body),
    );
    let mut left: u64 = fuel;
    while left > 0
        invariant
            ses.wf(),
            db@.state.wf(),
            left <= fuel,
            exec::open_ended(due.r) || due == exec::loop_from(
                m,
                left as nat,
                now(*ses, *db, *l),
                ast::opt_text_tree(*label),
                plsql::stmts_tree(*body),
            ),
        decreases left,
    {
        let f = statements_run(ses, db, l, m, left - 1, body, 0)?;
        match stops(label, f) {
            Some(f) => {
                return Ok(f);
            },
            None => {},
        }
        left = left - 1;
    }
    Err(exec::exhaustion())
}

#[verifier::spinoff_prover]
#[verifier::rlimit(60)]
#[verifier::loop_isolation(false)]
pub(crate) fn while_from(
    ses: &mut Session,
    db: &mut Database,
    l: &mut Local,
    m: Mode,
    fuel: u64,
    label: &Option<String>,
    cond: &Expr,
    body: &Vec<Stmt>,
) -> (r: Result<Flow, Exc>)
    requires
        old(ses).wf(),
        old(db)@.state.wf(),
    ensures
        keeps(
            exec::while_from(m, fuel as nat, now(*old(ses), *old(db), *old(l)), ast::opt_text_tree(*label), cond@, plsql::stmts_tree(*body)),
            now(*final(ses), *final(db), *final(l)),
            r,
            |v: Flow| v@,
        ),
        final(ses).wf(),
        final(db)@.state.wf(),
    decreases fuel, 2int, body, 0int,
{
    let ghost due = exec::while_from(
        m,
        fuel as nat,
        now(*ses, *db, *l),
        ast::opt_text_tree(*label),
        cond@,
        plsql::stmts_tree(*body),
    );
    let mut left: u64 = fuel;
    while left > 0
        invariant
            ses.wf(),
            db@.state.wf(),
            left <= fuel,
            exec::open_ended(due.r) || due == exec::while_from(
                m,
                left as nat,
                now(*ses, *db, *l),
                ast::opt_text_tree(*label),
                cond@,
                plsql::stmts_tree(*body),
            ),
        decreases left,
    {
        match truth_of(ses, db, l, m, left - 1, cond)? {
            Some(true) => {},
            _ => {
                return Ok(Flow::Normal);
            },
        }
        let f = statements_run(ses, db, l, m, left - 1, body, 0)?;
        match stops(label, f) {
            Some(f) => {
                return Ok(f);
            },
            None => {},
        }
        left = left - 1;
    }
    Err(exec::exhaustion())
}

proof fn range_tree(st: Stmt)
    requires
        st is ForRange,
    ensures
        st@ == (tree::Stmt::ForRange {
            label: ast::opt_text_tree(st->ForRange_label),
            var: st->ForRange_var@,
            reverse: st->ForRange_reverse,
            low: st->ForRange_low@,
            high: st->ForRange_high@,
            body: plsql::stmts_tree(st->ForRange_body),
        }),
{
}

/// Makes a loop's variable the only one of the innermost block.
fn set_loop_var(l: &mut Local, name: &str, v: Var)
    requires
        old(l)@.frames.len() > 0,
    ensures
        forall|s: State|
            s.l == old(l)@ ==> #[trigger] exec::looping(s, name@, v@) == (State {
                l: final(l)@,
                ..s
            }),
{
    let ghost before = l@;
    let n: usize = l.frames.len() - 1;
    assert(before.frames.last() == l.frames@[n as int]@);
    let ghost shown = v@;
    let mut only: Vec<(String, Var)> = Vec::new();
    only.push((name.to_owned(), v));
    assert(vars::vars_of(only@) =~= seq![(name@, shown)]);
    l.frames[n].vars = only;
    assert(l@.frames =~= before.frames.update(
        n as int,
        Level { vars: seq![(name@, shown)], ..before.frames.last() },
    ));
}

#[verifier::spinoff_prover]
#[verifier::rlimit(60)]
pub(crate) fn range_run(
    ses: &mut Session,
    db: &mut Database,
    l: &mut Local,
    m: Mode,
    fuel: u64,
    st: &Stmt,
) -> (r: Result<Flow, Exc>)
    requires
        old(ses).wf(),
        old(db)@.state.wf(),
        st is ForRange,
    ensures
        keeps(
            exec::range_run(m, fuel as nat, now(*old(ses), *old(db), *old(l)), st@),
            now(*final(ses), *final(db), *final(l)),
            r,
            |v: Flow| v@,
        ),
        final(ses).wf(),
        final(db)@.state.wf(),
    decreases fuel, 2int, st, 1int,
{
    match st {
        Stmt::ForRange { label, var, reverse, low, high, body } => {
            proof {
                range_tree(*st);
            }
            let lo = int_of(ses, db, l, m, fuel, low)?;
            let hi = int_of(ses, db, l, m, fuel, high)?;
            l.push_frame(Frame::new());
            let r = range_from(ses, db, l, m, fuel, label, var, *reverse, lo, hi, body);
            l.pop_frame();
            r
        },
        _ => Ok(Flow::Normal),
    }
}

#[verifier::spinoff_prover]
#[verifier::rlimit(100)]
#[verifier::loop_isolation(false)]
pub(crate) fn range_from(
    ses: &mut Session,
    db: &mut Database,
    l: &mut Local,
    m: Mode,
    fuel: u64,
    label: &Option<String>,
    var: &String,
    reverse: bool,
    lo: i64,
    hi: i64,
    body: &Vec<Stmt>,
) -> (r: Result<Flow, Exc>)
    requires
        old(ses).wf(),
        old(db)@.state.wf(),
    ensures
        keeps(
            exec::range_from(m, fuel as nat, now(*old(ses), *old(db), *old(l)), exec::Range { label: ast::opt_text_tree(*label), var: var@, reverse, lo: lo as int, hi: hi as int }, plsql::stmts_tree(*body), if reverse { hi as int } else { lo as int }),
            now(*final(ses), *final(db), *final(l)),
            r,
            |v: Flow| v@,
        ),
        final(ses).wf(),
        final(db)@.state.wf(),
    decreases fuel, 2int, body, 0int,
{
    let ghost g = exec::Range { label: ast::opt_text_tree(*label), var: var@, reverse, lo: lo as int, hi: hi as int };
    let mut i: i64 = if reverse {
        hi
    } else {
        lo
    };
    let ghost due = exec::range_from(m, fuel as nat, now(*ses, *db, *l), g, plsql::stmts_tree(*body), i as int);
    let mut left: u64 = fuel;
    while left > 0
        invariant
            ses.wf(),
            db@.state.wf(),
            left <= fuel,
            g == (exec::Range { label: ast::opt_text_tree(*label), var: var@, reverse, lo: lo as int, hi: hi as int }),
            exec::open_ended(due.r) || due == exec::range_from(
                m,
                left as nat,
                now(*ses, *db, *l),
                g,
                plsql::stmts_tree(*body),
                i as int,
            ),
        decreases left,
    {
        if !(lo <= i && i <= hi) || l.frames.len() == 0 {
            return Ok(Flow::Normal);
        }
        let v = Var {
            ty: VarType::Integer,
            slot: Slot::Scalar(Value::number(i)),
            constant: true,
            not_null: true,
        };
        assert(v@ == exec::counter(i as int));
        let ghost s = now(*ses, *db, *l);
        set_loop_var(l, var, v);
        assert(now(*ses, *db, *l) == exec::looping(s, g.var, exec::counter(i as int)));
        let f = statements_run(ses, db, l, m, left - 1, body, 0)?;
        match stops(label, f) {
            Some(f) => {
                return Ok(f);
            },
            None => {},
        }
        left = left - 1;
        if reverse {
            if i == i64::MIN {
                assert(!(g.lo <= i - 1));
                assert(exec::range_from(
                    m,
                    left as nat,
                    now(*ses, *db, *l),
                    g,
                    plsql::stmts_tree(*body),
                    i - 1,
                ) == exec::done(now(*ses, *db, *l)));
                return Ok(Flow::Normal);
            }
            i = i - 1;
        } else {
            if i == i64::MAX {
                assert(!(i + 1 <= g.hi));
                assert(exec::range_from(
                    m,
                    left as nat,
                    now(*ses, *db, *l),
                    g,
                    plsql::stmts_tree(*body),
                    i + 1,
                ) == exec::done(now(*ses, *db, *l)));
                return Ok(Flow::Normal);
            }
            i = i + 1;
        }
    }
    if !(lo <= i && i <= hi) || l.frames.len() == 0 {
        return Ok(Flow::Normal);
    }
    Err(exec::exhaustion())
}

pub(crate) fn names_of(columns: &Vec<Column>) -> (r: Vec<String>)
    ensures
        ast::texts_tree(r) == exec::names_of(dml::described(columns@)),
{
    let mut out: Vec<String> = Vec::new();
    for i in 0..columns.len()
        invariant
            out@.len() == i,
            forall|k: int| 0 <= k < i ==> (#[trigger] out@[k])@ == columns@[k].name@,
    {
        out.push(columns[i].name.clone());
    }
    assert(ast::texts_tree(out) =~= exec::names_of(dml::described(columns@)));
    out
}

/// Runs a SQL statement with the block's variables and binds visible.
pub(crate) fn run_sql(ses: &mut Session, db: &mut Database, l: &Local, m: Mode, stmt: &Statement) -> (r: Result<
    Outcome,
    Exc,
>)
    requires
        old(ses).wf(),
        old(db)@.state.wf(),
    ensures
        keeps(
            exec::sql_due(m, now(*old(ses), *old(db), *l), stmt@),
            now(*final(ses), *final(db), *l),
            r,
            |v: Outcome| v@,
        ),
        final(ses).wf(),
        final(db)@.state.wf(),
{
    let vars = l.vars();
    match ses.run(db, stmt, &l.binds, Some(&vars), m.read_only) {
        Ok(o) => Ok(o),
        Err(e) => Err(Exc::of(e)),
    }
}

pub(crate) fn opened(o: Outcome) -> (r: OpenCursor)
    ensures
        r@ == exec::opened(o@),
{
    let columns = names_of(&o.columns);
    OpenCursor { rows: o.rows, columns, rowcount: 0, found: None }
}

pub(crate) fn query_statement(q: &Query) -> (s: Statement)
    ensures
        s@ == tree::Statement::Query(q@),
{
    Statement::Query(ast::copy_query(q))
}

proof fn cursor_tree(st: Stmt)
    requires
        st is ForCursor,
    ensures
        st@ == (tree::Stmt::ForCursor {
            label: ast::opt_text_tree(st->ForCursor_label),
            var: st->ForCursor_var@,
            source: plsql::cursor_source_tree(st->ForCursor_source),
            body: plsql::stmts_tree(st->ForCursor_body),
        }),
{
}

#[verifier::spinoff_prover]
#[verifier::rlimit(60)]
pub(crate) fn cursor_loop(
    ses: &mut Session,
    db: &mut Database,
    l: &mut Local,
    m: Mode,
    fuel: u64,
    st: &Stmt,
) -> (r: Result<Flow, Exc>)
    requires
        old(ses).wf(),
        old(db)@.state.wf(),
        st is ForCursor,
    ensures
        keeps(
            exec::cursor_loop(m, fuel as nat, now(*old(ses), *old(db), *old(l)), st@),
            now(*final(ses), *final(db), *final(l)),
            r,
            |v: Flow| v@,
        ),
        final(ses).wf(),
        final(db)@.state.wf(),
    decreases fuel, 2int, st, 1int,
{
    match st {
        Stmt::ForCursor { label, var, source, body } => {
            proof {
                cursor_tree(*st);
            }
            let o = source_rows(ses, db, l, m, fuel, source)?;
            l.push_frame(Frame::new());
            let r = rows_from(ses, db, l, m, fuel, label, var, &o, body);
            l.pop_frame();
            r
        },
        _ => Ok(Flow::Normal),
    }
}

#[verifier::spinoff_prover]
#[verifier::rlimit(60)]
pub(crate) fn source_rows(
    ses: &mut Session,
    db: &mut Database,
    l: &mut Local,
    m: Mode,
    fuel: u64,
    source: &CursorSource,
) -> (r: Result<OpenCursor, Exc>)
    requires
        old(ses).wf(),
        old(db)@.state.wf(),
    ensures
        keeps(
            exec::source_rows(m, fuel as nat, now(*old(ses), *old(db), *old(l)), source@),
            now(*final(ses), *final(db), *final(l)),
            r,
            |v: OpenCursor| v@,
        ),
        final(ses).wf(),
        final(db)@.state.wf(),
    decreases fuel, 1int, source, 9int,
{
    match source {
        CursorSource::Query(q) => {
            let stmt = query_statement(q);
            let o = run_sql(ses, db, l, m, &stmt)?;
            Ok(opened(o))
        },
        CursorSource::Named { name, args } => {
            if fuel == 0 {
                return Err(exec::exhaustion());
            }
            query_opened(ses, db, l, m, fuel - 1, name, args)
        },
    }
}

#[verifier::spinoff_prover]
#[verifier::rlimit(100)]
#[verifier::loop_isolation(false)]
pub(crate) fn rows_from(
    ses: &mut Session,
    db: &mut Database,
    l: &mut Local,
    m: Mode,
    fuel: u64,
    label: &Option<String>,
    var: &String,
    o: &OpenCursor,
    body: &Vec<Stmt>,
) -> (r: Result<Flow, Exc>)
    requires
        old(ses).wf(),
        old(db)@.state.wf(),
    ensures
        keeps(
            exec::rows_from(m, fuel as nat, now(*old(ses), *old(db), *old(l)), ast::opt_text_tree(*label), var@, o@, plsql::stmts_tree(*body), 0),
            now(*final(ses), *final(db), *final(l)),
            r,
            |v: Flow| v@,
        ),
        final(ses).wf(),
        final(db)@.state.wf(),
    decreases fuel, 2int, body, 0int,
{
    let ghost due = exec::rows_from(
        m,
        fuel as nat,
        now(*ses, *db, *l),
        ast::opt_text_tree(*label),
        var@,
        o@,
        plsql::stmts_tree(*body),
        0,
    );
    assert(o@.rows.len() == o.rows@.len());
    let mut k: usize = 0;
    let mut left: u64 = fuel;
    while left > 0
        invariant
            ses.wf(),
            db@.state.wf(),
            left <= fuel,
            k <= o.rows@.len(),
            o@.rows.len() == o.rows@.len(),
            exec::open_ended(due.r) || due == exec::rows_from(
                m,
                left as nat,
                now(*ses, *db, *l),
                ast::opt_text_tree(*label),
                var@,
                o@,
                plsql::stmts_tree(*body),
                k as int,
            ),
        decreases left,
    {
        if k >= o.rows.len() || l.frames.len() == 0 {
            return Ok(Flow::Normal);
        }
        assert(o@.rows[k as int] == functions::views(o.rows@[k as int]@));
        let v = Var {
            ty: VarType::Record,
            slot: Slot::Record(assign::zip_row(&o.columns, &o.rows[k])),
            constant: false,
            not_null: false,
        };
        let ghost shown = v@;
        let ghost s = now(*ses, *db, *l);
        set_loop_var(l, var, v);
        assert(now(*ses, *db, *l) == exec::looping(s, var@, shown));
        let f = statements_run(ses, db, l, m, left - 1, body, 0)?;
        match stops(label, f) {
            Some(f) => {
                return Ok(f);
            },
            None => {},
        }
        left = left - 1;
        k = k + 1;
    }
    if k >= o.rows.len() || l.frames.len() == 0 {
        return Ok(Flow::Normal);
    }
    Err(exec::exhaustion())
}

#[verifier::spinoff_prover]
#[verifier::rlimit(30)]
pub(crate) fn jump(
    ses: &mut Session,
    db: &mut Database,
    l: &mut Local,
    m: Mode,
    fuel: u64,
    cond: &Option<Expr>,
    to: Flow,
) -> (r: Result<Flow, Exc>)
    requires
        old(ses).wf(),
        old(db)@.state.wf(),
    ensures
        keeps(
            exec::jump(m, fuel as nat, now(*old(ses), *old(db), *old(l)), ast::opt_expr_tree(*cond), to@),
            now(*final(ses), *final(db), *final(l)),
            r,
            |v: Flow| v@,
        ),
        final(ses).wf(),
        final(db)@.state.wf(),
    decreases fuel, 1int, cond, 4int,
{
    match cond {
        None => Ok(to),
        Some(c) => {
            if let Some(true) = truth_of(ses, db, l, m, fuel, c)? {
                return Ok(to);
            }
            Ok(Flow::Normal)
        },
    }
}

/// Where a RETURNING value goes.
fn into_target(e: &Expr) -> (r: Result<Target, OraError>)
    ensures
        match r {
            Ok(t) => exec::into_target(e@) == Ok::<tree::Target, Failure>(t@),
            Err(x) => exec::into_target(e@) == Err::<tree::Target, Failure>(x@),
        },
{
    match e {
        Expr::Bind(i) => Ok(Target::Bind(*i)),
        Expr::Column { table, name } => {
            assert(e@ == tree::Expr::Column { table: ast::opt_text_tree(*table), name: name@ });
            match table {
                None => Ok(Target::Var(name.clone())),
                Some(rec) => Ok(Target::Field(rec.clone(), name.clone())),
            }
        },
        _ => Err(state::wrong_type_error()),
    }
}

proof fn into_fails_on(s: State, into: Seq<tree::Expr>, row: Seq<Datum>, n: int, k: int)
    requires
        0 <= n <= k,
        k <= into.len(),
        k <= row.len(),
        exec::returned_into(s, into, row, n).r is Err,
    ensures
        exec::returned_into(s, into, row, k) == exec::returned_into(s, into, row, n),
    decreases k - n,
{
    if n < k {
        into_fails_on(s, into, row, n, k - 1);
    }
}

#[verifier::loop_isolation(false)]
fn store_row(ses: &Session, db: &Database, l: &mut Local, into: &Vec<Expr>, row: &Vec<Value>) -> (r:
    Result<(), Exc>)
    ensures
        keeps(
            exec::returned_into(
                now(*ses, *db, *old(l)),
                ast::exprs_tree(*into),
                functions::views(row@),
                exec::least(into@.len() as int, row@.len() as int),
            ),
            now(*ses, *db, *final(l)),
            r,
            |v: ()| v,
        ),
{
    let ghost s = now(*ses, *db, *l);
    let ghost all = ast::exprs_tree(*into);
    let ghost values = functions::views(row@);
    let total: usize = if into.len() < row.len() {
        into.len()
    } else {
        row.len()
    };
    for i in 0..total
        invariant
            exec::returned_into(s, all, values, i as int) == exec::fine(now(*ses, *db, *l), ()),
    {
        assert(all[i as int] == into@[i as int]@);
        assert(values[i as int] == row@[i as int]@);
        proof {
            if exec::returned_into(s, all, values, i + 1).r is Err {
                into_fails_on(s, all, values, i + 1, total as int);
            }
        }
        match into_target(&into[i]) {
            Ok(t) => {
                match assign::assign(&ses.env, l, &t, row[i].clone()) {
                    Ok(_) => {},
                    Err(e) => {
                        return Err(Exc::of(e));
                    },
                }
            },
            Err(e) => {
                return Err(Exc::of(e));
            },
        }
    }
    Ok(())
}

/// Stores DML RETURNING values in their targets: one row at most.
fn store_returning(
    ses: &Session,
    db: &Database,
    l: &mut Local,
    into: &Vec<Expr>,
    rows: &Vec<Vec<Value>>,
) -> (r: Result<(), Exc>)
    ensures
        keeps(
            exec::returning_stored(
                now(*ses, *db, *old(l)),
                ast::exprs_tree(*into),
                vars::value_rows(rows@),
            ),
            now(*ses, *db, *final(l)),
            r,
            |v: ()| v,
        ),
{
    assert(ast::exprs_tree(*into).len() == into@.len());
    if rows.len() > 1 {
        return Err(too_many_rows());
    }
    if rows.len() == 1 {
        assert(vars::value_rows(rows@)[0] == functions::views(rows@[0]@));
        return store_row(ses, db, l, into, &rows[0]);
    }
    let mut row: Vec<Value> = Vec::new();
    for i in 0..into.len()
        invariant
            row@.len() == i,
            forall|k: int| 0 <= k < i ==> #[trigger] row@[k]@ == Datum::Null,
    {
        row.push(Value::Null);
    }
    assert(functions::views(row@) =~= Seq::new(ast::exprs_tree(*into).len(), |i: int| Datum::Null));
    store_row(ses, db, l, into, &row)
}

pub(crate) fn too_many_rows() -> (e: Exc)
    ensures
        e@ == vars::raised(exec::too_many_rows()),
{
    Exc::of(OraError::new(1422, "exact fetch returns more than requested number of rows"))
}

pub(crate) fn no_data_found() -> (e: Exc)
    ensures
        e@ == vars::raised(exec::no_data_found()),
{
    Exc::of(OraError::new(1403, "no data found"))
}

pub(crate) fn fill_row(
    ses: &Session,
    db: &Database,
    l: &mut Local,
    into: &Vec<Target>,
    columns: &Vec<String>,
    row: &Vec<Value>,
) -> (r: Result<(), Exc>)
    ensures
        keeps(
            exec::filled(
                now(*ses, *db, *old(l)),
                assign::row_assigned(
                    ses@.env,
                    old(l)@,
                    plsql::targets_tree(*into),
                    ast::texts_tree(*columns),
                    functions::views(row@),
                ),
            ),
            now(*ses, *db, *final(l)),
            r,
            |v: ()| v,
        ),
{
    match assign::assign_row(&ses.env, l, into, columns, row) {
        Ok(_) => Ok(()),
        Err(e) => Err(Exc::of(e)),
    }
}

pub(crate) fn capped_count(n: u64) -> (r: i64)
    ensures
        r == exec::capped_count(n as int),
{
    if n <= i64::MAX as u64 {
        n as i64
    } else {
        i64::MAX
    }
}

/// The RETURNING clause of a DML statement.
pub fn returning(stmt: &Statement) -> (r: Option<&ast::Returning>)
    ensures
        match r {
            Some(x) => exec::returning_of(stmt@) == Some(x@),
            None => exec::returning_of(stmt@) is None,
        },
{
    match stmt {
        Statement::Insert(i) => {
            assert(ast::insert_tree(*i).returning == ast::opt_returning_tree(i.returning));
            i.returning.as_ref()
        },
        Statement::Update(u) => {
            assert(ast::update_tree(*u).returning == ast::opt_returning_tree(u.returning));
            u.returning.as_ref()
        },
        Statement::Delete(d) => {
            assert(ast::delete_tree(*d).returning == ast::opt_returning_tree(d.returning));
            d.returning.as_ref()
        },
        _ => None,
    }
}

/// Runs a SQL statement in a block.
#[verifier::spinoff_prover]
#[verifier::rlimit(60)]
fn sql_run(
    ses: &mut Session,
    db: &mut Database,
    l: &mut Local,
    m: Mode,
    stmt: &Statement,
    into: &Vec<Target>,
) -> (r: Result<(), Exc>)
    requires
        old(ses).wf(),
        old(db)@.state.wf(),
    ensures
        keeps(
            exec::sql_run(
                m,
                now(*old(ses), *old(db), *old(l)),
                stmt@,
                plsql::targets_tree(*into),
            ),
            now(*final(ses), *final(db), *final(l)),
            r,
            |v: ()| v,
        ),
        final(ses).wf(),
        final(db)@.state.wf(),
{
    proof {
        reveal(exec::sql_run);
    }
    let o = run_sql(ses, db, l, m, stmt)?;
    assert(o@.rows.len() == o.rows@.len());
    match stmt {
        Statement::Query(_) => {
            let names = names_of(&o.columns);
            if o.rows.len() == 0 {
                l.rowcount = Some(0);
                return Err(no_data_found());
            }
            if o.rows.len() > 1 {
                l.rowcount = Some(2);
                return Err(too_many_rows());
            }
            l.rowcount = Some(1);
            assert(o@.rows[0] == functions::views(o.rows@[0]@));
            fill_row(ses, db, l, into, &names, &o.rows[0])
        },
        Statement::Insert(_) | Statement::Update(_) | Statement::Delete(_) => {
            l.rowcount = Some(capped_count(o.rows_affected));
            match returning(stmt) {
                Some(x) => {
                    assert(x@.into == ast::exprs_tree(x.into));
                    store_returning(ses, db, l, &x.into, &o.rows)
                },
                None => Ok(()),
            }
        },
        _ => Ok(()),
    }
}

} // verus!
