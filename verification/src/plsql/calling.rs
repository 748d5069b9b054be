//! Procedure calls, including the built-in packages.

use std::sync::Arc;

use vstd::prelude::*;
use vstd::string::*;

use crate::ast;
use crate::ast::Expr;
use crate::ddl::Database;
use crate::dml::Column;
use crate::error;
use crate::error::{Failure, OraError};
use crate::number;
use crate::parser;
use crate::plsql;
use crate::plsql::exec;
use crate::plsql::exec::Mode;
use crate::plsql::state;
use crate::plsql::state::Local;
use crate::plsql::vars::{Exc, Var};
use crate::plsql::{Arg, Target};
use crate::session::Session;
use crate::strings;
use crate::text;
use crate::tree;
use crate::value;
use crate::value::Value;

use crate::plsql::calls::called;
use crate::plsql::interp::{find_routine, int_of, keeps, now, value_of};
use crate::plsql::run::store;

verus! {

fn no_target_error() -> (e: OraError)
    ensures
        e@ == exec::no_target(),
{
    parser::pls_error(363, "expression cannot be used as an assignment target")
}

fn short_name(name: &str) -> (r: String)
    ensures
        r@ == exec::short_name(name@),
{
    let c = text::chars_of(name);
    let p = text::chars_of("SYS.");
    proof {
        reveal_strlit("SYS.");
    }
    if strings::is_at(&c, &p, 0) {
        let total: usize = c.len();
        let rest = text::slice(&c, 4, total);
        assert(rest@ =~= name@.skip(4));
        return text::string_of(&rest);
    }
    name.to_owned()
}

/// Calls a procedure.
#[verifier::spinoff_prover]
#[verifier::rlimit(60)]
pub(crate) fn call_run(
    ses: &mut Session,
    db: &mut Database,
    l: &mut Local,
    m: Mode,
    fuel: u64,
    name: &String,
    args: &Vec<Arg>,
) -> (r: Result<(), Exc>)
    requires
        old(ses).wf(),
        old(db)@.state.wf(),
    ensures
        keeps(
            exec::call_run(m, fuel as nat, now(*old(ses), *old(db), *old(l)), name@, plsql::args_tree(*args)),
            now(*final(ses), *final(db), *final(l)),
            r,
            |v: ()| v,
        ),
        final(ses).wf(),
        final(db)@.state.wf(),
    decreases fuel, 1int, args, 100 + args@.len(),
{
    assert(plsql::args_tree(*args).len() == args@.len());
    let short = short_name(name);
    if builtin(ses, db, l, m, fuel, &short, args)? {
        return Ok(());
    }
    let x = match find_routine(ses, db, l, name) {
        Some(x) => x,
        None => {
            return Err(Exc::of(state::not_declared_error(name)));
        },
    };
    assert(plsql::routine_tree(*x).returns == plsql::opt_type_ref_tree(x.returns));
    assert(plsql::routine_tree(*x).name == x.name@);
    if x.is_function() {
        let q = text::join(
            &text::join("'", &x.name),
            "' is not a procedure or is undefined",
        );
        return Err(Exc::of(parser::pls_error(221, &q)));
    }
    if fuel == 0 {
        return Err(exec::exhaustion());
    }
    called(ses, db, l, m, fuel - 1, &x, args)?;
    Ok(())
}

/// Built-in procedures. Returns false if `name` is not one.
#[verifier::spinoff_prover]
#[verifier::rlimit(80)]
pub(crate) fn builtin(
    ses: &mut Session,
    db: &mut Database,
    l: &mut Local,
    m: Mode,
    fuel: u64,
    name: &String,
    args: &Vec<Arg>,
) -> (r: Result<bool, Exc>)
    requires
        old(ses).wf(),
        old(db)@.state.wf(),
    ensures
        keeps(
            exec::builtin(m, fuel as nat, now(*old(ses), *old(db), *old(l)), name@, plsql::args_tree(*args)),
            now(*final(ses), *final(db), *final(l)),
            r,
            |v: bool| v,
        ),
        final(ses).wf(),
        final(db)@.state.wf(),
    decreases fuel, 1int, args, 50 + args@.len(),
{
    assert(plsql::args_tree(*args).len() == args@.len());
    if text::same(name, "RAISE_APPLICATION_ERROR") {
        return application_error(ses, db, l, m, fuel, args);
    }
    if text::same(name, "DBMS_OUTPUT.PUT_LINE") {
        return put_run(ses, db, l, m, fuel, args, true);
    }
    if text::same(name, "DBMS_OUTPUT.PUT") {
        return put_run(ses, db, l, m, fuel, args, false);
    }
    if text::same(name, "DBMS_OUTPUT.NEW_LINE") {
        let empty = String::new();
        assert(empty@ =~= Seq::<char>::empty());
        return put_text(ses, db, l, &empty, true);
    }
    if text::same(name, "DBMS_OUTPUT.ENABLE") {
        ses.output.enabled = true;
        return Ok(true);
    }
    if text::same(name, "DBMS_OUTPUT.DISABLE") {
        ses.output.disable();
        return Ok(true);
    }
    if text::same(name, "DBMS_OUTPUT.GET_LINE") {
        return get_line(ses, db, l, args);
    }
    if text::same(name, "DBMS_LOCK.SLEEP") || text::same(name, "DBMS_SESSION.SLEEP") {
        return slept(ses, db, l, m, fuel, args, args.len());
    }
    let c = text::chars_of(name);
    let p = text::chars_of("DBMS_STATS.");
    Ok(strings::is_at(&c, &p, 0))
}

#[verifier::spinoff_prover]
#[verifier::rlimit(60)]
pub(crate) fn application_error(
    ses: &mut Session,
    db: &mut Database,
    l: &mut Local,
    m: Mode,
    fuel: u64,
    args: &Vec<Arg>,
) -> (r: Result<bool, Exc>)
    requires
        old(ses).wf(),
        old(db)@.state.wf(),
    ensures
        keeps(
            exec::application_error(m, fuel as nat, now(*old(ses), *old(db), *old(l)), plsql::args_tree(*args)),
            now(*final(ses), *final(db), *final(l)),
            r,
            |v: bool| v,
        ),
        final(ses).wf(),
        final(db)@.state.wf(),
    decreases fuel, 1int, args, 0int,
{
    assert(plsql::args_tree(*args).len() == args@.len());
    if args.len() < 2 {
        return Err(Exc::of(exec::wrong_args_error("RAISE_APPLICATION_ERROR")));
    }
    assert(plsql::args_tree(*args)[0] == args@[0]@);
    assert(plsql::args_tree(*args)[1] == args@[1]@);
    assert(args@[0]@.value == args@[0].value@);
    assert(args@[1]@.value == args@[1].value@);
    let code = int_of(ses, db, l, m, fuel, &args[0].value)?;
    let v = value_of(ses, db, l, m, fuel, &args[1].value)?;
    if -20999 <= code && code <= -20000 {
        return Err(Exc::of(OraError { code: (-code) as u32, message: v.to_string() }));
    }
    let mut t = "error number argument to raise_application_error of ".to_owned();
    t.append(&text::integer_text(code));
    t.append(" is out of range");
    Err(Exc::of(OraError { code: 21000, message: t }))
}

fn put_text(ses: &mut Session, db: &Database, l: &Local, t: &str, end_line: bool) -> (r: Result<
    bool,
    Exc,
>)
    requires
        old(ses).wf(),
    ensures
        keeps(
            exec::put_due(now(*old(ses), *db, *l), t@, end_line),
            now(*final(ses), *db, *l),
            r,
            |v: bool| v,
        ),
        final(ses).wf(),
{
    match ses.output.put(t, end_line) {
        Ok(_) => Ok(true),
        Err(e) => Err(Exc::of(e)),
    }
}

#[verifier::spinoff_prover]
#[verifier::rlimit(60)]
pub(crate) fn put_run(
    ses: &mut Session,
    db: &mut Database,
    l: &mut Local,
    m: Mode,
    fuel: u64,
    args: &Vec<Arg>,
    end_line: bool,
) -> (r: Result<bool, Exc>)
    requires
        old(ses).wf(),
        old(db)@.state.wf(),
    ensures
        keeps(
            exec::put_run(m, fuel as nat, now(*old(ses), *old(db), *old(l)), plsql::args_tree(*args), end_line),
            now(*final(ses), *final(db), *final(l)),
            r,
            |v: bool| v,
        ),
        final(ses).wf(),
        final(db)@.state.wf(),
    decreases fuel, 1int, args, 0int,
{
    assert(plsql::args_tree(*args).len() == args@.len());
    if args.len() == 0 {
        let empty = String::new();
        assert(empty@ =~= Seq::<char>::empty());
        return put_text(ses, db, l, &empty, end_line);
    }
    assert(plsql::args_tree(*args)[0] == args@[0]@);
    assert(args@[0]@.value == args@[0].value@);
    let v = value_of(ses, db, l, m, fuel, &args[0].value)?;
    let t = match ses.env.to_text(&v) {
        Some(t) => t,
        None => {
            let empty = String::new();
            assert(empty@ =~= Seq::<char>::empty());
            empty
        },
    };
    put_text(ses, db, l, &t, end_line)
}

fn line_target(e: &Expr) -> (r: Result<Target, OraError>)
    ensures
        match r {
            Ok(t) => exec::line_target(e@) == Ok::<tree::Target, Failure>(t@),
            Err(x) => exec::line_target(e@) == Err::<tree::Target, Failure>(x@),
        },
{
    match e {
        Expr::Bind(i) => Ok(Target::Bind(*i)),
        Expr::Column { table, name } => {
            assert(e@ == tree::Expr::Column { table: ast::opt_text_tree(*table), name: name@ });
            match table {
                None => Ok(Target::Var(name.clone())),
                Some(_) => Err(no_target_error()),
            }
        },
        _ => Err(no_target_error()),
    }
}

/// Takes the oldest line out of the buffer.
#[verifier::spinoff_prover]
#[verifier::rlimit(60)]
fn get_line(ses: &mut Session, db: &Database, l: &mut Local, args: &Vec<Arg>) -> (r: Result<
    bool,
    Exc,
>)
    requires
        old(ses).wf(),
    ensures
        keeps(
            exec::get_line(now(*old(ses), *db, *old(l)), plsql::args_tree(*args)),
            now(*final(ses), *db, *final(l)),
            r,
            |v: bool| v,
        ),
        final(ses).wf(),
{
    assert(plsql::args_tree(*args).len() == args@.len());
    if args.len() == 0 {
        return Err(Exc::of(exec::wrong_args_error("GET_LINE")));
    }
    assert(plsql::args_tree(*args)[0] == args@[0]@);
    assert(args@[0]@.value == args@[0].value@);
    let t = match line_target(&args[0].value) {
        Ok(t) => t,
        Err(e) => {
            return Err(Exc::of(e));
        },
    };
    if args.len() == 1 {
        return Err(Exc::of(exec::wrong_args_error("GET_LINE")));
    }
    assert(plsql::args_tree(*args)[1] == args@[1]@);
    assert(args@[1]@.value == args@[1].value@);
    let u = match line_target(&args[1].value) {
        Ok(u) => u,
        Err(e) => {
            return Err(Exc::of(e));
        },
    };
    let (line, status) = match ses.output.take_line() {
        Some(s) => (Value::varchar(&s), 0i64),
        None => (Value::Null, 1i64),
    };
    store(ses, db, l, &t, line)?;
    store(ses, db, l, &u, Value::number(status))?;
    Ok(true)
}

#[verifier::spinoff_prover]
#[verifier::rlimit(30)]
pub(crate) fn slept(
    ses: &mut Session,
    db: &mut Database,
    l: &mut Local,
    m: Mode,
    fuel: u64,
    args: &Vec<Arg>,
    n: usize,
) -> (r: Result<bool, Exc>)
    requires
        old(ses).wf(),
        old(db)@.state.wf(),
        n <= args@.len(),
    ensures
        keeps(
            exec::slept(m, fuel as nat, now(*old(ses), *old(db), *old(l)), plsql::args_tree(*args), n as int),
            now(*final(ses), *final(db), *final(l)),
            r,
            |v: bool| v,
        ),
        final(ses).wf(),
        final(db)@.state.wf(),
    decreases fuel, 1int, args, n,
{
    if n == 0 {
        return Ok(true);
    }
    let ghost all = plsql::args_tree(*args);
    assert(all.len() == args@.len());
    assert(all[n - 1] == args@[n - 1]@);
    assert(args@[n - 1]@.value == args@[n - 1].value@);
    slept(ses, db, l, m, fuel, args, n - 1)?;
    value_of(ses, db, l, m, fuel, &args[n - 1].value)?;
    Ok(true)
}

} // verus!
