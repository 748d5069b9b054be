//! Calling routines and running blocks.

use std::sync::Arc;

use vstd::prelude::*;
use vstd::string::*;

use crate::ast;
use crate::ast::Expr;
use crate::catalog;
use crate::ddl::Database;
use crate::dml::Column;
use crate::error::{Failure, OraError};
use crate::functions;
use crate::number;
use crate::parser;
use crate::plsql;
use crate::plsql::assign;
use crate::plsql::exec;
use crate::plsql::exec::{ArgValue, Calling, Flow, Mode, Out, Passed, Returned};
use crate::plsql::state;
use crate::plsql::state::{Local, Run};
use crate::plsql::vars;
use crate::plsql::vars::{Cursor, Exc, Frame, Level, Slot, Var, VarType, Variable};
use crate::plsql::{Arg, Block, Decl, Handler, Param, ParamMode, Routine, Target, VarDecl};
use crate::session;
use crate::session::{Session, World};
use crate::text;
use crate::tree;
use crate::value;
use crate::value::Value;

use crate::plsql::interp;
use crate::plsql::interp::{keeps, now, value_of};
use crate::plsql::run::statements_run;

verus! {

fn param_index(p: &Vec<Param>, name: &str) -> (r: Option<usize>)
    ensures
        match r {
            Some(k) => exec::param_index(plsql::params_tree(*p), name@, 0) == Some(k as int) && k
                < p@.len(),
            None => exec::param_index(plsql::params_tree(*p), name@, 0) is None,
        },
{
    let ghost all = plsql::params_tree(*p);
    let total: usize = p.len();
    let mut i: usize = 0;
    while i < total
        invariant
            i <= total == p@.len(),
            all == plsql::params_tree(*p),
            exec::param_index(all, name@, 0) == exec::param_index(all, name@, i as int),
        decreases total - i,
    {
        assert(all[i as int] == p@[i as int]@);
        if text::same(&p[i].name, name) {
            return Some(i);
        }
        i = i + 1;
    }
    None
}

pub open spec fn chosen(v: Seq<Option<usize>>) -> Seq<Option<int>> {
    Seq::new(
        v.len(),
        |i: int|
            match v[i] {
                Some(k) => Some(k as int),
                None => None,
            },
    )
}

proof fn slots_fail_on(c: Calling, n: int, k: int)
    requires
        0 <= n <= k <= c.args.len(),
        exec::slots(c, n) is None,
    ensures
        exec::slots(c, k) is None,
    decreases k - n,
{
    if n < k {
        slots_fail_on(c, n, k - 1);
    }
}

/// Matches arguments to parameters: positional first, then named.
#[verifier::loop_isolation(false)]
fn fill_slots(r_: &Routine, args: &Vec<Arg>) -> (r: Option<Vec<Option<usize>>>)
    ensures
        ({
            let c = Calling { r: plsql::routine_tree(*r_), args: plsql::args_tree(*args) };
            match r {
                Some(v) => exec::slots(c, c.args.len() as int) == Some(chosen(v@)) && v@.len()
                    == r_.params@.len(),
                None => exec::slots(c, c.args.len() as int) is None,
            }
        }),
{
    let ghost c = Calling { r: plsql::routine_tree(*r_), args: plsql::args_tree(*args) };
    assert(c.r.params == plsql::params_tree(r_.params));
    assert(c.r.params.len() == r_.params@.len());
    let total: usize = r_.params.len();
    let mut v: Vec<Option<usize>> = Vec::new();
    for k in 0..total
        invariant
            v@.len() == k,
            forall|j: int| 0 <= j < k ==> #[trigger] v@[j] is None,
    {
        v.push(None);
    }
    assert(chosen(v@) =~= Seq::new(c.r.params.len(), |i: int| None));
    let mut named = false;
    for i in 0..args.len()
        invariant
            v@.len() == total,
            exec::slots(c, i as int) == Some(chosen(v@)),
            named == exec::named_before(c.args, i as int),
    {
        assert(c.args[i as int] == args@[i as int]@);
        assert(c.args[i as int].name == ast::opt_text_tree(args@[i as int].name));
        proof {
            if exec::slots(c, i + 1) is None {
                slots_fail_on(c, i + 1, c.args.len() as int);
            }
        }
        match &args[i].name {
            None => {
                if named || i >= total {
                    return None;
                }
                let ghost before = chosen(v@);
                v.set(i, Some(i));
                assert(chosen(v@) =~= before.update(i as int, Some(i as int)));
                assert(exec::named_before(c.args, i + 1) == exec::named_before(c.args, i as int));
            },
            Some(n) => {
                assert(exec::named_before(c.args, i + 1)) by {
                    assert(c.args[i as int].name is Some);
                }
                named = true;
                match param_index(&r_.params, n) {
                    None => {
                        return None;
                    },
                    Some(p) => {
                        assert(chosen(v@)[p as int] is Some == v@[p as int] is Some);
                        if v[p].is_some() {
                            return None;
                        }
                        let ghost before = chosen(v@);
                        v.set(p, Some(i));
                        assert(chosen(v@) =~= before.update(p as int, Some(i as int)));
                    },
                }
            },
        }
    }
    assert(c.args.len() == args@.len());
    Some(v)
}

fn no_target_error() -> (e: OraError)
    ensures
        e@ == exec::no_target(),
{
    parser::pls_error(363, "expression cannot be used as an assignment target")
}

/// Where an OUT argument goes.
fn out_target(e: &Expr) -> (r: Result<Target, OraError>)
    ensures
        match r {
            Ok(t) => exec::out_target(e@) == Ok::<tree::Target, Failure>(t@),
            Err(x) => exec::out_target(e@) == Err::<tree::Target, Failure>(x@),
        },
{
    match e {
        Expr::Bind(i) => Ok(Target::Bind(*i)),
        Expr::Column { table, name } => {
            assert(e@ == tree::Expr::Column { table: ast::opt_text_tree(*table), name: name@ });
            match table {
                None => Ok(Target::Var(name.clone())),
                Some(rec) => {
                    let c = text::chars_of(rec);
                    let n: usize = c.len();
                    if n > 0 && c[n - 1] == '%' {
                        return Err(no_target_error());
                    }
                    Ok(Target::Field(rec.clone(), name.clone()))
                },
            }
        },
        _ => Err(no_target_error()),
    }
}

/// What a routine's block left behind.
pub struct Given {
    pub value: Value,
    pub targets: Vec<Target>,
    pub values: Vec<Value>,
}

impl View for Given {
    type V = Returned;

    open spec fn view(&self) -> Returned {
        Returned {
            value: self.value@,
            targets: plsql::targets_tree(self.targets),
            values: functions::views(self.values@),
        }
    }
}

proof fn routine_parts(r: &Routine, i: int)
    requires
        0 <= i < r.params@.len(),
    ensures
        plsql::routine_tree(*r).params.len() == r.params@.len(),
        plsql::routine_tree(*r).params[i] == r.params@[i]@,
        plsql::routine_tree(*r).name == r.name@,
        r.params@[i]@.mode == r.params@[i].mode,
        r.params@[i]@.default == ast::opt_expr_tree(r.params@[i].default),
        r.params@[i]@.name == r.params@[i].name@,
        r.params@[i]@.ty == plsql::type_ref_tree(r.params@[i].ty),
{
}

#[verifier::spinoff_prover]
#[verifier::rlimit(60)]
pub(crate) fn passed_one(
    ses: &mut Session,
    db: &mut Database,
    l: &mut Local,
    m: Mode,
    fuel: u64,
    r_: &Arc<Routine>,
    args: &Vec<Arg>,
    arg: Option<usize>,
    i: usize,
) -> (r: Result<ArgValue, Exc>)
    requires
        old(ses).wf(),
        old(db)@.state.wf(),
        i < r_.params@.len(),
    ensures
        keeps(
            exec::passed_one(m, fuel as nat, now(*old(ses), *old(db), *old(l)), Calling { r: plsql::routine_tree(**r_), args: plsql::args_tree(*args) }, match arg { Some(k) => Some(k as int), None => None }, i as int),
            now(*final(ses), *final(db), *final(l)),
            r,
            |v: ArgValue| v@,
        ),
        final(ses).wf(),
        final(db)@.state.wf(),
    decreases fuel, 4int, r_, 5int,
{
    proof {
        routine_parts(&**r_, i as int);
    }
    let p = &r_.params[i];
    match arg {
        Some(k) => {
            assert(plsql::args_tree(*args).len() == args@.len());
            if k >= args.len() {
                return Err(Exc::of(exec::wrong_args_error(&r_.name)));
            }
            assert(plsql::args_tree(*args)[k as int] == args@[k as int]@);
            let e = &args[k].value;
            assert(args@[k as int]@.value == e@);
            match p.mode {
                ParamMode::In => {
                    let v = value_of(ses, db, l, m, fuel, e)?;
                    Ok(ArgValue::In(v))
                },
                ParamMode::InOut => match out_target(e) {
                    Ok(t) => {
                        let v = value_of(ses, db, l, m, fuel, e)?;
                        Ok(ArgValue::Out(t, v))
                    },
                    Err(x) => Err(Exc::of(x)),
                },
                ParamMode::Out => match out_target(e) {
                    Ok(t) => Ok(ArgValue::Out(t, Value::Null)),
                    Err(x) => Err(Exc::of(x)),
                },
            }
        },
        None => {
            match &p.default {
                Some(d) => match p.mode {
                    ParamMode::In => {
                        let v = value_of(ses, db, l, m, fuel, d)?;
                        Ok(ArgValue::In(v))
                    },
                    _ => Err(Exc::of(exec::wrong_args_error(&r_.name))),
                },
                None => Err(Exc::of(exec::wrong_args_error(&r_.name))),
            }
        },
    }
}

#[verifier::spinoff_prover]
#[verifier::rlimit(60)]
pub(crate) fn passed(
    ses: &mut Session,
    db: &mut Database,
    l: &mut Local,
    m: Mode,
    fuel: u64,
    r_: &Arc<Routine>,
    args: &Vec<Arg>,
    slots: &Vec<Option<usize>>,
    n: usize,
) -> (r: Result<Vec<ArgValue>, Exc>)
    requires
        old(ses).wf(),
        old(db)@.state.wf(),
        slots@.len() == r_.params@.len(),
        n <= r_.params@.len(),
    ensures
        keeps(
            exec::passed(m, fuel as nat, now(*old(ses), *old(db), *old(l)), Calling { r: plsql::routine_tree(**r_), args: plsql::args_tree(*args) }, chosen(slots@), n as int),
            now(*final(ses), *final(db), *final(l)),
            r,
            |v: Vec<ArgValue>| exec::all_passed(v@),
        ),
        final(ses).wf(),
        final(db)@.state.wf(),
        r matches Ok(v) ==> v@.len() == n,
    decreases fuel, 4int, r_, 6 + n,
{
    let ghost c = Calling { r: r_@, args: plsql::args_tree(*args) };
    assert(c.r == plsql::routine_tree(**r_));
    assert(c.r.params == plsql::params_tree(r_.params));
    assert(c.r.params.len() == r_.params@.len());
    if n == 0 {
        let out: Vec<ArgValue> = Vec::new();
        assert(exec::all_passed(out@) =~= Seq::empty());
        return Ok(out);
    }
    let mut out = passed(ses, db, l, m, fuel, r_, args, slots, n - 1)?;
    let v = passed_one(ses, db, l, m, fuel, r_, args, slots[n - 1], n - 1)?;
    let ghost before = out@;
    out.push(v);
    assert(exec::all_passed(out@) =~= exec::all_passed(before).push(v@));
    Ok(out)
}

/// Calls a procedure or function with argument expressions, then stores OUT arguments. Returns a
/// function's result.
#[verifier::spinoff_prover]
#[verifier::rlimit(60)]
pub(crate) fn called(
    ses: &mut Session,
    db: &mut Database,
    l: &mut Local,
    m: Mode,
    fuel: u64,
    r_: &Arc<Routine>,
    args: &Vec<Arg>,
) -> (r: Result<Option<Value>, Exc>)
    requires
        old(ses).wf(),
        old(db)@.state.wf(),
    ensures
        keeps(
            exec::called(m, fuel as nat, now(*old(ses), *old(db), *old(l)), Calling { r: plsql::routine_tree(**r_), args: plsql::args_tree(*args) }),
            now(*final(ses), *final(db), *final(l)),
            r,
            |v: Option<Value>| vars::opt_datum(v),
        ),
        final(ses).wf(),
        final(db)@.state.wf(),
    decreases fuel, 4int, r_, 7 + r_.params@.len(),
{
    assert(plsql::routine_tree(**r_).params.len() == r_.params@.len());
    assert(plsql::routine_tree(**r_).returns == plsql::opt_type_ref_tree(r_.returns));
    let slots = match fill_slots(r_, args) {
        Some(t) => t,
        None => {
            return Err(Exc::of(exec::wrong_args_error(&r_.name)));
        },
    };
    let values = passed(ses, db, l, m, fuel, r_, args, &slots, r_.params.len())?;
    let given = invoked(ses, db, l, m, fuel, r_, &values)?;
    store_outs(ses, db, l, r_, given)
}

fn store_outs(ses: &Session, db: &Database, l: &mut Local, r_: &Arc<Routine>, given: Given) -> (r:
    Result<Option<Value>, Exc>)
    requires
        given.targets@.len() <= given.values@.len(),
    ensures
        keeps(
            exec::stored_outs(now(*ses, *db, *old(l)), plsql::routine_tree(**r_), given@),
            now(*ses, *db, *final(l)),
            r,
            |v: Option<Value>| vars::opt_datum(v),
        ),
{
    assert(plsql::routine_tree(**r_).returns == plsql::opt_type_ref_tree(r_.returns));
    assert(plsql::targets_tree(given.targets).len() == given.targets@.len());
    match assign::assign_each(&ses.env, l, &given.targets, &given.values) {
        Ok(_) => Ok(
            if r_.returns.is_some() {
                Some(given.value)
            } else {
                None
            },
        ),
        Err(e) => Err(Exc::of(e)),
    }
}

/// The local routines of all enclosing blocks.
fn enclosing(frames: &Vec<Frame>) -> (r: Vec<Arc<Routine>>)
    ensures
        vars::routines_of(r@) == exec::enclosing(vars::levels(frames@), frames@.len() as int),
{
    let ghost all = vars::levels(frames@);
    let mut out: Vec<Arc<Routine>> = Vec::new();
    assert(vars::routines_of(out@) =~= Seq::empty());
    for i in 0..frames.len()
        invariant
            all == vars::levels(frames@),
            vars::routines_of(out@) == exec::enclosing(all, i as int),
    {
        assert(all[i as int] == frames@[i as int]@);
        let ghost start = vars::routines_of(out@);
        let f = &frames[i].routines;
        let ghost more = vars::routines_of(f@);
        for k in 0..f.len()
            invariant
                more == vars::routines_of(f@),
                vars::routines_of(out@) == start + more.take(k as int),
        {
            let ghost before = vars::routines_of(out@);
            let x = f[k].clone();
            out.push(x);
            assert(vars::routines_of(out@) =~= before.push(plsql::routine_tree(*f@[k as int])));
            assert(vars::routines_of(out@) =~= start + more.take(k + 1));
        }
        assert(more.take(f@.len() as int) =~= more);
    }
    out
}

fn fresh(l: &Local) -> (r: Local)
    ensures
        r@ == exec::fresh(l@),
{
    let mut f = Frame::new();
    let ghost before = f@;
    f.routines = enclosing(&l.frames);
    assert(f@ == (Level { routines: vars::routines_of(f.routines@), ..before }));
    let binds: Vec<Value> = Vec::new();
    assert(functions::views(binds@) =~= Seq::empty());
    let mut r = Local::new(binds);
    r.push_frame(f);
    assert(r@.frames =~= exec::fresh(l@).frames);
    r
}

/// Adds a variable to the innermost block.
pub fn declare(l: &mut Local, name: &str, v: Var)
    requires
        old(l)@.frames.len() > 0,
    ensures
        final(l)@ == (Run { frames: exec::declared(old(l)@.frames, name@, v@), ..old(l)@ }),
{
    let ghost before = l@;
    let n: usize = l.frames.len() - 1;
    assert(before.frames.last() == l.frames@[n as int]@);
    let ghost shown = v@;
    l.frames[n].vars.push((name.to_owned(), v));
    assert(l.frames@[n as int]@.vars =~= before.frames.last().vars.push((name@, shown)));
    assert(l@.frames =~= exec::declared(before.frames, name@, shown));
}

pub fn seen_catalog<'a>(ses: &'a Session, db: &'a Database) -> (c: &'a catalog::Catalog)
    ensures
        c@ == session::seen(World { seat: ses@, store: db@ }),
{
    match &ses.txn {
        Some(t) => &t.work,
        None => &db.state,
    }
}

fn param_var(ses: &Session, db: &Database, frames: &Vec<Frame>, p: &Param, v: &ArgValue) -> (r:
    Result<Var, OraError>)
    ensures
        match r {
            Ok(x) => exec::param_var(
                World { seat: ses@, store: db@ },
                vars::levels(frames@),
                p@,
                v@,
            ) == Ok::<Variable, Failure>(x@),
            Err(e) => exec::param_var(
                World { seat: ses@, store: db@ },
                vars::levels(frames@),
                p@,
                v@,
            ) == Err::<Variable, Failure>(e@),
        },
{
    assert(p@.ty == plsql::type_ref_tree(p.ty));
    let (ty, slot) = state::var_type(seen_catalog(ses, db), frames, &p.ty)?;
    let (value, constant) = match v {
        ArgValue::In(v) => (v.clone(), true),
        ArgValue::Out(_, v) => (v.clone(), false),
    };
    let slot = match slot {
        Slot::Scalar(_) => Slot::Scalar(state::convert(&ses.env, ty, value)?),
        Slot::Record(f) => Slot::Record(f),
    };
    Ok(Var { ty, slot, constant, not_null: false })
}

proof fn params_fail_on(
    w: World,
    frames: Seq<Level>,
    params: Seq<tree::Param>,
    values: Seq<Passed>,
    n: int,
    k: int,
)
    requires
        0 <= n <= k <= params.len(),
        values.len() == params.len(),
        exec::with_params(w, frames, params, values, n) is Err,
    ensures
        exec::with_params(w, frames, params, values, k) == exec::with_params(
            w,
            frames,
            params,
            values,
            n,
        ),
    decreases k - n,
{
    if n < k {
        params_fail_on(w, frames, params, values, n, k - 1);
    }
}

/// Declares the parameters of a routine.
#[verifier::loop_isolation(false)]
fn declare_params(
    ses: &Session,
    db: &Database,
    inner: &mut Local,
    params: &Vec<Param>,
    values: &Vec<ArgValue>,
) -> (r: Result<(), OraError>)
    requires
        old(inner)@.frames.len() > 0,
        params@.len() == values@.len(),
    ensures
        ({
            let due = exec::with_params(
                World { seat: ses@, store: db@ },
                old(inner)@.frames,
                plsql::params_tree(*params),
                exec::all_passed(values@),
                params@.len() as int,
            );
            match r {
                Ok(_) => due == Ok::<Seq<Level>, Failure>(final(inner)@.frames) && final(inner)@
                    == (Run { frames: final(inner)@.frames, ..old(inner)@ }),
                Err(e) => due == Err::<Seq<Level>, Failure>(e@),
            }
        }),
{
    let ghost start = inner@;
    let ghost w = World { seat: ses@, store: db@ };
    let ghost ps = plsql::params_tree(*params);
    let ghost vs = exec::all_passed(values@);
    for i in 0..params.len()
        invariant
            inner@.frames.len() > 0,
            inner@ == (Run { frames: inner@.frames, ..start }),
            exec::with_params(w, start.frames, ps, vs, i as int) == Ok::<Seq<Level>, Failure>(
                inner@.frames,
            ),
    {
        assert(ps[i as int] == params@[i as int]@);
        assert(vs[i as int] == values@[i as int]@);
        assert(params@[i as int]@.name == params@[i as int].name@);
        proof {
            if exec::with_params(w, start.frames, ps, vs, i + 1) is Err {
                params_fail_on(w, start.frames, ps, vs, i + 1, ps.len() as int);
            }
        }
        let v = param_var(ses, db, &inner.frames, &params[i], &values[i])?;
        declare(inner, &params[i].name, v);
    }
    Ok(())
}

fn scalar_of(frames: &Vec<Frame>, name: &str) -> (v: Value)
    ensures
        v@ == exec::scalar_of(vars::levels(frames@), name@),
{
    match vars::var_place(frames, name) {
        Some((a, b)) => {
            assert(vars::levels(frames@)[a as int] == frames@[a as int]@);
            match &frames[a].vars[b].1.slot {
                Slot::Scalar(v) => v.clone(),
                Slot::Record(_) => Value::Null,
            }
        },
        None => Value::Null,
    }
}

/// The targets and final values of OUT arguments.
fn collect_outs(frames: &Vec<Frame>, params: &Vec<Param>, values: &Vec<ArgValue>) -> (r: (
    Vec<Target>,
    Vec<Value>,
))
    requires
        params@.len() == values@.len(),
    ensures
        plsql::targets_tree(r.0) == exec::out_targets(
            exec::all_passed(values@),
            params@.len() as int,
        ),
        functions::views(r.1@) == exec::out_values(
            vars::levels(frames@),
            plsql::params_tree(*params),
            exec::all_passed(values@),
            params@.len() as int,
        ),
        r.0@.len() == r.1@.len(),
{
    let ghost ps = plsql::params_tree(*params);
    let ghost vs = exec::all_passed(values@);
    let mut targets = plsql::no_targets();
    let mut out: Vec<Value> = Vec::new();
    assert(functions::views(out@) =~= Seq::empty());
    assert(targets@.len() == plsql::targets_tree(targets).len());
    for i in 0..params.len()
        invariant
            params@.len() == values@.len(),
            ps == plsql::params_tree(*params),
            vs == exec::all_passed(values@),
            targets@.len() == out@.len(),
            plsql::targets_tree(targets) == exec::out_targets(vs, i as int),
            functions::views(out@) == exec::out_values(vars::levels(frames@), ps, vs, i as int),
    {
        assert(ps[i as int] == params@[i as int]@);
        assert(vs[i as int] == values@[i as int]@);
        assert(params@[i as int]@.name == params@[i as int].name@);
        match &values[i] {
            ArgValue::In(_) => {},
            ArgValue::Out(t, _) => {
                let ghost before = targets;
                let x = plsql::copy_target(t);
                targets.push(x);
                assert(plsql::targets_tree(targets) =~= plsql::targets_tree(before).push(t@));
                let v = scalar_of(frames, &params[i].name);
                let ghost was = functions::views(out@);
                out.push(v);
                assert(functions::views(out@) =~= was.push(v@));
            },
        }
    }
    (targets, out)
}

/// What a function's block returned, as its type.
fn result_of(
    ses: &Session,
    db: &Database,
    inner: &Local,
    due: &Option<plsql::TypeRef>,
    flow: Flow,
) -> (r: Result<Value, OraError>)
    ensures
        functions::gives(
            exec::result_of(now(*ses, *db, *inner), plsql::opt_type_ref_tree(*due), flow@),
            r,
        ),
{
    match due {
        None => Ok(Value::Null),
        Some(ty) => match flow {
            Flow::Return(Some(v)) => {
                let (t, _) = state::var_type(seen_catalog(ses, db), &inner.frames, ty)?;
                state::convert(&ses.env, t, v)
            },
            _ => Err(OraError::new(6503, "PL/SQL: Function returned without value")),
        },
    }
}

/// Runs a routine with evaluated arguments.
#[verifier::spinoff_prover]
#[verifier::rlimit(60)]
pub(crate) fn invoked(
    ses: &mut Session,
    db: &mut Database,
    l: &mut Local,
    m: Mode,
    fuel: u64,
    r_: &Arc<Routine>,
    values: &Vec<ArgValue>,
) -> (r: Result<Given, Exc>)
    requires
        old(ses).wf(),
        old(db)@.state.wf(),
        values@.len() == r_.params@.len(),
    ensures
        keeps(
            exec::invoked(m, fuel as nat, now(*old(ses), *old(db), *old(l)), plsql::routine_tree(**r_), exec::all_passed(values@)),
            now(*final(ses), *final(db), *final(l)),
            r,
            |v: Given| v@,
        ),
        final(ses).wf(),
        final(db)@.state.wf(),
        r matches Ok(g) ==> g.targets@.len() <= g.values@.len(),
    decreases fuel, 3int, r_, 9int,
{
    let ghost rt = r_@;
    assert(rt == plsql::routine_tree(**r_));
    assert(rt.params == plsql::params_tree(r_.params));
    assert(rt.params.len() == r_.params@.len());
    assert(rt.block == plsql::block_tree(r_.block));
    assert(rt.returns == plsql::opt_type_ref_tree(r_.returns));
    if m.depth >= exec::MAX_CALL_DEPTH {
        return Err(
            Exc::of(OraError::new(36, "maximum number of recursive SQL levels (50) exceeded")),
        );
    }
    let mut inner = fresh(l);
    match declare_params(ses, db, &mut inner, &r_.params, values) {
        Ok(_) => {},
        Err(e) => {
            return Err(Exc::of(e));
        },
    }
    let deeper = Mode { read_only: m.read_only, depth: m.depth + 1 };
    let flow = block_run(ses, db, &mut inner, deeper, fuel, &r_.block)?;
    match result_of(ses, db, &inner, &r_.returns, flow) {
        Ok(value) => {
            let (targets, outs) = collect_outs(&inner.frames, &r_.params, values);
            Ok(Given { value, targets, values: outs })
        },
        Err(e) => Err(Exc::of(e)),
    }
}

/// Runs a block.
#[verifier::spinoff_prover]
#[verifier::rlimit(30)]
pub(crate) fn block_run(
    ses: &mut Session,
    db: &mut Database,
    l: &mut Local,
    m: Mode,
    fuel: u64,
    b: &Block,
) -> (r: Result<Flow, Exc>)
    requires
        old(ses).wf(),
        old(db)@.state.wf(),
    ensures
        keeps(
            exec::block_run(m, fuel as nat, now(*old(ses), *old(db), *old(l)), b@),
            now(*final(ses), *final(db), *final(l)),
            r,
            |v: Flow| v@,
        ),
        final(ses).wf(),
        final(db)@.state.wf(),
    decreases fuel, 2int, b, 9int,
{
    l.push_frame(Frame::new());
    let r = block_body(ses, db, l, m, fuel, b);
    l.pop_frame();
    r
}

#[verifier::spinoff_prover]
#[verifier::rlimit(60)]
pub(crate) fn block_body(
    ses: &mut Session,
    db: &mut Database,
    l: &mut Local,
    m: Mode,
    fuel: u64,
    b: &Block,
) -> (r: Result<Flow, Exc>)
    requires
        old(ses).wf(),
        old(db)@.state.wf(),
    ensures
        keeps(
            exec::block_body(m, fuel as nat, now(*old(ses), *old(db), *old(l)), b@),
            now(*final(ses), *final(db), *final(l)),
            r,
            |v: Flow| v@,
        ),
        final(ses).wf(),
        final(db)@.state.wf(),
    decreases fuel, 2int, b, 8int,
{
    assert(b@.decls == plsql::decls_tree(b.decls));
    assert(b@.decls.len() == b.decls@.len());
    assert(b@.body == plsql::stmts_tree(b.body));
    assert(b@.handlers == plsql::handlers_tree(b.handlers));
    declarations_run(ses, db, l, m, fuel, &b.decls, b.decls.len())?;
    match statements_run(ses, db, l, m, fuel, &b.body, 0) {
        Ok(f) => Ok(f),
        Err(e) => handled(ses, db, l, m, fuel, &b.handlers, e, 0),
    }
}

fn push_handling(l: &mut Local, e: Exc)
    ensures
        final(l)@ == (Run { handling: old(l)@.handling.push(e@), ..old(l)@ }),
{
    let ghost before = l@;
    let ghost shown = e@;
    l.handling.push(e);
    assert(l@.handling =~= before.handling.push(shown));
}

fn pop_handling(l: &mut Local)
    ensures
        final(l)@ == exec::left_handler(old(l)@),
{
    let ghost before = l@;
    let _ = l.handling.pop();
    assert(l@.handling =~= exec::left_handler(before).handling);
}

#[verifier::spinoff_prover]
#[verifier::rlimit(60)]
pub(crate) fn handled(
    ses: &mut Session,
    db: &mut Database,
    l: &mut Local,
    m: Mode,
    fuel: u64,
    handlers: &Vec<Handler>,
    e: Exc,
    i: usize,
) -> (r: Result<Flow, Exc>)
    requires
        old(ses).wf(),
        old(db)@.state.wf(),
        i <= handlers@.len(),
    ensures
        keeps(
            exec::handled(m, fuel as nat, now(*old(ses), *old(db), *old(l)), plsql::handlers_tree(*handlers), e@, i as int),
            now(*final(ses), *final(db), *final(l)),
            r,
            |v: Flow| v@,
        ),
        final(ses).wf(),
        final(db)@.state.wf(),
    decreases fuel, 2int, handlers, handlers@.len() - i,
{
    if i >= handlers.len() {
        return Err(e);
    }
    let h = &handlers[i];
    assert(plsql::handlers_tree(*handlers)[i as int] == h@);
    assert(h@.exceptions == ast::texts_tree(h.exceptions));
    assert(h@.exceptions.len() == h.exceptions@.len());
    assert(h@.body == plsql::stmts_tree(h.body));
    if state::matches_any(&l.frames, &h.exceptions, &e) {
        push_handling(l, e);
        let r = statements_run(ses, db, l, m, fuel, &h.body, 0);
        pop_handling(l);
        return r;
    }
    handled(ses, db, l, m, fuel, handlers, e, i + 1)
}

#[verifier::spinoff_prover]
#[verifier::rlimit(30)]
pub(crate) fn declarations_run(
    ses: &mut Session,
    db: &mut Database,
    l: &mut Local,
    m: Mode,
    fuel: u64,
    decls: &Vec<Decl>,
    n: usize,
) -> (r: Result<(), Exc>)
    requires
        old(ses).wf(),
        old(db)@.state.wf(),
        n <= decls@.len(),
    ensures
        keeps(
            exec::declarations_run(m, fuel as nat, now(*old(ses), *old(db), *old(l)), plsql::decls_tree(*decls), n as int),
            now(*final(ses), *final(db), *final(l)),
            r,
            |v: ()| v,
        ),
        final(ses).wf(),
        final(db)@.state.wf(),
    decreases fuel, 2int, decls, n,
{
    if n == 0 {
        return Ok(());
    }
    let ghost all = plsql::decls_tree(*decls);
    assert(all.len() == decls@.len());
    assert(all[n - 1] == decls@[n - 1]@);
    declarations_run(ses, db, l, m, fuel, decls, n - 1)?;
    declaration_run(ses, db, l, m, fuel, &decls[n - 1])
}

#[verifier::spinoff_prover]
#[verifier::rlimit(60)]
pub(crate) fn declaration_run(
    ses: &mut Session,
    db: &mut Database,
    l: &mut Local,
    m: Mode,
    fuel: u64,
    d: &Decl,
) -> (r: Result<(), Exc>)
    requires
        old(ses).wf(),
        old(db)@.state.wf(),
    ensures
        keeps(
            exec::declaration_run(m, fuel as nat, now(*old(ses), *old(db), *old(l)), d@),
            now(*final(ses), *final(db), *final(l)),
            r,
            |v: ()| v,
        ),
        final(ses).wf(),
        final(db)@.state.wf(),
    decreases fuel, 2int, d, 9int,
{
    let n: usize = l.frames.len();
    if n == 0 {
        return Err(exec::exhaustion());
    }
    let ghost before = l@;
    assert(before.frames.last() == l.frames@[n - 1]@);
    match d {
        Decl::Var(v) => variable_run(ses, db, l, m, fuel, v),
        Decl::Exception(name) => {
            l.frames[n - 1].exceptions.push((name.clone(), None));
            assert(l.frames@[n - 1]@.exceptions =~= before.frames.last().exceptions.push((name@, None)));
            assert(l@.frames =~= before.frames.update(n - 1, l.frames@[n - 1]@));
            Ok(())
        },
        Decl::ExceptionInit { name, code } => match vars::exception_place(&l.frames, name) {
            Some((a, b)) => {
                assign::set_exception(&mut l.frames, a, b, *code);
                Ok(())
            },
            None => Err(Exc::of(state::not_declared_error(name))),
        },
        Decl::Cursor(c) => {
            let decl = plsql::copy_cursor_decl(c);
            assert(c@.name == c.name@);
            l.frames[n - 1].cursors.push((c.name.clone(), Cursor { decl, open: None }));
            assert(l.frames@[n - 1]@.cursors =~= before.frames.last().cursors.push(
                (c@.name, vars::CursorState { decl: c@, open: None }),
            ));
            assert(l@.frames =~= before.frames.update(n - 1, l.frames@[n - 1]@));
            Ok(())
        },
        Decl::Routine(x) => {
            l.frames[n - 1].routines.push(x.clone());
            assert(l.frames@[n - 1]@.routines =~= before.frames.last().routines.push(
                plsql::routine_tree(**x),
            ));
            assert(l@.frames =~= before.frames.update(n - 1, l.frames@[n - 1]@));
            Ok(())
        },
    }
}

#[verifier::spinoff_prover]
#[verifier::rlimit(60)]
pub(crate) fn variable_run(
    ses: &mut Session,
    db: &mut Database,
    l: &mut Local,
    m: Mode,
    fuel: u64,
    v: &VarDecl,
) -> (r: Result<(), Exc>)
    requires
        old(ses).wf(),
        old(db)@.state.wf(),
    ensures
        keeps(
            exec::variable_run(m, fuel as nat, now(*old(ses), *old(db), *old(l)), v@),
            now(*final(ses), *final(db), *final(l)),
            r,
            |v: ()| v,
        ),
        final(ses).wf(),
        final(db)@.state.wf(),
    decreases fuel, 1int, v, 9int,
{
    assert(v@.ty == plsql::type_ref_tree(v.ty));
    assert(v@.default == ast::opt_expr_tree(v.default));
    let (ty, slot) = match state::var_type(seen_catalog(ses, db), &l.frames, &v.ty) {
        Ok(x) => x,
        Err(e) => {
            return Err(Exc::of(e));
        },
    };
    let slot = match &v.default {
        Some(d) => {
            let value = value_of(ses, db, l, m, fuel, d)?;
            match state::convert(&ses.env, ty, value) {
                Ok(x) => Slot::Scalar(x),
                Err(e) => {
                    return Err(Exc::of(e));
                },
            }
        },
        None => slot,
    };
    put_variable(ses, db, l, v, ty, slot)
}

fn put_variable(ses: &Session, db: &Database, l: &mut Local, v: &VarDecl, ty: VarType, slot: Slot) -> (r:
    Result<(), Exc>)
    ensures
        keeps(
            exec::variable_there(now(*ses, *db, *old(l)), v@, ty, slot@),
            now(*ses, *db, *final(l)),
            r,
            |v: ()| v,
        ),
{
    if l.frames.len() == 0 {
        return Err(exec::exhaustion());
    }
    let empty = match &slot {
        Slot::Scalar(x) => x.is_null(),
        Slot::Record(_) => false,
    };
    if v.not_null && empty {
        return Err(Exc::of(state::value_error_of("")));
    }
    declare(l, &v.name, Var { ty, slot, constant: v.constant, not_null: v.not_null });
    Ok(())
}

} // verus!
