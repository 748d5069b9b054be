//! Calling a stored function with argument values.

use std::sync::Arc;

use vstd::prelude::*;
use vstd::string::*;

use crate::ddl::Database;
use crate::engine;
use crate::error;
use crate::error::{Failure, OraError};
use crate::functions;
use crate::plsql;
use crate::plsql::calls;
use crate::plsql::exec;
use crate::plsql::exec::{ArgValue, Mode, Out, Passed, Returned, State};
use crate::plsql::state::Local;
use crate::plsql::{ParamMode, Routine};
use crate::session::{Session, World};
use crate::text;
use crate::tree;
use crate::value::{Datum, Value};

verus! {

/// Whether one of a routine's parameters from the `i`-th on gives a value back.
pub open spec fn gives_out(params: Seq<tree::Param>, i: int) -> bool
    decreases params.len() - i,
{
    if i < 0 || i >= params.len() {
        false
    } else {
        params[i].mode != ParamMode::In || gives_out(params, i + 1)
    }
}

pub open spec fn passed_in(args: Seq<Datum>) -> Seq<Passed> {
    Seq::new(args.len(), |i: int| Passed::In(args[i]))
}

/// Why a routine cannot be called from a query.
pub open spec fn not_callable(r: tree::Routine) -> Option<Failure> {
    if r.returns is None {
        Some(error::invalid_identifier(seq!['"'] + r.name + seq!['"']))
    } else if gives_out(r.params, 0) {
        Some(error::failure(6572, "Function "@ + r.name + " has out arguments"@))
    } else {
        None
    }
}

/// What a function gives, `depth` calls deep. Called from a query, it must not
/// change the database.
pub open spec fn function_run(w: World, depth: u32, r: tree::Routine, args: Seq<Datum>) -> Out<Returned> {
    exec::invoked(
        Mode { read_only: true, depth },
        engine::STEPS as nat,
        State { w, l: exec::alone(Seq::empty()) },
        r,
        passed_in(args),
    )
}

/// Whether a call came to what is due.
pub open spec fn returns_due(due: Out<Returned>, after: World, r: Result<Value, OraError>) -> bool {
    exec::open_ended(due.r) || (after == due.s.w && match r {
        Ok(v) => due.r is Ok && due.r->Ok_0.value == v@,
        Err(e) => due.r is Err && due.r->Err_0.err == e@,
    })
}

fn has_out(r: &Routine) -> (b: bool)
    ensures
        b == gives_out(plsql::params_tree(r.params), 0),
{
    let ghost all = plsql::params_tree(r.params);
    assert(all.len() == r.params@.len());
    let total: usize = r.params.len();
    let mut i: usize = 0;
    while i < total
        invariant
            i <= total == r.params@.len(),
            all == plsql::params_tree(r.params),
            all.len() == total,
            gives_out(all, 0) == gives_out(all, i as int),
        decreases total - i,
    {
        assert(all[i as int] == r.params@[i as int]@);
        match r.params[i].mode {
            ParamMode::In => {},
            _ => {
                return true;
            },
        }
        i = i + 1;
    }
    false
}

fn pass_in(args: Vec<Value>) -> (r: Vec<ArgValue>)
    ensures
        exec::all_passed(r@) == passed_in(functions::views(args@)),
        r@.len() == args@.len(),
{
    let mut out: Vec<ArgValue> = Vec::new();
    for i in 0..args.len()
        invariant
            out@.len() == i,
            forall|j: int| 0 <= j < i ==> #[trigger] out@[j]@ == Passed::In(args@[j]@),
    {
        out.push(ArgValue::In(args[i].clone()));
    }
    assert(exec::all_passed(out@) =~= passed_in(functions::views(args@)));
    out
}

/// Calls a stored function with argument values, one for each parameter.
pub fn call_function(
    ses: &mut Session,
    db: &mut Database,
    depth: u32,
    routine: &Arc<Routine>,
    args: Vec<Value>,
) -> (r: Result<Value, OraError>)
    requires
        old(ses).wf(),
        old(db)@.state.wf(),
        args@.len() == routine.params@.len(),
    ensures
        final(ses).wf(),
        final(db)@.state.wf(),
        match not_callable(plsql::routine_tree(**routine)) {
            Some(e) => r is Err && r->Err_0@ == e && final(ses)@ == old(ses)@ && final(db)@ == old(
                db,
            )@,
            None => returns_due(
                function_run(
                    World { seat: old(ses)@, store: old(db)@ },
                    depth,
                    plsql::routine_tree(**routine),
                    functions::views(args@),
                ),
                World { seat: final(ses)@, store: final(db)@ },
                r,
            ),
        },
{
    let ghost rt = routine@;
    assert(rt == plsql::routine_tree(**routine));
    assert(rt.name == routine.name@);
    assert(rt.params == plsql::params_tree(routine.params));
    assert(rt.returns == plsql::opt_type_ref_tree(routine.returns));
    if routine.returns.is_none() {
        return Err(OraError::invalid_identifier(text::quoted(routine.name.as_str()).as_str()));
    }
    if has_out(routine) {
        let mut m = "Function ".to_owned();
        m.append(routine.name.as_str());
        m.append(" has out arguments");
        return Err(OraError::new(6572, m.as_str()));
    }
    let values = pass_in(args);
    let none: Vec<Value> = Vec::new();
    assert(functions::views(none@) =~= Seq::<Datum>::empty());
    let mut l = Local::new(none);
    assert(l@ == exec::alone(Seq::empty()));
    match calls::invoked(ses, db, &mut l, Mode { read_only: true, depth }, engine::STEPS, routine, &values) {
        Ok(g) => Ok(g.value),
        Err(e) => Err(e.err),
    }
}

} // verus!
