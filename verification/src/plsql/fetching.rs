//! Fetching from cursors and closing them.

use std::sync::Arc;

use vstd::prelude::*;
use vstd::string::*;

use crate::ast;
use crate::ddl::Database;
use crate::error::OraError;
use crate::plsql;
use crate::plsql::assign;
use crate::plsql::exec;
use crate::plsql::state;
use crate::plsql::state::Local;
use crate::plsql::vars;
use crate::plsql::vars::Exc;
use crate::plsql::Target;
use crate::session::Session;

use crate::plsql::interp::{keeps, now};
use crate::plsql::run::fill_row;

verus! {

fn invalid_cursor() -> (e: Exc)
    ensures
        e@ == vars::raised(exec::invalid_cursor()),
{
    Exc::of(OraError::new(1001, "invalid cursor"))
}

/// Fetches a row.
#[verifier::spinoff_prover]
#[verifier::rlimit(60)]
pub(crate) fn fetched(
    ses: &Session,
    db: &Database,
    l: &mut Local,
    cursor: &str,
    into: &Vec<Target>,
) -> (r: Result<(), Exc>)
    ensures
        keeps(
            exec::fetched(now(*ses, *db, *old(l)), cursor@, plsql::targets_tree(*into)),
            now(*ses, *db, *final(l)),
            r,
            |v: ()| v,
        ),
{
    proof {
        reveal(exec::fetched);
    }
    let (a, b) = match vars::cursor_place(&l.frames, cursor) {
        Some(p) => p,
        None => {
            return Err(Exc::of(state::not_declared_error(cursor)));
        },
    };
    assert(vars::levels(l.frames@)[a as int] == l.frames@[a as int]@);
    if l.frames[a].cursors[b].1.open.is_none() {
        return Err(invalid_cursor());
    }
    match assign::next_row(&mut l.frames, a, b) {
        None => Ok(()),
        Some((columns, row)) => fill_row(ses, db, l, into, &columns, &row),
    }
}

/// Closes a cursor.
pub(crate) fn closed(ses: &Session, db: &Database, l: &mut Local, cursor: &str) -> (r: Result<
    (),
    Exc,
>)
    ensures
        keeps(
            exec::closed(now(*ses, *db, *old(l)), cursor@),
            now(*ses, *db, *final(l)),
            r,
            |v: ()| v,
        ),
{
    proof {
        reveal(exec::closed);
    }
    let (a, b) = match vars::cursor_place(&l.frames, cursor) {
        Some(p) => p,
        None => {
            return Err(Exc::of(state::not_declared_error(cursor)));
        },
    };
    assert(vars::levels(l.frames@)[a as int] == l.frames@[a as int]@);
    if l.frames[a].cursors[b].1.open.is_none() {
        return Err(invalid_cursor());
    }
    assign::set_cursor(&mut l.frames, a, b, None);
    Ok(())
}

} // verus!
