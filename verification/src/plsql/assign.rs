//! Assigning to variables, fields, binds and cursors.

use std::sync::Arc;

use vstd::prelude::*;
use vstd::string::*;

use crate::ast;
use crate::dml;
use crate::env::{Env, Setting};
use crate::error;
use crate::error::{Failure, OraError};
use crate::functions;
use crate::parser;
use crate::plsql;
use crate::plsql::state;
use crate::plsql::state::{Local, Run};
use crate::plsql::vars;
use crate::plsql::vars::{CursorState, Frame, Held, Level, OpenCursor, Opened, Slot, Var, Variable};
use crate::plsql::Target;
use crate::text;
use crate::tree;
use crate::value::{Datum, Value};

verus! {

/// Blocks with one variable changed.
pub open spec fn with_slot(frames: Seq<Level>, a: int, b: int, slot: Held) -> Seq<Level> {
    let f = frames[a];
    let (name, v) = f.vars[b];
    frames.update(
        a,
        Level { vars: f.vars.update(b, (name, Variable { slot, ..v })), ..f },
    )
}

/// Blocks with one cursor opened or closed.
pub open spec fn with_cursor(frames: Seq<Level>, a: int, b: int, open: Option<Opened>) -> Seq<Level> {
    let f = frames[a];
    let (name, c) = f.cursors[b];
    frames.update(
        a,
        Level { cursors: f.cursors.update(b, (name, CursorState { open, ..c })), ..f },
    )
}

/// Of two settings of one cursor the last one counts.
pub proof fn setting_again(
    frames: Seq<Level>,
    a: int,
    b: int,
    first: Option<Opened>,
    last: Option<Opened>,
)
    requires
        0 <= a < frames.len(),
        0 <= b < frames[a].cursors.len(),
    ensures
        with_cursor(with_cursor(frames, a, b, first), a, b, last) == with_cursor(
            frames,
            a,
            b,
            last,
        ),
{
    let f = frames[a];
    let (name, c) = f.cursors[b];
    assert(f.cursors.update(b, (name, CursorState { open: first, ..c })).update(
        b,
        (name, CursorState { open: last, ..c }),
    ) =~= f.cursors.update(b, (name, CursorState { open: last, ..c })));
    assert(with_cursor(with_cursor(frames, a, b, first), a, b, last) =~= with_cursor(
        frames,
        a,
        b,
        last,
    ));
}

pub open spec fn with_exception(frames: Seq<Level>, a: int, b: int, code: u32) -> Seq<Level> {
    let f = frames[a];
    frames.update(
        a,
        Level { exceptions: f.exceptions.update(b, (f.exceptions[b].0, Some(code))), ..f },
    )
}

fn set_slot(frames: &mut Vec<Frame>, a: usize, b: usize, slot: Slot)
    requires
        a < old(frames)@.len(),
        b < old(frames)@[a as int].vars@.len(),
    ensures
        vars::levels(final(frames)@) == with_slot(
            vars::levels(old(frames)@),
            a as int,
            b as int,
            slot@,
        ),
{
    let ghost before = frames@;
    assert(vars::levels(before)[a as int] == before[a as int]@);
    let ghost shown = slot@;
    frames[a].vars[b].1.slot = slot;
    assert(frames@[a as int]@.vars =~= with_slot(
        vars::levels(before),
        a as int,
        b as int,
        shown,
    )[a as int].vars);
    assert(vars::levels(frames@) =~= with_slot(vars::levels(before), a as int, b as int, shown));
}

pub fn set_cursor(frames: &mut Vec<Frame>, a: usize, b: usize, open: Option<OpenCursor>)
    requires
        a < old(frames)@.len(),
        b < old(frames)@[a as int].cursors@.len(),
    ensures
        vars::levels(final(frames)@) == with_cursor(
            vars::levels(old(frames)@),
            a as int,
            b as int,
            vars::opt_opened(open),
        ),
{
    let ghost before = frames@;
    assert(vars::levels(before)[a as int] == before[a as int]@);
    let ghost shown = vars::opt_opened(open);
    frames[a].cursors[b].1.open = open;
    assert(frames@[a as int]@.cursors =~= with_cursor(
        vars::levels(before),
        a as int,
        b as int,
        shown,
    )[a as int].cursors);
    assert(vars::levels(frames@) =~= with_cursor(vars::levels(before), a as int, b as int, shown));
}

/// A cursor behind its next row.
pub open spec fn advanced(o: Opened) -> Opened {
    Opened {
        rows: o.rows.remove(0),
        rowcount: dml::capped(o.rowcount),
        found: Some(true),
        ..o
    }
}

/// Takes the next row of an open cursor, with the columns' names.
pub fn next_row(frames: &mut Vec<Frame>, a: usize, b: usize) -> (r: Option<
    (Vec<String>, Vec<Value>),
>)
    requires
        a < old(frames)@.len(),
        b < old(frames)@[a as int].cursors@.len(),
        old(frames)@[a as int].cursors@[b as int].1.open is Some,
    ensures
        ({
            let was = vars::levels(old(frames)@);
            let o = was[a as int].cursors[b as int].1.open->0;
            &&& was[a as int].cursors[b as int].1.open is Some
            &&& match r {
                None => o.rows.len() == 0 && vars::levels(final(frames)@) == with_cursor(
                    was,
                    a as int,
                    b as int,
                    Some(Opened { found: Some(false), ..o }),
                ),
                Some((columns, row)) => o.rows.len() > 0 && ast::texts_tree(columns) == o.columns
                    && functions::views(row@) == o.rows[0] && vars::levels(final(frames)@)
                    == with_cursor(was, a as int, b as int, Some(advanced(o))),
            }
        }),
{
    let ghost before = vars::levels(frames@);
    assert(before[a as int] == frames@[a as int]@);
    let mut o = match frames[a].cursors[b].1.open.take() {
        Some(o) => o,
        None => {
            return None;
        },
    };
    let ghost opened = o@;
    assert(frames@[a as int]@.cursors =~= with_cursor(before, a as int, b as int, None)[a as int].cursors);
    assert(vars::levels(frames@) =~= with_cursor(before, a as int, b as int, None));
    assert(opened.rows.len() == o.rows@.len());
    if o.rows.len() == 0 {
        o.found = Some(false);
        assert(o@ == (Opened { found: Some(false), ..opened }));
        set_cursor(frames, a, b, Some(o));
        proof {
            setting_again(
                before,
                a as int,
                b as int,
                None,
                Some(Opened { found: Some(false), ..opened }),
            );
        }
        return None;
    }
    assert(opened.rows[0] == functions::views(o.rows@[0]@));
    let row = o.rows.remove(0);
    assert(vars::value_rows(o.rows@) =~= opened.rows.remove(0));
    o.rowcount = if o.rowcount < i64::MAX {
        o.rowcount + 1
    } else {
        i64::MAX
    };
    o.found = Some(true);
    let columns = ast::copy_texts(&o.columns);
    assert(o@ == advanced(opened));
    set_cursor(frames, a, b, Some(o));
    proof {
        setting_again(before, a as int, b as int, None, Some(advanced(opened)));
    }
    Some((columns, row))
}

pub fn set_exception(frames: &mut Vec<Frame>, a: usize, b: usize, code: u32)
    requires
        a < old(frames)@.len(),
        b < old(frames)@[a as int].exceptions@.len(),
    ensures
        vars::levels(final(frames)@) == with_exception(
            vars::levels(old(frames)@),
            a as int,
            b as int,
            code,
        ),
{
    let ghost before = frames@;
    assert(vars::levels(before)[a as int] == before[a as int]@);
    frames[a].exceptions[b].1 = Some(code);
    assert(frames@[a as int]@.exceptions =~= with_exception(
        vars::levels(before),
        a as int,
        b as int,
        code,
    )[a as int].exceptions);
    assert(vars::levels(frames@) =~= with_exception(
        vars::levels(before),
        a as int,
        b as int,
        code,
    ));
}

/// Binds with one set; those that are missing in front of it are NULL.
pub open spec fn with_bind(binds: Seq<Datum>, i: int, v: Datum) -> Seq<Datum> {
    if i < binds.len() {
        binds.update(i, v)
    } else {
        (binds + Seq::new((i - binds.len()) as nat, |k: int| Datum::Null)).push(v)
    }
}

fn set_bind(binds: &mut Vec<Value>, i: usize, v: Value)
    ensures
        functions::views(final(binds)@) == with_bind(functions::views(old(binds)@), i as int, v@),
{
    let ghost before = functions::views(binds@);
    let ghost shown = v@;
    if i < binds.len() {
        binds.set(i, v);
        assert(functions::views(binds@) =~= before.update(i as int, shown));
        return;
    }
    while binds.len() < i
        invariant
            before.len() <= binds@.len() <= i,
            functions::views(binds@) == before + Seq::new(
                (binds@.len() - before.len()) as nat,
                |k: int| Datum::Null,
            ),
        decreases i - binds@.len(),
    {
        let ghost was = functions::views(binds@);
        binds.push(Value::Null);
        assert(functions::views(binds@) =~= was.push(Datum::Null));
        assert(functions::views(binds@) =~= before + Seq::new(
            (binds@.len() - before.len()) as nat,
            |k: int| Datum::Null,
        ));
    }
    let ghost filled = functions::views(binds@);
    binds.push(v);
    assert(functions::views(binds@) =~= filled.push(shown));
}

pub open spec fn not_a_target(name: Seq<char>) -> Failure {
    parser::pls(363, "expression '"@ + name + "' cannot be used as an assignment target"@)
}

pub open spec fn no_component(field: Seq<char>) -> Failure {
    parser::pls(302, "component '"@ + field + "' must be declared"@)
}

fn no_component_error(field: &str) -> (e: OraError)
    ensures
        e@ == no_component(field@),
{
    let m = text::join(&text::join("component '", field), "' must be declared");
    parser::pls_error(302, &m)
}

/// The first place of a field.
pub open spec fn field_place(f: Seq<(Seq<char>, Datum)>, name: Seq<char>, i: int) -> Option<int>
    decreases f.len() - i,
{
    if i < 0 || i >= f.len() {
        None
    } else if f[i].0 == name {
        Some(i)
    } else {
        field_place(f, name, i + 1)
    }
}

/// A record with a field set. One without fields yet takes any.
pub open spec fn with_field(f: Seq<(Seq<char>, Datum)>, name: Seq<char>, v: Datum) -> Result<
    Seq<(Seq<char>, Datum)>,
    Failure,
> {
    match field_place(f, name, 0) {
        Some(i) => Ok(f.update(i, (f[i].0, v))),
        None => if f.len() == 0 {
            Ok(f.push((name, v)))
        } else {
            Err(no_component(name))
        },
    }
}

/// What an assignment leaves.
pub open spec fn assigned(env: Setting, l: Run, target: tree::Target, v: Datum) -> Result<
    Run,
    Failure,
> {
    match target {
        tree::Target::Bind(i) => Ok(Run { binds: with_bind(l.binds, i, v), ..l }),
        tree::Target::Var(name) => match vars::find_var(l.frames, name, l.frames.len() as int) {
            None => Err(state::not_declared(name)),
            Some((a, b)) => {
                let var = l.frames[a].vars[b].1;
                if var.constant {
                    Err(not_a_target(name))
                } else {
                    match state::converted(env, var.ty, v) {
                        Err(e) => Err(e),
                        Ok(v) => if var.not_null && v is Null {
                            Err(state::value_error(""@))
                        } else {
                            Ok(
                                Run {
                                    frames: with_slot(l.frames, a, b, Held::Scalar(v)),
                                    ..l
                                },
                            )
                        },
                    }
                }
            },
        },
        tree::Target::Field(record, field) => match vars::find_var(
            l.frames,
            record,
            l.frames.len() as int,
        ) {
            None => Err(state::not_declared(record)),
            Some((a, b)) => match l.frames[a].vars[b].1.slot {
                Held::Record(f) => match with_field(f, field, v) {
                    Ok(f) => Ok(
                        Run { frames: with_slot(l.frames, a, b, Held::Record(f)), ..l },
                    ),
                    Err(e) => Err(e),
                },
                Held::Scalar(_) => Err(no_component(field)),
            },
        },
    }
}

fn copy_record(f: &Vec<(String, Value)>) -> (r: Vec<(String, Value)>)
    ensures
        vars::record_of(r@) == vars::record_of(f@),
{
    let mut out: Vec<(String, Value)> = Vec::new();
    for i in 0..f.len()
        invariant
            out@.len() == i,
            forall|k: int|
                0 <= k < i ==> (#[trigger] out@[k]).0@ == f@[k].0@ && out@[k].1@ == f@[k].1@,
    {
        out.push((f[i].0.clone(), f[i].1.clone()));
    }
    assert(vars::record_of(out@) =~= vars::record_of(f@));
    out
}

fn set_field(f: &Vec<(String, Value)>, name: &str, v: Value) -> (r: Result<
    Vec<(String, Value)>,
    OraError,
>)
    ensures
        match r {
            Ok(x) => with_field(vars::record_of(f@), name@, v@) == Ok::<
                Seq<(Seq<char>, Datum)>,
                Failure,
            >(vars::record_of(x@)),
            Err(e) => with_field(vars::record_of(f@), name@, v@) == Err::<
                Seq<(Seq<char>, Datum)>,
                Failure,
            >(e@),
        },
{
    let ghost shown = vars::record_of(f@);
    let mut out = copy_record(f);
    let total: usize = f.len();
    let mut i: usize = 0;
    while i < total
        invariant
            i <= total == f@.len(),
            shown == vars::record_of(f@),
            vars::record_of(out@) == shown,
            field_place(shown, name@, 0) == field_place(shown, name@, i as int),
        decreases total - i,
    {
        assert(shown[i as int] == (f@[i as int].0@, f@[i as int].1@));
        if text::same(&f[i].0, name) {
            let ghost value = v@;
            assert(vars::record_of(out@).len() == out@.len());
            out.set(i, (f[i].0.clone(), v));
            assert(vars::record_of(out@) =~= shown.update(
                i as int,
                (shown[i as int].0, value),
            ));
            return Ok(out);
        }
        i = i + 1;
    }
    if total == 0 {
        let ghost value = v@;
        let ghost before = out@;
        assert(before.len() == vars::record_of(before).len());
        out.push((name.to_owned(), v));
        assert(vars::record_of(out@) =~= shown.push((name@, value)));
        return Ok(out);
    }
    Err(no_component_error(name))
}

/// Assigns a value.
pub fn assign(env: &Env, l: &mut Local, target: &Target, v: Value) -> (r: Result<(), OraError>)
    ensures
        match r {
            Ok(_) => assigned(env@, old(l)@, target@, v@) == Ok::<Run, Failure>(final(l)@),
            Err(e) => assigned(env@, old(l)@, target@, v@) == Err::<Run, Failure>(e@) && final(l)@
                == old(l)@,
        },
{
    match target {
        Target::Bind(i) => {
            set_bind(&mut l.binds, *i, v);
            Ok(())
        },
        Target::Var(name) => {
            let (a, b) = match vars::var_place(&l.frames, name) {
                Some(p) => p,
                None => {
                    return Err(state::not_declared_error(name));
                },
            };
            assert(vars::levels(l.frames@)[a as int] == l.frames@[a as int]@);
            let var = &l.frames[a].vars[b].1;
            if var.constant {
                let m = text::join(
                    &text::join("expression '", name),
                    "' cannot be used as an assignment target",
                );
                return Err(parser::pls_error(363, &m));
            }
            let not_null = var.not_null;
            let v = state::convert(env, var.ty, v)?;
            if not_null && v.is_null() {
                return Err(state::value_error_of(""));
            }
            set_slot(&mut l.frames, a, b, Slot::Scalar(v));
            Ok(())
        },
        Target::Field(record, field) => {
            let (a, b) = match vars::var_place(&l.frames, record) {
                Some(p) => p,
                None => {
                    return Err(state::not_declared_error(record));
                },
            };
            assert(vars::levels(l.frames@)[a as int] == l.frames@[a as int]@);
            let made = match &l.frames[a].vars[b].1.slot {
                Slot::Record(f) => set_field(f, field, v),
                Slot::Scalar(_) => Err(no_component_error(field)),
            };
            match made {
                Ok(f) => {
                    set_slot(&mut l.frames, a, b, Slot::Record(f));
                    Ok(())
                },
                Err(e) => Err(e),
            }
        },
    }
}

/// A record whose fields get a row's values in their order.
pub open spec fn refilled(f: Seq<(Seq<char>, Datum)>, row: Seq<Datum>) -> Seq<(Seq<char>, Datum)> {
    Seq::new(f.len(), |i: int| (f[i].0, row[i]))
}

/// A record of a row's columns.
pub open spec fn zipped(columns: Seq<Seq<char>>, row: Seq<Datum>) -> Seq<(Seq<char>, Datum)> {
    Seq::new(
        if columns.len() < row.len() {
            columns.len()
        } else {
            row.len()
        },
        |i: int| (columns[i], row[i]),
    )
}

pub fn zip_row(columns: &Vec<String>, row: &Vec<Value>) -> (r: Vec<(String, Value)>)
    ensures
        vars::record_of(r@) == zipped(ast::texts_tree(*columns), functions::views(row@)),
{
    let mut out: Vec<(String, Value)> = Vec::new();
    let mut i: usize = 0;
    while i < columns.len() && i < row.len()
        invariant
            i <= columns@.len(),
            i <= row@.len(),
            out@.len() == i,
            forall|k: int|
                0 <= k < i ==> (#[trigger] out@[k]).0@ == columns@[k]@ && out@[k].1@ == row@[k]@,
        decreases columns@.len() - i,
    {
        out.push((columns[i].clone(), row[i].clone()));
        i = i + 1;
    }
    assert(vars::record_of(out@) =~= zipped(ast::texts_tree(*columns), functions::views(row@)));
    out
}

/// The record that INTO fills, if its only target is one.
pub open spec fn record_target(l: Run, targets: Seq<tree::Target>) -> Option<(int, int)> {
    if targets.len() == 1 {
        match targets[0] {
            tree::Target::Var(name) => match vars::find_var(
                l.frames,
                name,
                l.frames.len() as int,
            ) {
                Some((a, b)) => if l.frames[a].vars[b].1.slot is Record {
                    Some((a, b))
                } else {
                    None
                },
                None => None,
            },
            _ => None,
        }
    } else {
        None
    }
}

/// A state and why filling it stopped, if it did.
pub struct Filling {
    pub l: Run,
    pub failure: Option<Failure>,
}

/// What the first `n` of several assignments leave.
pub open spec fn assigned_upto(
    env: Setting,
    l: Run,
    targets: Seq<tree::Target>,
    row: Seq<Datum>,
    n: int,
) -> Filling
    decreases n,
{
    if n <= 0 || n > targets.len() {
        Filling { l, failure: None }
    } else {
        let f = assigned_upto(env, l, targets, row, n - 1);
        if f.failure is Some {
            f
        } else {
            match assigned(env, f.l, targets[n - 1], row[n - 1]) {
                Ok(l) => Filling { l, failure: None },
                Err(e) => Filling { l: f.l, failure: Some(e) },
            }
        }
    }
}

proof fn assigning_fails_on(
    env: Setting,
    l: Run,
    targets: Seq<tree::Target>,
    row: Seq<Datum>,
    n: int,
    m: int,
)
    requires
        0 <= n <= m <= targets.len(),
        assigned_upto(env, l, targets, row, n).failure is Some,
    ensures
        assigned_upto(env, l, targets, row, m) == assigned_upto(env, l, targets, row, n),
    decreases m - n,
{
    if n < m {
        assigning_fails_on(env, l, targets, row, n, m - 1);
    }
}

/// What a row leaves in INTO targets: a single record, or one target per column.
#[verifier::opaque]
pub open spec fn row_assigned(
    env: Setting,
    l: Run,
    targets: Seq<tree::Target>,
    columns: Seq<Seq<char>>,
    row: Seq<Datum>,
) -> Filling {
    match record_target(l, targets) {
        Some((a, b)) => {
            let f = l.frames[a].vars[b].1.slot->Record_0;
            let new = if f.len() == row.len() {
                refilled(f, row)
            } else {
                zipped(columns, row)
            };
            Filling {
                l: Run { frames: with_slot(l.frames, a, b, Held::Record(new)), ..l },
                failure: None,
            }
        },
        None => if targets.len() < row.len() {
            Filling { l, failure: Some(error::failure(913, "too many values"@)) }
        } else if targets.len() > row.len() {
            Filling { l, failure: Some(error::failure(947, "not enough values"@)) }
        } else {
            assigned_upto(env, l, targets, row, targets.len() as int)
        },
    }
}

pub open spec fn fills(f: Filling, after: Run, r: Result<(), OraError>) -> bool {
    after == f.l && match r {
        Ok(_) => f.failure is None,
        Err(e) => f.failure == Some(e@),
    }
}

fn refill(f: &Vec<(String, Value)>, row: &Vec<Value>) -> (r: Vec<(String, Value)>)
    requires
        f@.len() == row@.len(),
    ensures
        vars::record_of(r@) == refilled(vars::record_of(f@), functions::views(row@)),
{
    let mut out: Vec<(String, Value)> = Vec::new();
    for i in 0..f.len()
        invariant
            f@.len() == row@.len(),
            out@.len() == i,
            forall|k: int|
                0 <= k < i ==> (#[trigger] out@[k]).0@ == f@[k].0@ && out@[k].1@ == row@[k]@,
    {
        out.push((f[i].0.clone(), row[i].clone()));
    }
    assert(vars::record_of(out@) =~= refilled(vars::record_of(f@), functions::views(row@)));
    out
}

/// Assigns values one by one.
#[verifier::loop_isolation(false)]
pub fn assign_each(env: &Env, l: &mut Local, targets: &Vec<Target>, row: &Vec<Value>) -> (r: Result<
    (),
    OraError,
>)
    requires
        targets@.len() <= row@.len(),
    ensures
        fills(
            assigned_upto(
                env@,
                old(l)@,
                plsql::targets_tree(*targets),
                functions::views(row@),
                targets@.len() as int,
            ),
            final(l)@,
            r,
        ),
{
    let ghost start = l@;
    let ghost all = plsql::targets_tree(*targets);
    let ghost values = functions::views(row@);
    for i in 0..targets.len()
        invariant
            assigned_upto(env@, start, all, values, i as int) == (Filling {
                l: l@,
                failure: None,
            }),
    {
        assert(all[i as int] == targets@[i as int]@);
        assert(values[i as int] == row@[i as int]@);
        proof {
            if assigned_upto(env@, start, all, values, i + 1).failure is Some {
                assigning_fails_on(env@, start, all, values, i + 1, all.len() as int);
            }
        }
        assign(env, l, &targets[i], row[i].clone())?;
    }
    Ok(())
}

/// Assigns one row to INTO targets: a single record, or one target per column.
pub fn assign_row(
    env: &Env,
    l: &mut Local,
    targets: &Vec<Target>,
    columns: &Vec<String>,
    row: &Vec<Value>,
) -> (r: Result<(), OraError>)
    ensures
        fills(
            row_assigned(
                env@,
                old(l)@,
                plsql::targets_tree(*targets),
                ast::texts_tree(*columns),
                functions::views(row@),
            ),
            final(l)@,
            r,
        ),
{
    proof {
        reveal(row_assigned);
    }
    assert(plsql::targets_tree(*targets).len() == targets@.len());
    if targets.len() == 1 {
        assert(plsql::targets_tree(*targets)[0] == targets@[0]@);
        if let Target::Var(name) = &targets[0] {
            match vars::var_place(&l.frames, name) {
                Some((a, b)) => {
                    assert(vars::levels(l.frames@)[a as int] == l.frames@[a as int]@);
                    let made = match &l.frames[a].vars[b].1.slot {
                        Slot::Record(f) => {
                            assert(vars::record_of(f@).len() == f@.len());
                            Some(
                                if f.len() == row.len() {
                                    refill(f, row)
                                } else {
                                    zip_row(columns, row)
                                },
                            )
                        },
                        Slot::Scalar(_) => None,
                    };
                    match made {
                        Some(f) => {
                            set_slot(&mut l.frames, a, b, Slot::Record(f));
                            return Ok(());
                        },
                        None => {},
                    }
                },
                None => {},
            }
        }
    }
    if targets.len() < row.len() {
        return Err(OraError::new(913, "too many values"));
    }
    if targets.len() > row.len() {
        return Err(OraError::new(947, "not enough values"));
    }
    assign_each(env, l, targets, row)
}

/// A value that is assigned to a variable is what the variable then stands for.
pub proof fn an_assigned_value_is_read_back(env: Setting, l: Run, name: Seq<char>, v: Datum)
    requires
        assigned(env, l, tree::Target::Var(name), v) is Ok,
    ensures
        ({
            let (a, b) = vars::find_var(l.frames, name, l.frames.len() as int)->0;
            let after = assigned(env, l, tree::Target::Var(name), v)->Ok_0;
            after.visible().lookup(None, name) == Some(
                state::converted(env, l.frames[a].vars[b].1.ty, v)->Ok_0,
            )
        }),
{
    let n = l.frames.len() as int;
    let (a, b) = vars::find_var(l.frames, name, n)->0;
    place_in_range(l.frames, name, n);
    let value = state::converted(env, l.frames[a].vars[b].1.ty, v)->Ok_0;
    place_stays(l.frames, name, n, a, b, Held::Scalar(value));
}

proof fn named_in_range<A>(s: Seq<(Seq<char>, A)>, name: Seq<char>, n: int)
    requires
        vars::last_named(s, name, n) is Some,
    ensures
        0 <= vars::last_named(s, name, n)->0 < n <= s.len(),
        s[vars::last_named(s, name, n)->0].0 == name,
    decreases n,
{
    if s[n - 1].0 != name {
        named_in_range(s, name, n - 1);
    }
}

proof fn place_in_range(frames: Seq<Level>, name: Seq<char>, n: int)
    requires
        vars::find_var(frames, name, n) is Some,
    ensures
        ({
            let (a, b) = vars::find_var(frames, name, n)->0;
            0 <= a < n <= frames.len() && 0 <= b < frames[a].vars.len()
        }),
    decreases n,
{
    let here = vars::last_named(frames[n - 1].vars, name, frames[n - 1].vars.len() as int);
    match here {
        Some(_) => {
            named_in_range(frames[n - 1].vars, name, frames[n - 1].vars.len() as int);
        },
        None => {
            place_in_range(frames, name, n - 1);
        },
    }
}

proof fn named_stays(s: Seq<(Seq<char>, Variable)>, name: Seq<char>, n: int, b: int, v: Variable)
    requires
        0 <= b < s.len(),
        0 <= n <= s.len(),
    ensures
        vars::last_named(s.update(b, (s[b].0, v)), name, n) == vars::last_named(s, name, n),
    decreases n,
{
    if n > 0 {
        named_stays(s, name, n - 1, b, v);
    }
}

proof fn place_stays(frames: Seq<Level>, name: Seq<char>, n: int, a: int, b: int, slot: Held)
    requires
        0 <= n <= frames.len(),
        0 <= a < frames.len(),
        0 <= b < frames[a].vars.len(),
    ensures
        vars::find_var(with_slot(frames, a, b, slot), name, n) == vars::find_var(frames, name, n),
    decreases n,
{
    if n > 0 {
        place_stays(frames, name, n - 1, a, b, slot);
        if n - 1 == a {
            let f = frames[a];
            named_stays(
                f.vars,
                name,
                f.vars.len() as int,
                b,
                Variable { slot, ..f.vars[b].1 },
            );
        }
    }
}

} // verus!
