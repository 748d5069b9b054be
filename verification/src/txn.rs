//! What INSERT, UPDATE and DELETE do to a transaction, and how it is undone and committed.

use vstd::prelude::*;
use vstd::string::*;

use crate::ast;
use crate::ast::{Delete, Expr, Insert, InsertSource, Update};
use crate::catalog;
use crate::catalog::{Cat, Catalog, Sheet, Table};
use crate::dml;
use crate::dml::{Change, Counters, Deal, Dml, Step, Tally, Txn};
use crate::error;
use crate::error::{Failure, OraError};
use crate::eval;
use crate::eval::Scene;
use crate::functions;
use crate::plsql::vars;
use crate::store;
use crate::text;
use crate::tree;
use crate::value::{Datum, Value};

verus! {

/// How many rows a statement touched, and what its RETURNING clause gives.
pub type Yield = (int, Seq<Seq<Datum>>);

/// What a statement does.
pub struct Effect {
    pub work: Cat,
    pub added: Seq<Step>,
    pub tally: Tally,
    pub result: Result<Yield, Failure>,
}

/// A statement that fails changes nothing but the counters.
pub open spec fn fail(cat: Cat, tally: Tally, e: Failure) -> Effect {
    Effect { work: cat, added: Seq::empty(), tally, result: Err(e) }
}

/// Whether a statement did what it was due to do, where that was settled.
pub open spec fn does(
    e: Effect,
    before: Deal,
    after: Deal,
    tally: Tally,
    r: Result<(u64, Vec<Vec<Value>>), OraError>,
) -> bool {
    e.result == Err::<Yield, Failure>(eval::free()) || (after == (Deal {
        work: e.work,
        log: before.log + e.added,
        ..before
    }) && tally == e.tally && match r {
        Ok((n, rows)) => e.result == Ok::<Yield, Failure>((n as int, vars::value_rows(rows@))),
        Err(x) => e.result == Err::<Yield, Failure>(x@),
    })
}

/// The table that a change is made to.
pub open spec fn table_of(step: Step) -> Seq<char> {
    match step {
        Step::Insert { table, .. } => table,
        Step::Update { table, .. } => table,
        Step::Delete { table, .. } => table,
    }
}

/// Whether nothing but the table of a name differs.
pub open spec fn differs_at(a: Cat, b: Cat, name: Seq<char>) -> bool {
    &&& b == (Cat { tables: b.tables, ..a })
    &&& b.tables.len() == a.tables.len()
    &&& forall|i: int|
        0 <= i < a.tables.len() && a.tables[i].name != name ==> #[trigger] b.tables[i] == a.tables[i]
}

/// Whether a statement on a table kept to it, whatever its expressions came to: one
/// that fails leaves the work and the log as they were, and one that succeeds changes
/// no other table and puts its changes, all to this one, behind the log.
pub open spec fn keeps_to(name: Seq<char>, before: Deal, after: Deal, ok: bool) -> bool {
    if ok {
        &&& after.base_version == before.base_version
        &&& differs_at(before.work, after.work, name)
        &&& before.log.len() <= after.log.len()
        &&& after.log.take(before.log.len() as int) == before.log
        &&& forall|k: int|
            before.log.len() <= k < after.log.len() ==> table_of(#[trigger] after.log[k]) == name
    } else {
        after == before
    }
}

/// Whether a statement put some rows in a table, from a row id on.
pub open spec fn inserts(
    user: Seq<char>,
    name: Seq<char>,
    before: Deal,
    after: Deal,
    first: int,
    rows: Seq<Seq<Datum>>,
) -> bool {
    before.work.table(name) is Some && ({
        let i = before.work.table(name)->0;
        let f = dml::filled(user, before.work.tables[i], first, rows, rows.len() as int);
        f.failure is None && after == (Deal {
            work: before.work.with_table(i, f.sheet),
            log: before.log + insert_steps(name, first, rows),
            ..before
        })
    })
}

/// Whether a statement gave rows of a table new values.
pub open spec fn updates(
    name: Seq<char>,
    before: Deal,
    after: Deal,
    found: Seq<(int, Seq<Datum>)>,
    new: Seq<(int, Seq<Datum>)>,
) -> bool {
    before.work.table(name) is Some && found.len() == new.len() && ({
        let i = before.work.table(name)->0;
        match before.work.tables[i].updated(new) {
            Ok(sheet) => after == (Deal {
                work: before.work.with_table(i, sheet),
                log: before.log + update_steps(name, found, new),
                ..before
            }),
            Err(_) => false,
        }
    })
}

/// Whether a statement took rows out of a table.
pub open spec fn deletes(
    name: Seq<char>,
    before: Deal,
    after: Deal,
    rows: Seq<(int, Seq<Datum>)>,
) -> bool {
    before.work.table(name) is Some && ({
        let i = before.work.table(name)->0;
        after == (Deal {
            work: before.work.with_table(
                i,
                without_rows(before.work.tables[i], rows, rows.len() as int),
            ),
            log: before.log + delete_steps(name, rows),
            ..before
        })
    })
}

/// The table that is found has the name.
proof fn found_by_name(cat: Cat, name: Seq<char>, i: int, k: int)
    requires
        catalog::table_from(cat.tables, name, k) == Some(i),
        0 <= k,
    ensures
        0 <= i < cat.tables.len(),
        cat.tables[i].name == name,
    decreases cat.tables.len() - k,
{
    if cat.tables[k].name != name {
        found_by_name(cat, name, i, k + 1);
    }
}

/// What is put behind the log of changes to one table keeps to it.
proof fn kept(name: Seq<char>, before: Deal, after: Deal, i: int, sheet: Sheet, added: Seq<Step>)
    requires
        before.work.table(name) == Some(i),
        after == (Deal {
            work: before.work.with_table(i, sheet),
            log: before.log + added,
            ..before
        }),
        forall|k: int| 0 <= k < added.len() ==> table_of(#[trigger] added[k]) == name,
    ensures
        keeps_to(name, before, after, true),
{
    found_by_name(before.work, name, i, 0);
    assert(after.log.take(before.log.len() as int) =~= before.log);
    assert forall|k: int| before.log.len() <= k < after.log.len() implies table_of(
        #[trigger] after.log[k],
    ) == name by {
        assert(after.log[k] == added[k - before.log.len()]);
    }
}

// ---- INSERT ----

/// The rows that an INSERT has values for.
pub open spec fn sources(cat: Cat, s: Scene, source: tree::InsertSource, width: int) -> Result<
    Seq<Seq<Datum>>,
    Failure,
> {
    match source {
        tree::InsertSource::Values(exprs) => if exprs.len() > width {
            Err(error::failure(913, "too many values"@))
        } else if exprs.len() < width {
            Err(error::failure(947, "not enough values"@))
        } else {
            match eval::evaluated_upto(s, exprs, exprs.len() as int) {
                Err(e) => Err(e),
                Ok(row) => Ok(seq![row]),
            }
        },
        tree::InsertSource::Query(q) => match dml::queried(cat, s, *q) {
            Err(e) => Err(e),
            Ok(a) => if a.columns.len() > width {
                Err(error::failure(913, "too many values"@))
            } else if a.columns.len() < width {
                Err(error::failure(947, "not enough values"@))
            } else {
                Ok(a.rows)
            },
        },
    }
}

fn read_sources(cat: &Catalog, ctx: &Dml, source: &InsertSource, width: usize) -> (r: Result<
    Vec<Vec<Value>>,
    OraError,
>)
    requires
        cat@.wf(),
    ensures
        dml::tables(sources(cat@, ctx@, source@, width as int), r),
{
    match source {
        InsertSource::Values(exprs) => {
            assert(source@ == tree::InsertSource::Values(ast::exprs_tree(*exprs)));
            assert(ast::exprs_tree(*exprs).len() == exprs@.len());
            if exprs.len() > width {
                return Err(OraError::new(913, "too many values"));
            }
            if exprs.len() < width {
                return Err(OraError::new(947, "not enough values"));
            }
            let row = ctx.ex().eval_all(exprs)?;
            let mut out: Vec<Vec<Value>> = Vec::new();
            out.push(row);
            assert(vars::value_rows(out@) =~= seq![functions::views(row@)]);
            Ok(out)
        },
        InsertSource::Query(q) => {
            assert(source@ == tree::InsertSource::Query(Box::new(ast::query_tree(**q))));
            let rel = dml::query(cat, ctx, q)?;
            assert(dml::described(rel.columns@).len() == rel.columns@.len());
            if rel.columns.len() > width {
                return Err(OraError::new(913, "too many values"));
            }
            if rel.columns.len() < width {
                return Err(OraError::new(947, "not enough values"));
            }
            Ok(rel.rows)
        },
    }
}

/// The log entries of rows that were inserted, with ids from `first` on.
pub open spec fn insert_steps(table: Seq<char>, first: int, rows: Seq<Seq<Datum>>) -> Seq<Step> {
    Seq::new(rows.len(), |i: int| Step::Insert { table, id: first + i, values: rows[i] })
}

/// What an INSERT into a table does once its rows are known.
pub open spec fn insert_rows(
    cat: Cat,
    i: int,
    tally: Tally,
    s: Scene,
    ins: tree::Insert,
    rows: Seq<Seq<Datum>>,
) -> Effect {
    let sheet = cat.tables[i];
    match dml::returned(
        s,
        sheet.name,
        sheet.columns,
        ins.returning,
        rows,
        rows.len() as int,
    ) {
        Err(e) => fail(cat, tally, e),
        Ok(returned) => {
            let f = dml::filled(s.env.user, sheet, tally.next_row, rows, rows.len() as int);
            let after = Tally { next_row: f.next_row, ..tally };
            match f.failure {
                Some(e) => fail(cat, after, e),
                None => Effect {
                    work: cat.with_table(i, f.sheet),
                    added: insert_steps(ins.table, tally.next_row, rows),
                    tally: after,
                    result: Ok((rows.len() as int, returned)),
                },
            }
        },
    }
}

/// What an INSERT does.
pub open spec fn insert_effect(cat: Cat, tally: Tally, s: Scene, ins: tree::Insert) -> Effect {
    match cat.table(ins.table) {
        None => fail(cat, tally, error::table_not_found()),
        Some(i) => {
            let sheet = cat.tables[i];
            match dml::insert_targets(sheet.columns, ins.columns) {
                Err(e) => fail(cat, tally, e),
                Ok(targets) => match sources(cat, s, ins.source, targets.len() as int) {
                    Err(e) => fail(cat, tally, e),
                    Ok(src) => {
                        let b = dml::built_rows(s, sheet, tally, targets, src, src.len() as int);
                        match b.failure {
                            Some(e) => fail(cat, b.tally, e),
                            None => insert_rows(cat, i, b.tally, s, ins, b.rows),
                        }
                    },
                },
            }
        },
    }
}

fn log_inserts(log: &mut Vec<Change>, table: &str, first: u64, rows: &Vec<Vec<Value>>)
    requires
        first + rows@.len() <= u64::MAX,
    ensures
        dml::steps(final(log)@) == dml::steps(old(log)@) + insert_steps(
            table@,
            first as int,
            vars::value_rows(rows@),
        ),
{
    let ghost start = dml::steps(log@);
    let ghost all = insert_steps(table@, first as int, vars::value_rows(rows@));
    for i in 0..rows.len()
        invariant
            first + rows@.len() <= u64::MAX,
            all == insert_steps(table@, first as int, vars::value_rows(rows@)),
            dml::steps(log@) == start + all.take(i as int),
    {
        let c = Change::Insert {
            table: table.to_owned(),
            id: first + i as u64,
            values: catalog::copy_values(&rows[i]),
        };
        assert(vars::value_rows(rows@)[i as int] == functions::views(rows@[i as int]@));
        let ghost before = dml::steps(log@);
        log.push(c);
        assert(dml::steps(log@) =~= before.push(c@));
        assert(c@ == all[i as int]);
        assert(dml::steps(log@) =~= start + all.take(i + 1));
    }
    assert(all.take(rows@.len() as int) =~= all);
}

fn put_rows(
    ctx: &Dml,
    txn: &mut Txn,
    i: usize,
    counters: &mut Counters,
    ins: &Insert,
    rows: Vec<Vec<Value>>,
) -> (r: Result<(u64, Vec<Vec<Value>>), OraError>)
    requires
        old(txn).work@.wf(),
        i < old(txn).work.tables@.len(),
        dml::wide(rows@, old(txn).work@.tables[i as int].columns.len() as int),
        old(txn).work@.table(ins.table@) == Some(i as int),
    ensures
        does(
            insert_rows(
                old(txn)@.work,
                i as int,
                old(counters)@,
                ctx@,
                ins@,
                vars::value_rows(rows@),
            ),
            old(txn)@,
            final(txn)@,
            final(counters)@,
            r,
        ),
        final(txn).work@.wf(),
        keeps_to(ins.table@, old(txn)@, final(txn)@, r is Ok),
        r matches Ok((n, _)) ==> exists|first: int, rows: Seq<Seq<Datum>>| #[trigger]
            inserts(ctx@.env.user, ins.table@, old(txn)@, final(txn)@, first, rows) && rows.len()
                == n,
{
    assert(txn@.log + Seq::<Step>::empty() =~= txn@.log);
    assert(txn.work@.tables[i as int] == txn.work.tables@[i as int]@);
    let mut t = catalog::copy_table(&txn.work.tables[i]);
    assert(t@.wf() && t@.unique());
    let returned = dml::returning_rows(ctx, &t.name, &t.columns, &ins.returning, &rows)?;
    let first: u64 = counters.next_row;
    let count: u64 = rows.len() as u64;
    dml::fill_table(&ctx.env.user, &mut t, counters, &rows)?;
    let ghost sheet = t@;
    txn.work.set_table(i, t);
    log_inserts(&mut txn.log, &ins.table, first, &rows);
    proof {
        let added = insert_steps(ins.table@, first as int, vars::value_rows(rows@));
        kept(ins.table@, old(txn)@, txn@, i as int, sheet, added);
        assert(inserts(
            ctx@.env.user,
            ins.table@,
            old(txn)@,
            txn@,
            first as int,
            vars::value_rows(rows@),
        ));
    }
    Ok((count, returned))
}

pub fn insert(ctx: &Dml, txn: &mut Txn, counters: &mut Counters, ins: &Insert) -> (r: Result<
    (u64, Vec<Vec<Value>>),
    OraError,
>)
    requires
        old(txn).work@.wf(),
    ensures
        does(
            insert_effect(old(txn)@.work, old(counters)@, ctx@, ins@),
            old(txn)@,
            final(txn)@,
            final(counters)@,
            r,
        ),
        final(txn).work@.wf(),
        keeps_to(ins.table@, old(txn)@, final(txn)@, r is Ok),
        r matches Ok((n, _)) ==> exists|first: int, rows: Seq<Seq<Datum>>| #[trigger]
            inserts(ctx@.env.user, ins.table@, old(txn)@, final(txn)@, first, rows) && rows.len()
                == n,
{
    assert(txn@.log + Seq::<Step>::empty() =~= txn@.log);
    assert(ins@.columns == ast::opt_texts_tree(ins.columns));
    assert(ins@.source == ast::insert_source_tree(ins.source));
    let i = match txn.work.table(&ins.table) {
        None => {
            return Err(OraError::table_not_found());
        },
        Some(i) => i,
    };
    assert(txn.work@.tables[i as int] == txn.work.tables@[i as int]@);
    let t = txn.work.tables[i].clone();
    let targets = dml::find_targets(&t.columns, &ins.columns)?;
    let src = read_sources(&txn.work, ctx, &ins.source, targets.len())?;
    let rows = dml::build_all(ctx, &t, counters, &targets, &src)?;
    put_rows(ctx, txn, i, counters, ins, rows)
}

// ---- UPDATE ----

/// A row with the first `n` assignments made.
pub open spec fn assigned(
    s: Scene,
    qualifier: Seq<char>,
    sheet: Sheet,
    targets: Seq<int>,
    assignments: Seq<(Seq<char>, tree::Expr)>,
    row: Seq<Datum>,
    n: int,
) -> Result<Seq<Datum>, Failure>
    decreases n,
{
    if n <= 0 || n > assignments.len() {
        Ok(row)
    } else {
        match assigned(s, qualifier, sheet, targets, assignments, row, n - 1) {
            Err(e) => Err(e),
            Ok(new) => match eval::evaluated(
                dml::in_row(s, qualifier, sheet.columns, row, 0),
                assignments[n - 1].1,
            ) {
                Err(e) => Err(e),
                Ok(v) => {
                    let field = sheet.columns[targets[n - 1]];
                    match store::stored_value(
                        s.env,
                        dml::place_of(s, sheet, field),
                        field.sql_type,
                        v,
                    ) {
                        Err(e) => Err(e),
                        Ok(v) => Ok(new.update(targets[n - 1], v)),
                    }
                },
            },
        }
    }
}

proof fn assigned_fails_on(
    s: Scene,
    qualifier: Seq<char>,
    sheet: Sheet,
    targets: Seq<int>,
    assignments: Seq<(Seq<char>, tree::Expr)>,
    row: Seq<Datum>,
    n: int,
    m: int,
)
    requires
        0 <= n <= m <= assignments.len(),
        assigned(s, qualifier, sheet, targets, assignments, row, n) is Err,
    ensures
        assigned(s, qualifier, sheet, targets, assignments, row, m) == assigned(
            s,
            qualifier,
            sheet,
            targets,
            assignments,
            row,
            n,
        ),
    decreases m - n,
{
    if n < m {
        assigned_fails_on(s, qualifier, sheet, targets, assignments, row, n, m - 1);
    }
}

#[verifier::loop_isolation(false)]
fn assign_row(
    ctx: &Dml,
    qualifier: &str,
    t: &Table,
    targets: &Vec<usize>,
    assignments: &Vec<(String, Expr)>,
    row: &Vec<Value>,
) -> (r: Result<Vec<Value>, OraError>)
    requires
        targets@.len() == assignments@.len(),
        forall|k: int| 0 <= k < targets@.len() ==> #[trigger] targets@[k] < t.columns@.len(),
        row@.len() == t.columns@.len(),
    ensures
        dml::lists(
            assigned(
                ctx@,
                qualifier@,
                t@,
                catalog::positions(targets@),
                ast::text_exprs_tree(*assignments),
                functions::views(row@),
                assignments@.len() as int,
            ),
            r,
        ),
        r matches Ok(v) ==> v@.len() == row@.len(),
{
    let ghost tp = catalog::positions(targets@);
    let ghost all = ast::text_exprs_tree(*assignments);
    let ghost before = functions::views(row@);
    let ghost total = assignments@.len() as int;
    let mut out = catalog::copy_values(row);
    for i in 0..assignments.len()
        invariant
            out@.len() == row@.len(),
            dml::lists(
                assigned(ctx@, qualifier@, t@, tp, all, before, i as int),
                Ok(out),
            ),
    {
        assert(all[i as int] == (assignments@[i as int].0@, assignments@[i as int].1@));
        assert(tp[i as int] == targets@[i as int]);
        proof {
            if assigned(ctx@, qualifier@, t@, tp, all, before, i as int) is Err {
                assigned_fails_on(ctx@, qualifier@, t@, tp, all, before, i as int, total);
            }
            if assigned(ctx@, qualifier@, t@, tp, all, before, i + 1) is Err {
                assigned_fails_on(ctx@, qualifier@, t@, tp, all, before, i + 1, total);
            }
        }
        let x = ctx.row(qualifier, &t.columns, row, 0);
        let v = x.eval(&assignments[i].1)?;
        let k: usize = targets[i];
        let col = &t.columns[k];
        assert(t@.columns[k as int] == col@);
        let v = store::store_value(
            ctx.env,
            &ctx.env.user,
            &t.name,
            &col.name,
            col.sql_type,
            v,
        )?;
        let ghost was = functions::views(out@);
        out.set(k, v);
        assert(functions::views(out@) =~= was.update(k as int, v@));
    }
    Ok(out)
}

/// The new values of the first `n` rows.
pub open spec fn rewritten(
    s: Scene,
    qualifier: Seq<char>,
    sheet: Sheet,
    targets: Seq<int>,
    assignments: Seq<(Seq<char>, tree::Expr)>,
    rows: Seq<(int, Seq<Datum>)>,
    n: int,
) -> Result<Seq<(int, Seq<Datum>)>, Failure>
    decreases n,
{
    if n <= 0 || n > rows.len() {
        Ok(Seq::empty())
    } else {
        match rewritten(s, qualifier, sheet, targets, assignments, rows, n - 1) {
            Err(e) => Err(e),
            Ok(out) => match assigned(
                s,
                qualifier,
                sheet,
                targets,
                assignments,
                rows[n - 1].1,
                assignments.len() as int,
            ) {
                Err(e) => Err(e),
                Ok(new) => match dml::row_refused(s, sheet, new, true) {
                    Some(e) => Err(e),
                    None => Ok(out.push((rows[n - 1].0, new))),
                },
            },
        }
    }
}

proof fn rewritten_fails_on(
    s: Scene,
    qualifier: Seq<char>,
    sheet: Sheet,
    targets: Seq<int>,
    assignments: Seq<(Seq<char>, tree::Expr)>,
    rows: Seq<(int, Seq<Datum>)>,
    n: int,
    m: int,
)
    requires
        0 <= n <= m <= rows.len(),
        rewritten(s, qualifier, sheet, targets, assignments, rows, n) is Err,
    ensures
        rewritten(s, qualifier, sheet, targets, assignments, rows, m) == rewritten(
            s,
            qualifier,
            sheet,
            targets,
            assignments,
            rows,
            n,
        ),
    decreases m - n,
{
    if n < m {
        rewritten_fails_on(s, qualifier, sheet, targets, assignments, rows, n, m - 1);
    }
}

#[verifier::loop_isolation(false)]
fn rewrite_rows(
    ctx: &Dml,
    qualifier: &str,
    t: &Table,
    targets: &Vec<usize>,
    assignments: &Vec<(String, Expr)>,
    rows: &Vec<(u64, Vec<Value>)>,
) -> (r: Result<Vec<(u64, Vec<Value>)>, OraError>)
    requires
        targets@.len() == assignments@.len(),
        forall|k: int| 0 <= k < targets@.len() ==> #[trigger] targets@[k] < t.columns@.len(),
        forall|k: int| 0 <= k < rows@.len() ==> (#[trigger] rows@[k]).1@.len() == t.columns@.len(),
    ensures
        ({
            let due = rewritten(
                ctx@,
                qualifier@,
                t@,
                catalog::positions(targets@),
                ast::text_exprs_tree(*assignments),
                catalog::records(rows@),
                rows@.len() as int,
            );
            due == Err::<Seq<(int, Seq<Datum>)>, Failure>(eval::free()) || match r {
                Ok(v) => due == Ok::<Seq<(int, Seq<Datum>)>, Failure>(catalog::records(v@)),
                Err(e) => due == Err::<Seq<(int, Seq<Datum>)>, Failure>(e@),
            }
        }),
        r matches Ok(v) ==> v@.len() == rows@.len() && forall|k: int|
            0 <= k < v@.len() ==> (#[trigger] v@[k]).1@.len() == t.columns@.len(),
{
    let ghost tp = catalog::positions(targets@);
    let ghost all = ast::text_exprs_tree(*assignments);
    let ghost found = catalog::records(rows@);
    let ghost total = rows@.len() as int;
    let mut out: Vec<(u64, Vec<Value>)> = Vec::new();
    assert(catalog::records(out@) =~= Seq::empty());
    for i in 0..rows.len()
        invariant
            out@.len() == i,
            forall|k: int| 0 <= k < out@.len() ==> (#[trigger] out@[k]).1@.len() == t.columns@.len(),
            ({
                let due = rewritten(ctx@, qualifier@, t@, tp, all, found, i as int);
                due == Err::<Seq<(int, Seq<Datum>)>, Failure>(eval::free()) || due == Ok::<
                    Seq<(int, Seq<Datum>)>,
                    Failure,
                >(catalog::records(out@))
            }),
    {
        assert(found[i as int] == catalog::record(rows@[i as int]));
        assert(rows@[i as int].1@.len() == t.columns@.len());
        proof {
            if rewritten(ctx@, qualifier@, t@, tp, all, found, i as int) is Err {
                rewritten_fails_on(ctx@, qualifier@, t@, tp, all, found, i as int, total);
            }
            if rewritten(ctx@, qualifier@, t@, tp, all, found, i + 1) is Err {
                rewritten_fails_on(ctx@, qualifier@, t@, tp, all, found, i + 1, total);
            }
        }
        assert(all.len() == assignments@.len());
        let new = assign_row(ctx, qualifier, t, targets, assignments, &rows[i].1)?;
        dml::check_row(ctx, t, &new, true)?;
        let ghost was = catalog::records(out@);
        let ghost shown = (rows@[i as int].0 as int, functions::views(new@));
        out.push((rows[i].0, new));
        assert(catalog::records(out@) =~= was.push(shown));
    }
    Ok(out)
}

pub open spec fn assigned_names(assignments: Seq<(Seq<char>, tree::Expr)>) -> Seq<Seq<char>> {
    Seq::new(assignments.len(), |i: int| assignments[i].0)
}

fn names_of(assignments: &Vec<(String, Expr)>) -> (r: Vec<String>)
    ensures
        ast::texts_tree(r) == assigned_names(ast::text_exprs_tree(*assignments)),
        r@.len() == assignments@.len(),
{
    let mut out: Vec<String> = Vec::new();
    for i in 0..assignments.len()
        invariant
            out@.len() == i,
            forall|k: int| 0 <= k < i ==> (#[trigger] out@[k])@ == assignments@[k].0@,
    {
        out.push(assignments[i].0.clone());
    }
    assert(ast::texts_tree(out) =~= assigned_names(ast::text_exprs_tree(*assignments)));
    out
}

pub open spec fn bad_column_list() -> Failure {
    error::failure(1747, "invalid user.table.column, table.column, or column specification"@)
}

pub open spec fn only_values(rows: Seq<(int, Seq<Datum>)>) -> Seq<Seq<Datum>> {
    Seq::new(rows.len(), |i: int| rows[i].1)
}

fn values_only(rows: &Vec<(u64, Vec<Value>)>) -> (r: Vec<Vec<Value>>)
    ensures
        vars::value_rows(r@) == only_values(catalog::records(rows@)),
        r@.len() == rows@.len(),
        forall|k: int| 0 <= k < r@.len() ==> (#[trigger] r@[k])@.len() == rows@[k].1@.len(),
{
    let mut out: Vec<Vec<Value>> = Vec::new();
    for i in 0..rows.len()
        invariant
            out@.len() == i,
            forall|k: int|
                0 <= k < i ==> functions::views((#[trigger] out@[k])@) == functions::views(
                    rows@[k].1@,
                ) && out@[k]@.len() == rows@[k].1@.len(),
    {
        out.push(catalog::copy_values(&rows[i].1));
    }
    assert(vars::value_rows(out@) =~= only_values(catalog::records(rows@)));
    out
}

pub open spec fn update_steps(
    table: Seq<char>,
    found: Seq<(int, Seq<Datum>)>,
    new: Seq<(int, Seq<Datum>)>,
) -> Seq<Step> {
    Seq::new(
        new.len(),
        |i: int| Step::Update { table, id: new[i].0, values: new[i].1, old_values: found[i].1 },
    )
}

/// What an UPDATE of a table does once its new rows are known.
pub open spec fn update_rows(
    cat: Cat,
    i: int,
    tally: Tally,
    s: Scene,
    upd: tree::Update,
    qualifier: Seq<char>,
    found: Seq<(int, Seq<Datum>)>,
    new: Seq<(int, Seq<Datum>)>,
) -> Effect {
    let sheet = cat.tables[i];
    match dml::returned(
        s,
        qualifier,
        sheet.columns,
        upd.returning,
        only_values(new),
        new.len() as int,
    ) {
        Err(e) => fail(cat, tally, e),
        Ok(returned) => match sheet.updated(new) {
            Err(name) => fail(cat, tally, dml::violation(s.env.user, name)),
            Ok(after) => Effect {
                work: cat.with_table(i, after),
                added: update_steps(upd.table, found, new),
                tally,
                result: Ok((new.len() as int, returned)),
            },
        },
    }
}

pub open spec fn known_as(table: Seq<char>, alias: Option<Seq<char>>) -> Seq<char> {
    match alias {
        Some(a) => a,
        None => table,
    }
}

/// What an UPDATE does.
pub open spec fn update_effect(cat: Cat, tally: Tally, s: Scene, upd: tree::Update) -> Effect {
    match cat.table(upd.table) {
        None => fail(cat, tally, error::table_not_found()),
        Some(i) => {
            let sheet = cat.tables[i];
            let qualifier = known_as(upd.table, upd.alias);
            let names = assigned_names(upd.assignments);
            match dml::columns_of(sheet.columns, names, bad_column_list(), names.len() as int) {
                Err(e) => fail(cat, tally, e),
                Ok(targets) => match dml::matching(
                    s,
                    qualifier,
                    sheet,
                    upd.where_,
                    sheet.rows.len() as int,
                ) {
                    Err(e) => fail(cat, tally, e),
                    Ok(found) => match rewritten(
                        s,
                        qualifier,
                        sheet,
                        targets,
                        upd.assignments,
                        found,
                        found.len() as int,
                    ) {
                        Err(e) => fail(cat, tally, e),
                        Ok(new) => update_rows(cat, i, tally, s, upd, qualifier, found, new),
                    },
                },
            }
        },
    }
}

fn log_updates(
    log: &mut Vec<Change>,
    table: &str,
    found: &Vec<(u64, Vec<Value>)>,
    new: &Vec<(u64, Vec<Value>)>,
)
    requires
        found@.len() == new@.len(),
    ensures
        dml::steps(final(log)@) == dml::steps(old(log)@) + update_steps(
            table@,
            catalog::records(found@),
            catalog::records(new@),
        ),
{
    let ghost start = dml::steps(log@);
    let ghost all = update_steps(table@, catalog::records(found@), catalog::records(new@));
    for i in 0..new.len()
        invariant
            found@.len() == new@.len(),
            all == update_steps(table@, catalog::records(found@), catalog::records(new@)),
            dml::steps(log@) == start + all.take(i as int),
    {
        let c = Change::Update {
            table: table.to_owned(),
            id: new[i].0,
            values: catalog::copy_values(&new[i].1),
            old_values: catalog::copy_values(&found[i].1),
        };
        assert(catalog::records(new@)[i as int] == catalog::record(new@[i as int]));
        assert(catalog::records(found@)[i as int] == catalog::record(found@[i as int]));
        let ghost before = dml::steps(log@);
        log.push(c);
        assert(dml::steps(log@) =~= before.push(c@));
        assert(c@ == all[i as int]);
        assert(dml::steps(log@) =~= start + all.take(i + 1));
    }
    assert(all.take(new@.len() as int) =~= all);
}

fn put_updates(
    ctx: &Dml,
    txn: &mut Txn,
    i: usize,
    upd: &Update,
    qualifier: &str,
    found: &Vec<(u64, Vec<Value>)>,
    new: &Vec<(u64, Vec<Value>)>,
    tally: Ghost<Tally>,
) -> (r: Result<(u64, Vec<Vec<Value>>), OraError>)
    requires
        old(txn).work@.wf(),
        i < old(txn).work.tables@.len(),
        found@.len() == new@.len(),
        forall|k: int|
            0 <= k < new@.len() ==> (#[trigger] new@[k]).1@.len()
                == old(txn).work@.tables[i as int].columns.len(),
        old(txn).work@.table(upd.table@) == Some(i as int),
    ensures
        does(
            update_rows(
                old(txn)@.work,
                i as int,
                tally@,
                ctx@,
                upd@,
                qualifier@,
                catalog::records(found@),
                catalog::records(new@),
            ),
            old(txn)@,
            final(txn)@,
            tally@,
            r,
        ),
        final(txn).work@.wf(),
        keeps_to(upd.table@, old(txn)@, final(txn)@, r is Ok),
        r matches Ok((n, _)) ==> exists|found: Seq<(int, Seq<Datum>)>, new: Seq<(int, Seq<Datum>)>|
            #[trigger]
            updates(upd.table@, old(txn)@, final(txn)@, found, new) && new.len() == n,
{
    assert(txn@.log + Seq::<Step>::empty() =~= txn@.log);
    assert(txn.work@.tables[i as int] == txn.work.tables@[i as int]@);
    let mut t = catalog::copy_table(&txn.work.tables[i]);
    assert(t@.wf() && t@.unique());
    let values = values_only(new);
    assert forall|k: int| 0 <= k < values@.len() implies (#[trigger] values@[k])@.len()
        == t.columns@.len() by {
        assert(new@[k].1@.len() == t@.columns.len());
    }
    let returned = dml::returning_rows(ctx, qualifier, &t.columns, &upd.returning, &values)?;
    match t.update(new) {
        Ok(_) => {},
        Err(name) => {
            return Err(dml::unique_violation(&ctx.env.user, &name));
        },
    }
    let ghost sheet = t@;
    txn.work.set_table(i, t);
    log_updates(&mut txn.log, &upd.table, found, new);
    proof {
        let added = update_steps(upd.table@, catalog::records(found@), catalog::records(new@));
        kept(upd.table@, old(txn)@, txn@, i as int, sheet, added);
        assert(updates(
            upd.table@,
            old(txn)@,
            txn@,
            catalog::records(found@),
            catalog::records(new@),
        ));
    }
    Ok((new.len() as u64, returned))
}

pub(crate) fn update(ctx: &Dml, txn: &mut Txn, upd: &Update, tally: Ghost<Tally>) -> (r: Result<
    (u64, Vec<Vec<Value>>),
    OraError,
>)
    requires
        old(txn).work@.wf(),
    ensures
        does(
            update_effect(old(txn)@.work, tally@, ctx@, upd@),
            old(txn)@,
            final(txn)@,
            tally@,
            r,
        ),
        final(txn).work@.wf(),
        keeps_to(upd.table@, old(txn)@, final(txn)@, r is Ok),
        r matches Ok((n, _)) ==> exists|found: Seq<(int, Seq<Datum>)>, new: Seq<(int, Seq<Datum>)>|
            #[trigger]
            updates(upd.table@, old(txn)@, final(txn)@, found, new) && new.len() == n,
{
    assert(txn@.log + Seq::<Step>::empty() =~= txn@.log);
    assert(upd@.assignments == ast::text_exprs_tree(upd.assignments));
    assert(upd@.alias == ast::opt_text_tree(upd.alias));
    let i = match txn.work.table(&upd.table) {
        None => {
            return Err(OraError::table_not_found());
        },
        Some(i) => i,
    };
    assert(txn.work@.tables[i as int] == txn.work.tables@[i as int]@);
    let t = txn.work.tables[i].clone();
    assert(t@.wf());
    let qualifier: &str = match &upd.alias {
        Some(a) => a.as_str(),
        None => upd.table.as_str(),
    };
    let names = names_of(&upd.assignments);
    let targets = dml::find_columns(
        &t.columns,
        &names,
        1747,
        "invalid user.table.column, table.column, or column specification",
    )?;
    let found = dml::matching_rows(ctx, qualifier, &t, &upd.where_)?;
    let new = rewrite_rows(ctx, qualifier, &t, &targets, &upd.assignments, &found)?;
    put_updates(ctx, txn, i, upd, qualifier, &found, &new, tally)
}

// ---- DELETE ----

pub open spec fn delete_steps(table: Seq<char>, rows: Seq<(int, Seq<Datum>)>) -> Seq<Step> {
    Seq::new(rows.len(), |i: int| Step::Delete { table, id: rows[i].0, old_values: rows[i].1 })
}

/// A table without the first `n` of some rows.
pub open spec fn without_rows(sheet: Sheet, rows: Seq<(int, Seq<Datum>)>, n: int) -> Sheet
    decreases n,
{
    if n <= 0 || n > rows.len() {
        sheet
    } else {
        without_rows(sheet, rows, n - 1).deleted(rows[n - 1].0)
    }
}

/// What a DELETE does.
pub open spec fn delete_effect(cat: Cat, tally: Tally, s: Scene, del: tree::Delete) -> Effect {
    match cat.table(del.table) {
        None => fail(cat, tally, error::table_not_found()),
        Some(i) => {
            let sheet = cat.tables[i];
            let qualifier = known_as(del.table, del.alias);
            match dml::matching(s, qualifier, sheet, del.where_, sheet.rows.len() as int) {
                Err(e) => fail(cat, tally, e),
                Ok(rows) => match dml::returned(
                    s,
                    qualifier,
                    sheet.columns,
                    del.returning,
                    only_values(rows),
                    rows.len() as int,
                ) {
                    Err(e) => fail(cat, tally, e),
                    Ok(returned) => Effect {
                        work: cat.with_table(i, without_rows(sheet, rows, rows.len() as int)),
                        added: delete_steps(del.table, rows),
                        tally,
                        result: Ok((rows.len() as int, returned)),
                    },
                },
            }
        },
    }
}

fn log_deletes(log: &mut Vec<Change>, table: &str, rows: &Vec<(u64, Vec<Value>)>)
    ensures
        dml::steps(final(log)@) == dml::steps(old(log)@) + delete_steps(
            table@,
            catalog::records(rows@),
        ),
{
    let ghost start = dml::steps(log@);
    let ghost all = delete_steps(table@, catalog::records(rows@));
    for i in 0..rows.len()
        invariant
            all == delete_steps(table@, catalog::records(rows@)),
            dml::steps(log@) == start + all.take(i as int),
    {
        let c = Change::Delete {
            table: table.to_owned(),
            id: rows[i].0,
            old_values: catalog::copy_values(&rows[i].1),
        };
        assert(catalog::records(rows@)[i as int] == catalog::record(rows@[i as int]));
        let ghost before = dml::steps(log@);
        log.push(c);
        assert(dml::steps(log@) =~= before.push(c@));
        assert(c@ == all[i as int]);
        assert(dml::steps(log@) =~= start + all.take(i + 1));
    }
    assert(all.take(rows@.len() as int) =~= all);
}

fn remove_rows(t: &mut Table, rows: &Vec<(u64, Vec<Value>)>)
    requires
        old(t).wf(),
        old(t)@.unique(),
    ensures
        final(t)@ == without_rows(old(t)@, catalog::records(rows@), rows@.len() as int),
        final(t).wf(),
        final(t)@.unique(),
{
    let ghost start = t@;
    let ghost all = catalog::records(rows@);
    for i in 0..rows.len()
        invariant
            all == catalog::records(rows@),
            t.wf(),
            t@.unique(),
            t@ == without_rows(start, all, i as int),
    {
        assert(all[i as int] == catalog::record(rows@[i as int]));
        t.delete(rows[i].0);
    }
}

pub(crate) fn delete(ctx: &Dml, txn: &mut Txn, del: &Delete, tally: Ghost<Tally>) -> (r: Result<
    (u64, Vec<Vec<Value>>),
    OraError,
>)
    requires
        old(txn).work@.wf(),
    ensures
        does(
            delete_effect(old(txn)@.work, tally@, ctx@, del@),
            old(txn)@,
            final(txn)@,
            tally@,
            r,
        ),
        final(txn).work@.wf(),
        keeps_to(del.table@, old(txn)@, final(txn)@, r is Ok),
        r matches Ok((n, _)) ==> exists|rows: Seq<(int, Seq<Datum>)>| #[trigger]
            deletes(del.table@, old(txn)@, final(txn)@, rows) && rows.len() == n,
{
    assert(txn@.log + Seq::<Step>::empty() =~= txn@.log);
    assert(del@.alias == ast::opt_text_tree(del.alias));
    let i = match txn.work.table(&del.table) {
        None => {
            return Err(OraError::table_not_found());
        },
        Some(i) => i,
    };
    assert(txn.work@.tables[i as int] == txn.work.tables@[i as int]@);
    let mut t = catalog::copy_table(&txn.work.tables[i]);
    assert(t@.wf() && t@.unique());
    let qualifier: &str = match &del.alias {
        Some(a) => a.as_str(),
        None => del.table.as_str(),
    };
    let rows = dml::matching_rows(ctx, qualifier, &t, &del.where_)?;
    let values = values_only(&rows);
    assert forall|k: int| 0 <= k < values@.len() implies (#[trigger] values@[k])@.len()
        == t.columns@.len() by {
        assert(rows@[k].1@.len() == t.columns@.len());
    }
    let returned = dml::returning_rows(ctx, qualifier, &t.columns, &del.returning, &values)?;
    remove_rows(&mut t, &rows);
    let ghost sheet = t@;
    txn.work.set_table(i, t);
    log_deletes(&mut txn.log, &del.table, &rows);
    proof {
        let added = delete_steps(del.table@, catalog::records(rows@));
        kept(del.table@, old(txn)@, txn@, i as int, sheet, added);
        assert(deletes(del.table@, old(txn)@, txn@, catalog::records(rows@)));
    }
    Ok((rows.len() as u64, returned))
}

// ---- undoing and replaying ----

pub open spec fn with_row(cat: Cat, table: Seq<char>, id: int, values: Seq<Datum>) -> Result<
    Cat,
    Seq<char>,
> {
    match cat.table(table) {
        None => Ok(cat),
        Some(i) => if cat.tables[i].columns.len() != values.len() {
            Ok(cat)
        } else {
            match cat.tables[i].inserted(id, values) {
                Ok(s) => Ok(cat.with_table(i, s)),
                Err(name) => Err(name),
            }
        },
    }
}

pub open spec fn without_row(cat: Cat, table: Seq<char>, id: int) -> Cat {
    match cat.table(table) {
        None => cat,
        Some(i) => cat.with_table(i, cat.tables[i].deleted(id)),
    }
}

/// Whether all rows have a width.
pub open spec fn all_wide(rows: Seq<(int, Seq<Datum>)>, width: int) -> bool {
    forall|k: int| 0 <= k < rows.len() ==> (#[trigger] rows[k]).1.len() == width
}

pub open spec fn with_changes(cat: Cat, table: Seq<char>, changes: Seq<(int, Seq<Datum>)>) -> Result<
    Cat,
    Seq<char>,
> {
    match cat.table(table) {
        None => Ok(cat),
        Some(i) => if !all_wide(changes, cat.tables[i].columns.len() as int) {
            Ok(cat)
        } else {
            match cat.tables[i].updated(changes) {
                Ok(s) => Ok(cat.with_table(i, s)),
                Err(name) => Err(name),
            }
        },
    }
}

fn put_row(cat: &mut Catalog, table: &str, id: u64, values: &Vec<Value>) -> (r: Result<(), String>)
    requires
        old(cat)@.wf(),
    ensures
        match r {
            Ok(_) => with_row(old(cat)@, table@, id as int, functions::views(values@)) == Ok::<
                Cat,
                Seq<char>,
            >(final(cat)@),
            Err(name) => with_row(old(cat)@, table@, id as int, functions::views(values@)) == Err::<
                Cat,
                Seq<char>,
            >(name@) && final(cat)@ == old(cat)@,
        },
        final(cat)@.wf(),
{
    match cat.table(table) {
        None => Ok(()),
        Some(i) => {
            assert(cat@.tables[i as int] == cat.tables@[i as int]@);
            if cat.tables[i].columns.len() != values.len() {
                return Ok(());
            }
            let mut t = catalog::copy_table(&cat.tables[i]);
            assert(t@.wf() && t@.unique());
            match t.insert(id, catalog::copy_values(values)) {
                Ok(_) => {
                    cat.set_table(i, t);
                    Ok(())
                },
                Err(name) => Err(name),
            }
        },
    }
}

fn drop_row(cat: &mut Catalog, table: &str, id: u64)
    requires
        old(cat)@.wf(),
    ensures
        final(cat)@ == without_row(old(cat)@, table@, id as int),
        final(cat)@.wf(),
{
    match cat.table(table) {
        None => {},
        Some(i) => {
            assert(cat@.tables[i as int] == cat.tables@[i as int]@);
            let mut t = catalog::copy_table(&cat.tables[i]);
            assert(t@.wf() && t@.unique());
            t.delete(id);
            cat.set_table(i, t);
        },
    }
}

fn change_rows(cat: &mut Catalog, table: &str, changes: &Vec<(u64, Vec<Value>)>) -> (r: Result<
    (),
    String,
>)
    requires
        old(cat)@.wf(),
    ensures
        match r {
            Ok(_) => with_changes(old(cat)@, table@, catalog::records(changes@)) == Ok::<
                Cat,
                Seq<char>,
            >(final(cat)@),
            Err(name) => with_changes(old(cat)@, table@, catalog::records(changes@)) == Err::<
                Cat,
                Seq<char>,
            >(name@) && final(cat)@ == old(cat)@,
        },
        final(cat)@.wf(),
{
    match cat.table(table) {
        None => Ok(()),
        Some(i) => {
            assert(cat@.tables[i as int] == cat.tables@[i as int]@);
            let width: usize = cat.tables[i].columns.len();
            for k in 0..changes.len()
                invariant
                    forall|j: int| 0 <= j < k ==> (#[trigger] changes@[j]).1@.len() == width,
                    *cat == *old(cat),
                    cat@.wf(),
                    i < cat.tables@.len(),
                    width == cat@.tables[i as int].columns.len(),
                    cat@.table(table@) == Some(i as int),
            {
                if changes[k].1.len() != width {
                    assert(catalog::records(changes@)[k as int] == catalog::record(
                        changes@[k as int],
                    ));
                    return Ok(());
                }
            }
            assert(all_wide(catalog::records(changes@), width as int));
            let mut t = catalog::copy_table(&cat.tables[i]);
            assert(t@.wf() && t@.unique());
            match t.update(changes) {
                Ok(_) => {
                    cat.set_table(i, t);
                    Ok(())
                },
                Err(name) => Err(name),
            }
        },
    }
}

/// Where the last run of updates of one table starts, not before `keep`.
pub open spec fn run_start(log: Seq<Step>, table: Seq<char>, keep: int, n: int) -> int
    decreases n,
{
    if n <= keep || n <= 0 || n > log.len() {
        n
    } else {
        match log[n - 1] {
            Step::Update { table: t, .. } => if t == table {
                run_start(log, table, keep, n - 1)
            } else {
                n
            },
            _ => n,
        }
    }
}

pub open spec fn old_of(s: Step) -> (int, Seq<Datum>) {
    match s {
        Step::Update { id, old_values, .. } => (id, old_values),
        Step::Insert { id, values, .. } => (id, values),
        Step::Delete { id, old_values, .. } => (id, old_values),
    }
}

/// What rows were before the changes from `from` on, the newest first.
pub open spec fn batch(log: Seq<Step>, from: int) -> Seq<(int, Seq<Datum>)> {
    Seq::new((log.len() - from) as nat, |i: int| old_of(log[log.len() - 1 - i]))
}

pub open spec fn or_same(r: Result<Cat, Seq<char>>, cat: Cat) -> Cat {
    match r {
        Ok(c) => c,
        Err(_) => cat,
    }
}

/// The state before the log entries behind `keep`, undone newest first. The rows of one UPDATE
/// are reverted together so swapped unique keys do not collide on the way back.
pub open spec fn undone(cat: Cat, log: Seq<Step>, keep: int) -> Cat
    decreases log.len(),
{
    if log.len() <= keep || log.len() == 0 {
        cat
    } else {
        match log.last() {
            Step::Insert { table, id, .. } => undone(
                without_row(cat, table, id),
                log.drop_last(),
                keep,
            ),
            Step::Delete { table, id, old_values } => undone(
                or_same(with_row(cat, table, id, old_values), cat),
                log.drop_last(),
                keep,
            ),
            Step::Update { table, .. } => {
                let from = run_start(log, table, keep, log.len() - 1);
                if 0 <= from < log.len() {
                    undone(
                        or_same(with_changes(cat, table, batch(log, from)), cat),
                        log.take(from),
                        keep,
                    )
                } else {
                    cat
                }
            },
        }
    }
}

proof fn run_bounds(log: Seq<Step>, table: Seq<char>, keep: int, n: int)
    requires
        0 <= n <= log.len(),
    ensures
        0 <= run_start(log, table, keep, n) <= n,
        n >= keep ==> run_start(log, table, keep, n) >= keep,
    decreases n,
{
    if n > keep && n > 0 {
        match log[n - 1] {
            Step::Update { table: t, .. } => {
                if t == table {
                    run_bounds(log, table, keep, n - 1);
                }
            },
            _ => {},
        }
    }
}

/// Reverts the log entries after `keep`, newest first.
pub fn undo(txn: &mut Txn, keep: usize)
    requires
        old(txn).work@.wf(),
        keep <= old(txn).log@.len(),
    ensures
        final(txn)@ == (Deal {
            work: undone(old(txn)@.work, old(txn)@.log, keep as int),
            log: old(txn)@.log.take(keep as int),
            ..old(txn)@
        }),
        final(txn).work@.wf(),
{
    let ghost start = txn@;
    let ghost due = undone(start.work, start.log, keep as int);
    while txn.log.len() > keep
        invariant
            txn.work@.wf(),
            keep <= txn.log@.len() <= start.log.len(),
            txn@.log == start.log.take(txn.log@.len() as int),
            txn@.base_version == start.base_version,
            due == undone(txn@.work, txn@.log, keep as int),
        decreases txn.log@.len(),
    {
        let n: usize = txn.log.len();
        let ghost log = txn@.log;
        let ghost work = txn@.work;
        assert(log.last() == txn.log@[n - 1]@);
        let last = match txn.log.pop() {
            Some(c) => c,
            None => {
                return;
            },
        };
        assert(txn@.log =~= log.drop_last());
        assert(txn@.log =~= start.log.take(n - 1));
        match last {
            Change::Insert { table, id, .. } => {
                drop_row(&mut txn.work, &table, id);
            },
            Change::Delete { table, id, old_values } => {
                let _ = put_row(&mut txn.work, &table, id, &old_values);
            },
            Change::Update { table, id, old_values, .. } => {
                proof {
                    run_bounds(log, table@, keep as int, log.len() - 1);
                }
                let ghost from = run_start(log, table@, keep as int, log.len() - 1);
                let mut changes: Vec<(u64, Vec<Value>)> = Vec::new();
                changes.push((id, old_values));
                assert(catalog::records(changes@) =~= batch(log, n - 1));
                let mut m: usize = n - 1;
                while m > keep && is_update_of(&txn.log[m - 1], &table)
                    invariant
                        txn.work@ == work,
                        txn.work@.wf(),
                        txn@.base_version == start.base_version,
                        keep <= m < n == log.len(),
                        txn.log@.len() == m,
                        txn@.log == log.take(m as int),
                        log == start.log.take(n as int),
                        n <= start.log.len(),
                        from == run_start(log, table@, keep as int, m as int),
                        catalog::records(changes@) == batch(log, m as int),
                    decreases m,
                {
                    assert(txn.log@[m - 1]@ == txn@.log[m - 1]);
                    assert(log[m - 1] == txn.log@[m - 1]@);
                    match txn.log.pop() {
                        Some(Change::Update { id, old_values, .. }) => {
                            let ghost before = changes@;
                            let ghost added = (id as int, functions::views(old_values@));
                            changes.push((id, old_values));
                            assert(catalog::records(changes@) =~= catalog::records(before).push(
                                added,
                            ));
                            assert(catalog::records(changes@) =~= batch(log, m - 1));
                        },
                        _ => {},
                    }
                    m = m - 1;
                    assert(txn@.log =~= log.take(m as int));
                }
                proof {
                    if m > keep {
                        assert(txn.log@[m - 1]@ == txn@.log[m - 1]);
                        assert(log[m - 1] == txn.log@[m - 1]@);
                    }
                    assert(from == m);
                    assert(txn@.log =~= start.log.take(m as int));
                }
                let _ = change_rows(&mut txn.work, &table, &changes);
            },
        }
    }
    assert(txn@.log =~= start.log.take(keep as int));
}

fn is_update_of(c: &Change, table: &str) -> (r: bool)
    ensures
        r == (c@ is Update && c@->Update_table == table@),
{
    match c {
        Change::Update { table: t, .. } => text::same(t, table),
        _ => false,
    }
}

/// The committed state with the first `n` changes of a log made again, or the name of the
/// constraint that one breaks.
pub open spec fn replayed(state: Cat, log: Seq<Step>, n: int) -> Result<Cat, Seq<char>>
    decreases n,
{
    if n <= 0 || n > log.len() {
        Ok(state)
    } else {
        match replayed(state, log, n - 1) {
            Err(name) => Err(name),
            Ok(cat) => match log[n - 1] {
                Step::Insert { table, id, values } => with_row(cat, table, id, values),
                Step::Update { table, id, values, .. } => with_changes(
                    cat,
                    table,
                    seq![(id, values)],
                ),
                Step::Delete { table, id, .. } => Ok(without_row(cat, table, id)),
            },
        }
    }
}

proof fn replay_fails_on(state: Cat, log: Seq<Step>, n: int, m: int)
    requires
        0 <= n <= m <= log.len(),
        replayed(state, log, n) is Err,
    ensures
        replayed(state, log, m) == replayed(state, log, n),
    decreases m - n,
{
    if n < m {
        replay_fails_on(state, log, n, m - 1);
    }
}

/// Makes the changes of a log again.
fn replay(cat: &mut Catalog, log: &Vec<Change>) -> (r: Result<(), String>)
    requires
        old(cat)@.wf(),
    ensures
        match r {
            Ok(_) => replayed(old(cat)@, dml::steps(log@), log@.len() as int) == Ok::<
                Cat,
                Seq<char>,
            >(final(cat)@),
            Err(name) => replayed(old(cat)@, dml::steps(log@), log@.len() as int) == Err::<
                Cat,
                Seq<char>,
            >(name@),
        },
        final(cat)@.wf(),
{
    let ghost state = cat@;
    let ghost all = dml::steps(log@);
    for i in 0..log.len()
        invariant
            all == dml::steps(log@),
            cat@.wf(),
            replayed(state, all, i as int) == Ok::<Cat, Seq<char>>(cat@),
            state == old(cat)@,
    {
        assert(all[i as int] == log@[i as int]@);
        proof {
            if replayed(state, all, i + 1) is Err {
                replay_fails_on(state, all, i + 1, all.len() as int);
            }
        }
        match &log[i] {
            Change::Insert { table, id, values } => match put_row(cat, table, *id, values) {
                Ok(_) => {},
                Err(name) => {
                    return Err(name);
                },
            },
            Change::Update { table, id, values, .. } => {
                let mut one: Vec<(u64, Vec<Value>)> = Vec::new();
                let copied = catalog::copy_values(values);
                one.push((*id, copied));
                assert(catalog::records(one@) =~= seq![(*id as int, functions::views(values@))]);
                match change_rows(cat, table, &one) {
                    Ok(_) => {},
                    Err(name) => {
                        return Err(name);
                    },
                }
            },
            Change::Delete { table, id, .. } => {
                drop_row(cat, table, *id);
            },
        }
    }
    Ok(())
}

/// The committed state behind a transaction: its own when no one else committed meanwhile,
/// otherwise the newer state with its changes made again.
pub open spec fn committed(state: Cat, deal: Deal, user: Seq<char>) -> Result<Cat, Failure> {
    if state.version == deal.base_version {
        Ok(Cat { version: next_version(deal.base_version), ..deal.work })
    } else {
        match replayed(state, deal.log, deal.log.len() as int) {
            Ok(c) => Ok(Cat { version: next_version(state.version), ..c }),
            Err(name) => Err(dml::violation(user, name)),
        }
    }
}

pub open spec fn next_version(v: u64) -> u64 {
    if v < u64::MAX {
        (v + 1) as u64
    } else {
        0
    }
}

pub fn version_after(v: u64) -> (r: u64)
    ensures
        r == next_version(v),
{
    if v < u64::MAX {
        v + 1
    } else {
        0
    }
}

/// Commits a transaction to a state.
pub fn commit(state: &mut Catalog, txn: Txn, user: &str) -> (r: Result<(), OraError>)
    requires
        old(state)@.wf(),
        txn.work@.wf(),
    ensures
        match r {
            Ok(_) => committed(old(state)@, txn@, user@) == Ok::<Cat, Failure>(final(state)@),
            Err(e) => committed(old(state)@, txn@, user@) == Err::<Cat, Failure>(e@)
                && *final(state) == *old(state),
        },
        final(state)@.wf(),
{
    if state.version == txn.base_version {
        let mut work = txn.work;
        work.version = version_after(txn.base_version);
        assert(work@ == (Cat { version: work.version, ..txn.work@ }));
        *state = work;
        return Ok(());
    }
    let mut next = state.copy();
    match replay(&mut next, &txn.log) {
        Ok(_) => {
            let ghost was = next@;
            next.version = version_after(state.version);
            assert(next@ == (Cat { version: next.version, ..was }));
            *state = next;
            Ok(())
        },
        Err(name) => Err(dml::unique_violation(user, &name)),
    }
}

/// A statement that fails leaves every table as it was.
pub proof fn a_failing_statement_changes_no_table(cat: Cat, tally: Tally, s: Scene, ins: tree::Insert, upd: tree::Update, del: tree::Delete)
    ensures
        insert_effect(cat, tally, s, ins).result is Err ==> insert_effect(cat, tally, s, ins).work
            == cat && insert_effect(cat, tally, s, ins).added.len() == 0,
        update_effect(cat, tally, s, upd).result is Err ==> update_effect(cat, tally, s, upd).work
            == cat && update_effect(cat, tally, s, upd).added.len() == 0,
        delete_effect(cat, tally, s, del).result is Err ==> delete_effect(cat, tally, s, del).work
            == cat && delete_effect(cat, tally, s, del).added.len() == 0,
{
}

/// A transaction that nobody overtook commits what it sees.
pub proof fn an_undisturbed_commit_keeps_the_work(state: Cat, deal: Deal, user: Seq<char>)
    requires
        state.version == deal.base_version,
    ensures
        committed(state, deal, user) is Ok,
        committed(state, deal, user)->Ok_0.tables == deal.work.tables,
        committed(state, deal, user)->Ok_0.version != state.version,
{
}

/// Undoing an inserted row gives the tables back as they were.
pub proof fn undoing_an_insert_restores(cat: Cat, log: Seq<Step>, table: Seq<char>, id: int, values: Seq<Datum>)
    requires
        cat.wf(),
        with_row(cat, table, id, values) is Ok,
        cat.table(table) matches Some(i) ==> !catalog::has_row(cat.tables[i].rows, id),
    ensures
        undone(
            with_row(cat, table, id, values)->Ok_0,
            log.push(Step::Insert { table, id, values }),
            log.len() as int,
        ) == cat || cat.table(table) is None || cat.tables[cat.table(table)->0].columns.len()
            != values.len(),
{
    let added = log.push(Step::Insert { table, id, values });
    assert(added.drop_last() =~= log);
    match cat.table(table) {
        Some(i) => {
            if cat.tables[i].columns.len() == values.len() {
                found_table(cat.tables, table, 0);
                let s = cat.tables[i].inserted(id, values)->Ok_0;
                let after = cat.with_table(i, s);
                catalog::deleting_undoes_inserting(cat.tables[i], id, values);
                same_place(cat.tables, table, i, s, 0);
                assert(after.table(table) == Some(i));
                assert(without_row(after, table, id).tables =~= cat.tables);
                assert(undone(without_row(after, table, id), log, log.len() as int)
                    == without_row(after, table, id));
            }
        },
        None => {},
    }
}

/// The table that is found for a name has that name.
pub proof fn found_table(t: Seq<Sheet>, name: Seq<char>, k: int)
    requires
        0 <= k,
        catalog::table_from(t, name, k) is Some,
    ensures
        k <= catalog::table_from(t, name, k)->0 < t.len(),
        t[catalog::table_from(t, name, k)->0].name == name,
    decreases t.len() - k,
{
    if k < t.len() && t[k].name != name {
        found_table(t, name, k + 1);
    }
}

/// A table is found where it was when another state of it stands there.
pub proof fn same_place(t: Seq<Sheet>, name: Seq<char>, i: int, s: Sheet, k: int)
    requires
        0 <= k <= i < t.len(),
        catalog::table_from(t, name, k) == Some(i),
        s.name == t[i].name,
    ensures
        catalog::table_from(t.update(i, s), name, k) == Some(i),
    decreases i - k,
{
    if k < i {
        assert(t[k].name != name) by {
            if t[k].name == name {
                assert(catalog::table_from(t, name, k) == Some(k));
            }
        }
        same_place(t, name, i, s, k + 1);
    } else {
        found_table(t, name, k);
    }
}

} // verus!
