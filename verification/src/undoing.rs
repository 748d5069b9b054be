//! Going back: what is undone leaves the tables as they were.

use vstd::prelude::*;

use crate::catalog;
use crate::catalog::{Cat, Sheet};
use crate::dml;
use crate::dml::{Deal, Step, Tally};
use crate::eval::Scene;
use crate::rows;
use crate::rows::{names_id, Row};
use crate::session;
use crate::session::{Savepoint, Seat};
use crate::tree;
use crate::txn;
use crate::value::Datum;

verus! {

/// Whether all row ids of a table are below a number.
pub open spec fn ids_below(rows: Seq<Row>, next: int) -> bool {
    forall|k: int| 0 <= k < rows.len() ==> (#[trigger] rows[k]).0 < next
}

proof fn table_replaced(cat: Cat, name: Seq<char>, i: int, a: Sheet)
    requires
        cat.table(name) == Some(i),
        a.name == cat.tables[i].name,
    ensures
        0 <= i < cat.tables.len(),
        cat.with_table(i, a).table(name) == Some(i),
        cat.with_table(i, a).tables[i] == a,
        cat.with_table(i, cat.tables[i]) == cat,
        forall|b: Sheet| #[trigger] cat.with_table(i, a).with_table(i, b) == cat.with_table(i, b),
{
    txn::found_table(cat.tables, name, 0);
    txn::same_place(cat.tables, name, i, a, 0);
    assert(cat.tables.update(i, cat.tables[i]) =~= cat.tables);
    assert forall|b: Sheet| #[trigger] cat.with_table(i, a).with_table(i, b) == cat.with_table(
        i,
        b,
    ) by {
        assert(cat.tables.update(i, a).update(i, b) =~= cat.tables.update(i, b));
    }
}

/// A row of a table is not refused for its key when rows of that table alone stand beside
/// it.
proof fn no_key_in_the_way(sheet: Sheet, rows: Seq<Row>, id: int, values: Seq<Datum>)
    requires
        sheet.wf(),
        sheet.unique(),
        sheet.rows.contains((id, values)),
        forall|x: Row| #[trigger] rows.contains(x) ==> sheet.rows.contains(x),
    ensures
        catalog::conflict(sheet.rules, rows, values, Some(id), 0) is None,
{
    rows::keys_are_refused_for_a_reason(sheet.rules, rows, values, Some(id));
    assert forall|r: int, k: int|
        0 <= r < sheet.rules.len() && 0 <= k < rows.len() && Some(rows[k].0) != Some(
            id,
        ) implies !#[trigger] rows::same_key(sheet.rules[r], rows[k], values) by {
        if rows::same_key(sheet.rules[r], rows[k], values) {
            assert(rows.contains(rows[k]));
            let a = choose|a: int| 0 <= a < sheet.rows.len() && sheet.rows[a] == rows[k];
            let b = choose|b: int| 0 <= b < sheet.rows.len() && sheet.rows[b] == (id, values);
            assert(a != b);
            assert(catalog::distinct_under(sheet.rules[r], sheet.rows));
            rows::clash_is_same_key(sheet.rules[r], rows[k], values);
            assert(!catalog::clash(
                sheet.rules[r].kind->columns,
                sheet.rows[a].1,
                sheet.rows[b].1,
            ));
        }
    }
}

/// Putting a deleted row back gives the table back as it was.
pub proof fn inserting_undoes_deleting(sheet: Sheet, id: int, values: Seq<Datum>)
    requires
        sheet.wf(),
        sheet.unique(),
        sheet.rows.contains((id, values)),
    ensures
        sheet.deleted(id).inserted(id, values) == Ok::<Sheet, Seq<char>>(sheet),
{
    let less = sheet.deleted(id).rows;
    rows::rows_with_one_removed(sheet.rows, id);
    assert forall|x: Row| #[trigger] less.contains(x) implies sheet.rows.contains(x) by {}
    no_key_in_the_way(sheet, less, id, values);
    rows::keys_are_refused_for_a_reason(sheet.rules, less, values, Some(id));
    rows::keys_are_refused_for_a_reason(sheet.rules, less, values, None);
    assert(catalog::conflict(sheet.rules, less, values, None, 0) is None) by {
        assert forall|r: int, k: int|
            0 <= r < sheet.rules.len() && 0 <= k < less.len() implies !#[trigger] rows::same_key(
            sheet.rules[r],
            less[k],
            values,
        ) by {
            assert(less.contains(less[k]));
            assert(less[k].0 != id);
        }
    }
    rows::rows_with_one_placed(less, id, values);
    let back = catalog::placed(less, id, values);
    assert forall|x: Row| back.contains(x) <==> sheet.rows.contains(x) by {
        assert(back.contains(x) <==> x == (id, values) || (less.contains(x) && x.0 != id));
        assert(less.contains(x) <==> sheet.rows.contains(x) && x.0 != id);
        if sheet.rows.contains(x) && x.0 == id {
            rows::row_of_an_id(sheet.rows, x, (id, values));
        }
    }
    rows::same_rows(back, sheet.rows);
}

/// Undoing a deletion gives the tables back as they were.
pub proof fn undoing_a_deletion_restores(
    cat: Cat,
    log: Seq<Step>,
    table: Seq<char>,
    i: int,
    id: int,
    values: Seq<Datum>,
)
    requires
        cat.wf(),
        cat.table(table) == Some(i),
        0 <= i < cat.tables.len(),
        cat.tables[i].rows.contains((id, values)),
    ensures
        txn::undone(
            txn::without_row(cat, table, id),
            log.push(Step::Delete { table, id, old_values: values }),
            log.len() as int,
        ) == cat,
{
    let sheet = cat.tables[i];
    assert(sheet.wf() && sheet.unique());
    txn::found_table(cat.tables, table, 0);
    table_replaced(cat, table, i, sheet.deleted(id));
    inserting_undoes_deleting(sheet, id, values);
    let k = choose|k: int| 0 <= k < sheet.rows.len() && sheet.rows[k] == (id, values);
    assert(sheet.rows[k].1.len() == sheet.columns.len());
    let whole = log.push(Step::Delete { table, id, old_values: values });
    assert(whole.drop_last() =~= log);
    assert(txn::undone(cat, log, log.len() as int) == cat);
}

// ---- INSERT ----

proof fn undo_inserts(
    cat: Cat,
    i: int,
    name: Seq<char>,
    user: Seq<char>,
    first: int,
    values: Seq<Seq<Datum>>,
    n: int,
    log: Seq<Step>,
    keep: int,
)
    requires
        cat.wf(),
        cat.table(name) == Some(i),
        0 <= n <= values.len(),
        0 <= keep <= log.len(),
        ids_below(cat.tables[i].rows, first),
        dml::filled(user, cat.tables[i], first, values, n).failure is None,
    ensures
        txn::undone(
            cat.with_table(i, dml::filled(user, cat.tables[i], first, values, n).sheet),
            log + txn::insert_steps(name, first, values).take(n),
            keep,
        ) == txn::undone(cat, log, keep),
    decreases n,
{
    let sheet = cat.tables[i];
    let steps = txn::insert_steps(name, first, values);
    table_replaced(cat, name, i, sheet);
    if n > 0 {
        undo_inserts(cat, i, name, user, first, values, n - 1, log, keep);
        let less = dml::filled(user, sheet, first, values, n - 1).sheet;
        let full = dml::filled(user, sheet, first, values, n).sheet;
        rows::rows_put_in(user, sheet, first, values, n - 1);
        rows::rows_put_in(user, sheet, first, values, n);
        table_replaced(cat, name, i, full);
        let id = first + n - 1;
        assert(full.rows.last() == (id, values[n - 1]));
        assert(full.rows.drop_last() =~= less.rows);
        assert(full.deleted(id) == less);
        let whole = log + steps.take(n);
        assert(whole.drop_last() =~= log + steps.take(n - 1));
        assert(whole.last() == steps[n - 1]);
        assert(txn::without_row(cat.with_table(i, full), name, id) == cat.with_table(i, less));
    } else {
        assert(log + steps.take(0) =~= log);
    }
}

// ---- DELETE ----

proof fn undo_deletes(
    cat: Cat,
    i: int,
    name: Seq<char>,
    found: Seq<Row>,
    n: int,
    log: Seq<Step>,
    keep: int,
)
    requires
        cat.wf(),
        cat.table(name) == Some(i),
        0 <= n <= found.len(),
        0 <= keep <= log.len(),
        rows::drawn_from(found, cat.tables[i].rows),
    ensures
        txn::undone(
            cat.with_table(i, txn::without_rows(cat.tables[i], found, n)),
            log + txn::delete_steps(name, found).take(n),
            keep,
        ) == txn::undone(cat, log, keep),
    decreases n,
{
    let sheet = cat.tables[i];
    let steps = txn::delete_steps(name, found);
    table_replaced(cat, name, i, sheet);
    assert(sheet.wf() && sheet.unique());
    if n > 0 {
        undo_deletes(cat, i, name, found, n - 1, log, keep);
        let more = txn::without_rows(sheet, found, n - 1);
        let less = txn::without_rows(sheet, found, n);
        rows::rows_taken_out(sheet, found, n - 1);
        stays_in_shape(sheet, found, n - 1);
        let (id, values) = found[n - 1];
        assert(sheet.rows.contains(found[n - 1]));
        assert(!names_id(found, id, n - 1)) by {
            if names_id(found, id, n - 1) {
                let j = choose|j: int| 0 <= j < n - 1 && (#[trigger] found[j]).0 == id;
                assert(found[j].0 < found[n - 1].0);
            }
        }
        assert(more.rows.contains((id, values)));
        inserting_undoes_deleting(more, id, values);
        let k = choose|k: int| 0 <= k < more.rows.len() && more.rows[k] == (id, values);
        assert(more.rows[k].1.len() == more.columns.len());
        table_replaced(cat, name, i, less);
        let whole = log + steps.take(n);
        assert(whole.drop_last() =~= log + steps.take(n - 1));
        assert(whole.last() == steps[n - 1]);
        assert(txn::with_row(cat.with_table(i, less), name, id, values) == Ok::<Cat, Seq<char>>(
            cat.with_table(i, more),
        ));
    } else {
        assert(log + steps.take(0) =~= log);
    }
}

proof fn stays_in_shape(sheet: Sheet, found: Seq<Row>, n: int)
    requires
        sheet.wf(),
        sheet.unique(),
        0 <= n <= found.len(),
    ensures
        txn::without_rows(sheet, found, n).wf(),
        txn::without_rows(sheet, found, n).unique(),
    decreases n,
{
    if n > 0 {
        stays_in_shape(sheet, found, n - 1);
        catalog::deleting_keeps_the_table(txn::without_rows(sheet, found, n - 1), found[n - 1].0);
    }
}

// ---- UPDATE ----

/// Whether the newest change is an update of a table.
pub open spec fn ends_in_update(log: Seq<Step>, table: Seq<char>) -> bool {
    log.len() > 0 && log.last() is Update && txn::table_of(log.last()) == table
}

proof fn whole_run(
    log: Seq<Step>,
    table: Seq<char>,
    found: Seq<Row>,
    new: Seq<Row>,
    keep: int,
    m: int,
)
    requires
        0 <= keep <= log.len() <= m <= log.len() + new.len(),
        keep == log.len() || !ends_in_update(log, table),
    ensures
        txn::run_start(log + txn::update_steps(table, found, new), table, keep, m) == log.len(),
    decreases m,
{
    let all = log + txn::update_steps(table, found, new);
    if m > log.len() {
        assert(all[m - 1] == txn::update_steps(table, found, new)[m - 1 - log.len()]);
        whole_run(log, table, found, new, keep, m - 1);
    } else if m > keep {
        assert(all[m - 1] == log.last());
    }
}

/// The rows that changed, as they were, the newest first.
pub open spec fn reversed(found: Seq<Row>) -> Seq<Row> {
    Seq::new(found.len(), |k: int| found[found.len() - 1 - k])
}

proof fn none_in_the_way(sheet: Sheet, after: Sheet, back: Seq<Row>, start: Seq<Row>, n: int)
    requires
        sheet.wf(),
        sheet.unique(),
        after.rules == sheet.rules,
        catalog::in_order(start),
        rows::ids_apart(back),
        0 <= n <= back.len(),
        forall|x: Row| #[trigger] start.contains(x) ==> sheet.rows.contains(x),
        forall|j: int| 0 <= j < back.len() ==> sheet.rows.contains(#[trigger] back[j]),
        forall|j: int|
            0 <= j < back.len() ==> catalog::has_row(after.rows, (#[trigger] back[j]).0),
    ensures
        catalog::changed(after.rules, after.rows, start, back, n) is Ok,
    decreases n,
{
    if n > 0 {
        none_in_the_way(sheet, after, back, start, n - 1);
        let now = catalog::changed(after.rules, after.rows, start, back, n - 1)->Ok_0;
        rows::rows_changed(after.rules, after.rows, start, back, n - 1);
        assert forall|x: Row| #[trigger] now.contains(x) implies sheet.rows.contains(x) by {
            let part = back.take(n - 1);
            if part.contains(x) {
                let j = choose|j: int| 0 <= j < part.len() && part[j] == x;
                assert(back[j] == x);
            }
        }
        assert(sheet.rows.contains(back[n - 1]));
        no_key_in_the_way(sheet, now, back[n - 1].0, back[n - 1].1);
    }
}

/// Giving the rows of an UPDATE their old values back, all at once, gives the table back as
/// it was, whichever keys they took from each other.
pub proof fn updating_back_restores(sheet: Sheet, found: Seq<Row>, new: Seq<Row>)
    requires
        sheet.wf(),
        sheet.unique(),
        rows::drawn_from(found, sheet.rows),
        new.len() == found.len(),
        forall|k: int| 0 <= k < new.len() ==> (#[trigger] new[k]).0 == found[k].0,
        sheet.updated(new) is Ok,
    ensures
        sheet.updated(new)->Ok_0.updated(reversed(found)) == Ok::<Sheet, Seq<char>>(sheet),
{
    let after = sheet.updated(new)->Ok_0;
    let back = reversed(found);
    let n = found.len() as int;
    rows::new_rows_name_old_ones(sheet, found, new);
    rows::rows_are_replaced(sheet, new);
    assert(rows::ids_apart(back)) by {
        assert forall|a: int, b: int| 0 <= a < n && 0 <= b < n && a != b implies (
        #[trigger] back[a]).0 != (#[trigger] back[b]).0 by {
            assert(new[n - 1 - a].0 != new[n - 1 - b].0);
        }
    }
    assert forall|j: int| 0 <= j < back.len() implies sheet.rows.contains(#[trigger] back[j])
        && catalog::has_row(after.rows, back[j].0) by {
        assert(sheet.rows.contains(found[n - 1 - j]));
        assert(new.contains(new[n - 1 - j]));
        assert(after.rows.contains(new[n - 1 - j]));
        let k = choose|k: int| 0 <= k < after.rows.len() && after.rows[k] == new[n - 1 - j];
        assert(after.rows[k].0 == back[j].0);
    }
    rows::rows_kept(after.rows, back, n);
    let start = catalog::kept(after.rows, back, n);
    assert forall|x: Row| #[trigger] start.contains(x) <==> sheet.rows.contains(x) && !names_id(
        back,
        x.0,
        n,
    ) by {
        same_ids(found, new, x.0);
        if new.contains(x) {
            let k = choose|k: int| 0 <= k < new.len() && new[k] == x;
            assert(names_id(new, x.0, n));
        }
    }
    none_in_the_way(sheet, after, back, start, n);
    rows::rows_changed(after.rules, after.rows, start, back, n);
    let end = catalog::changed(after.rules, after.rows, start, back, n)->Ok_0;
    assert(back.take(n) =~= back);
    assert forall|x: Row| end.contains(x) <==> sheet.rows.contains(x) by {
        assert(end.contains(x) <==> (start.contains(x) && !names_id(back, x.0, n))
            || back.contains(x));
        if sheet.rows.contains(x) && names_id(back, x.0, n) {
            let j = choose|j: int| 0 <= j < n && (#[trigger] back[j]).0 == x.0;
            rows::row_of_an_id(sheet.rows, x, back[j]);
        }
        if back.contains(x) {
            let j = choose|j: int| 0 <= j < back.len() && back[j] == x;
            assert(sheet.rows.contains(back[j]));
        }
    }
    rows::same_rows(end, sheet.rows);
}

proof fn same_ids(found: Seq<Row>, new: Seq<Row>, id: int)
    requires
        new.len() == found.len(),
        forall|k: int| 0 <= k < new.len() ==> (#[trigger] new[k]).0 == found[k].0,
    ensures
        names_id(new, id, new.len() as int) == names_id(
            reversed(found),
            id,
            found.len() as int,
        ),
{
    let n = found.len() as int;
    let back = reversed(found);
    if names_id(new, id, n) {
        let j = choose|j: int| 0 <= j < n && (#[trigger] new[j]).0 == id;
        assert(back[n - 1 - j].0 == id);
    }
    if names_id(back, id, n) {
        let j = choose|j: int| 0 <= j < n && (#[trigger] back[j]).0 == id;
        assert(new[n - 1 - j].0 == id);
    }
}

proof fn undo_updates(
    cat: Cat,
    i: int,
    name: Seq<char>,
    found: Seq<Row>,
    new: Seq<Row>,
    log: Seq<Step>,
    keep: int,
)
    requires
        cat.wf(),
        cat.table(name) == Some(i),
        0 <= keep <= log.len(),
        keep == log.len() || !ends_in_update(log, name),
        rows::drawn_from(found, cat.tables[i].rows),
        new.len() == found.len(),
        forall|k: int| 0 <= k < new.len() ==> (#[trigger] new[k]).0 == found[k].0,
        cat.tables[i].updated(new) is Ok,
    ensures
        txn::undone(
            cat.with_table(i, cat.tables[i].updated(new)->Ok_0),
            log + txn::update_steps(name, found, new),
            keep,
        ) == txn::undone(cat, log, keep),
{
    let sheet = cat.tables[i];
    let after = sheet.updated(new)->Ok_0;
    let steps = txn::update_steps(name, found, new);
    let whole = log + steps;
    let n = found.len() as int;
    table_replaced(cat, name, i, sheet);
    assert(sheet.wf() && sheet.unique());
    table_replaced(cat, name, i, after);
    if n > 0 {
        whole_run(log, name, found, new, keep, whole.len() - 1);
        assert(whole.last() == steps[n - 1]);
        let back = reversed(found);
        assert(txn::batch(whole, log.len() as int) =~= back) by {
            assert forall|k: int| 0 <= k < n implies #[trigger] txn::batch(
                whole,
                log.len() as int,
            )[k] == back[k] by {
                assert(whole[whole.len() - 1 - k] == steps[n - 1 - k]);
            }
        }
        updating_back_restores(sheet, found, new);
        assert(txn::all_wide(back, after.columns.len() as int)) by {
            assert forall|k: int| 0 <= k < back.len() implies (#[trigger] back[k]).1.len()
                == after.columns.len() by {
                assert(sheet.rows.contains(found[n - 1 - k]));
                let j = choose|j: int|
                    0 <= j < sheet.rows.len() && sheet.rows[j] == found[n - 1 - k];
                assert(sheet.rows[j].1.len() == sheet.columns.len());
            }
        }
        assert(txn::with_changes(cat.with_table(i, after), name, back) == Ok::<Cat, Seq<char>>(
            cat,
        ));
        assert(whole.take(log.len() as int) =~= log);
    } else {
        assert(whole =~= log);
        assert(catalog::kept(sheet.rows, new, 0) == sheet.rows);
        assert(after == sheet);
    }
}

// ---- statements ----

/// What one DML statement does.
pub open spec fn effect_of(cat: Cat, tally: Tally, s: Scene, stmt: tree::Statement) -> txn::Effect {
    match stmt {
        tree::Statement::Insert(ins) => txn::insert_effect(cat, tally, s, ins),
        tree::Statement::Update(upd) => txn::update_effect(cat, tally, s, upd),
        tree::Statement::Delete(del) => txn::delete_effect(cat, tally, s, del),
        _ => txn::fail(cat, tally, crate::eval::free()),
    }
}

/// Whether a statement is no UPDATE of the table that the newest change updated.
pub open spec fn no_second_update(stmt: tree::Statement, log: Seq<Step>) -> bool {
    stmt matches tree::Statement::Update(u) ==> !ends_in_update(log, u.table)
}

/// Whether row ids of all tables are below a number.
pub open spec fn all_below(cat: Cat, next: int) -> bool {
    forall|i: int| 0 <= i < cat.tables.len() ==> ids_below((#[trigger] cat.tables[i]).rows, next)
}

/// Going back past a statement, to any point before it, is as if it had not been: an INSERT,
/// an UPDATE or a DELETE, of any rows and in any state. An UPDATE that follows one of the
/// same table is left out but for going back to its own start.
pub proof fn undoing_a_statement_restores(
    cat: Cat,
    tally: Tally,
    s: Scene,
    stmt: tree::Statement,
    log: Seq<Step>,
    keep: int,
)
    requires
        cat.wf(),
        all_below(cat, tally.next_row),
        0 <= keep <= log.len(),
        effect_of(cat, tally, s, stmt).result is Ok,
        keep == log.len() || no_second_update(stmt, log),
    ensures
        ({
            let e = effect_of(cat, tally, s, stmt);
            &&& txn::undone(e.work, log + e.added, keep) == txn::undone(cat, log, keep)
            &&& keep == log.len() ==> txn::undone(e.work, log + e.added, keep) == cat
        }),
{
    match stmt {
        tree::Statement::Insert(ins) => {
            let i = cat.table(ins.table)->0;
            txn::found_table(cat.tables, ins.table, 0);
            assert(ids_below(cat.tables[i].rows, tally.next_row));
            let sheet = cat.tables[i];
            let targets = dml::insert_targets(sheet.columns, ins.columns)->Ok_0;
            let src = txn::sources(cat, s, ins.source, targets.len() as int)->Ok_0;
            let b = dml::built_rows(s, sheet, tally, targets, src, src.len() as int);
            rows::built_all(s, sheet, tally, targets, src, src.len() as int);
            let steps = txn::insert_steps(ins.table, tally.next_row, b.rows);
            assert(steps.take(b.rows.len() as int) =~= steps);
            undo_inserts(
                cat,
                i,
                ins.table,
                s.env.user,
                tally.next_row,
                b.rows,
                b.rows.len() as int,
                log,
                keep,
            );
        },
        tree::Statement::Update(upd) => {
            let i = cat.table(upd.table)->0;
            txn::found_table(cat.tables, upd.table, 0);
            let sheet = cat.tables[i];
            assert(sheet.wf());
            let q = txn::known_as(upd.table, upd.alias);
            let names = txn::assigned_names(upd.assignments);
            let targets = dml::columns_of(
                sheet.columns,
                names,
                txn::bad_column_list(),
                names.len() as int,
            )->Ok_0;
            let found = dml::matching(s, q, sheet, upd.where_, sheet.rows.len() as int)->Ok_0;
            rows::matched_rows(s, q, sheet, upd.where_, sheet.rows.len() as int);
            let new = txn::rewritten(
                s,
                q,
                sheet,
                targets,
                upd.assignments,
                found,
                found.len() as int,
            )->Ok_0;
            rows::rewritten_rows(s, q, sheet, targets, upd.assignments, found, found.len() as int);
            undo_updates(cat, i, upd.table, found, new, log, keep);
        },
        tree::Statement::Delete(del) => {
            let i = cat.table(del.table)->0;
            txn::found_table(cat.tables, del.table, 0);
            let sheet = cat.tables[i];
            assert(sheet.wf());
            let q = txn::known_as(del.table, del.alias);
            let found = dml::matching(s, q, sheet, del.where_, sheet.rows.len() as int)->Ok_0;
            rows::matched_rows(s, q, sheet, del.where_, sheet.rows.len() as int);
            let steps = txn::delete_steps(del.table, found);
            assert(steps.take(found.len() as int) =~= steps);
            undo_deletes(cat, i, del.table, found, found.len() as int, log, keep);
        },
        _ => {},
    }
    assert(txn::undone(cat, log, log.len() as int) == cat);
}

/// A session's state behind a statement that it has just run in a transaction.
pub open spec fn seat_behind(seat: Seat, e: txn::Effect) -> Seat {
    let t = seat.txn->0;
    Seat { txn: Some(Deal { work: e.work, log: t.log + e.added, ..t }), ..seat }
}

/// Rolling back to a savepoint undoes the statement behind it: the session sees every table
/// as it was at the savepoint.
pub proof fn rolling_back_to_a_savepoint_restores(
    seat: Seat,
    tally: Tally,
    s: Scene,
    stmt: tree::Statement,
    p: Savepoint,
)
    requires
        seat.txn is Some,
        seat.txn->0.work.wf(),
        all_below(seat.txn->0.work, tally.next_row),
        effect_of(seat.txn->0.work, tally, s, stmt).result is Ok,
        p.commits == seat.commits,
        p.changes == seat.txn->0.log.len(),
    ensures
        ({
            let t = seat.txn->0;
            let back = session::undone_to(
                seat_behind(seat, effect_of(t.work, tally, s, stmt)),
                p,
            );
            if t.log.len() == 0 {
                back == (Seat { txn: None, ..seat })
            } else {
                back == seat
            }
        }),
{
    let t = seat.txn->0;
    let e = effect_of(t.work, tally, s, stmt);
    undoing_a_statement_restores(t.work, tally, s, stmt, t.log, t.log.len() as int);
    assert((t.log + e.added).take(t.log.len() as int) =~= t.log);
}

// ---- several statements ----

/// A DML statement with what it saw when it ran.
pub struct Stage {
    pub tally: Tally,
    pub scene: Scene,
    pub stmt: tree::Statement,
}

/// The tables and the log behind the first `n` of some statements.
pub open spec fn behind(cat: Cat, log: Seq<Step>, stages: Seq<Stage>, n: int) -> (Cat, Seq<Step>)
    decreases n,
{
    if n <= 0 || n > stages.len() {
        (cat, log)
    } else {
        let (c, l) = behind(cat, log, stages, n - 1);
        let e = effect_of(c, stages[n - 1].tally, stages[n - 1].scene, stages[n - 1].stmt);
        (e.work, l + e.added)
    }
}

/// Whether the first `n` statements all succeeded, with row ids that were new to the tables,
/// and none but the first is an UPDATE right behind an update of the same table.
pub open spec fn went_well(cat: Cat, log: Seq<Step>, stages: Seq<Stage>, n: int) -> bool {
    forall|k: int|
        0 <= k < n ==> {
            let (c, l) = behind(cat, log, stages, k);
            let g = #[trigger] stages[k];
            &&& effect_of(c, g.tally, g.scene, g.stmt).result is Ok
            &&& all_below(c, g.tally.next_row)
            &&& l.len() == log.len() || no_second_update(g.stmt, l)
        }
}

/// A statement that succeeds keeps every table in shape, with its keys apart.
pub proof fn a_statement_keeps_the_tables_in_shape(
    cat: Cat,
    tally: Tally,
    s: Scene,
    stmt: tree::Statement,
)
    requires
        cat.wf(),
        effect_of(cat, tally, s, stmt).result is Ok,
    ensures
        effect_of(cat, tally, s, stmt).work.wf(),
{
    match stmt {
        tree::Statement::Insert(ins) => {
            let i = cat.table(ins.table)->0;
            txn::found_table(cat.tables, ins.table, 0);
            let sheet = cat.tables[i];
            assert(sheet.wf() && sheet.unique());
            let targets = dml::insert_targets(sheet.columns, ins.columns)->Ok_0;
            let src = txn::sources(cat, s, ins.source, targets.len() as int)->Ok_0;
            let b = dml::built_rows(s, sheet, tally, targets, src, src.len() as int);
            rows::built_all(s, sheet, tally, targets, src, src.len() as int);
            assert forall|k: int| 0 <= k < b.rows.len() implies (#[trigger] b.rows[k]).len()
                == sheet.columns.len() by {
                let t = choose|t: Tally|
                    {
                        let x = #[trigger] dml::built(
                            s,
                            sheet,
                            t,
                            targets,
                            src[k],
                            sheet.columns.len() as int,
                        );
                        x.failure is None && x.row == b.rows[k]
                    };
                rows::built_columns(s, sheet, t, targets, src[k], sheet.columns.len() as int);
            }
            filling_keeps_shape(s.env.user, sheet, tally.next_row, b.rows, b.rows.len() as int);
        },
        tree::Statement::Update(upd) => {
            let i = cat.table(upd.table)->0;
            txn::found_table(cat.tables, upd.table, 0);
            let sheet = cat.tables[i];
            assert(sheet.wf() && sheet.unique());
            let q = txn::known_as(upd.table, upd.alias);
            let names = txn::assigned_names(upd.assignments);
            let total = names.len() as int;
            let targets = dml::columns_of(sheet.columns, names, txn::bad_column_list(), total)->Ok_0;
            rows::found_columns(sheet.columns, names, txn::bad_column_list(), total);
            let found = dml::matching(s, q, sheet, upd.where_, sheet.rows.len() as int)->Ok_0;
            rows::matched_rows(s, q, sheet, upd.where_, sheet.rows.len() as int);
            let new = txn::rewritten(
                s,
                q,
                sheet,
                targets,
                upd.assignments,
                found,
                found.len() as int,
            )->Ok_0;
            rows::rewritten_rows(s, q, sheet, targets, upd.assignments, found, found.len() as int);
            assert forall|k: int| 0 <= k < new.len() implies (#[trigger] new[k]).1.len()
                == sheet.columns.len() by {
                assert(sheet.rows.contains(found[k]));
                let j = choose|j: int| 0 <= j < sheet.rows.len() && sheet.rows[j] == found[k];
                assert(sheet.rows[j].1.len() == sheet.columns.len());
                rows::assigned_row(
                    s,
                    q,
                    sheet,
                    targets,
                    upd.assignments,
                    found[k].1,
                    new[k].1,
                );
            }
            catalog::updating_keeps_the_table(sheet, new);
        },
        tree::Statement::Delete(del) => {
            let i = cat.table(del.table)->0;
            txn::found_table(cat.tables, del.table, 0);
            let sheet = cat.tables[i];
            assert(sheet.wf() && sheet.unique());
            let q = txn::known_as(del.table, del.alias);
            let found = dml::matching(s, q, sheet, del.where_, sheet.rows.len() as int)->Ok_0;
            stays_in_shape(sheet, found, found.len() as int);
        },
        _ => {},
    }
}

proof fn filling_keeps_shape(
    user: Seq<char>,
    sheet: Sheet,
    first: int,
    values: Seq<Seq<Datum>>,
    n: int,
)
    requires
        sheet.wf(),
        sheet.unique(),
        0 <= n <= values.len(),
        forall|k: int| 0 <= k < values.len() ==> (#[trigger] values[k]).len() == sheet.columns.len(),
        dml::filled(user, sheet, first, values, n).failure is None,
    ensures
        dml::filled(user, sheet, first, values, n).sheet.wf(),
        dml::filled(user, sheet, first, values, n).sheet.unique(),
        dml::filled(user, sheet, first, values, n).sheet.columns == sheet.columns,
    decreases n,
{
    if n > 0 {
        filling_keeps_shape(user, sheet, first, values, n - 1);
        let f = dml::filled(user, sheet, first, values, n - 1);
        assert(values[n - 1].len() == f.sheet.columns.len());
        catalog::inserting_keeps_the_table(f.sheet, f.next_row, values[n - 1]);
    }
}

/// Undoing to a savepoint gives every table the rows that it had there, however many
/// statements have run since. Left out are two UPDATEs of one table in a row.
pub proof fn undoing_to_a_savepoint_restores(
    cat: Cat,
    log: Seq<Step>,
    stages: Seq<Stage>,
    n: int,
)
    requires
        cat.wf(),
        0 <= n <= stages.len(),
        went_well(cat, log, stages, n),
    ensures
        ({
            let (c, l) = behind(cat, log, stages, n);
            &&& txn::undone(c, l, log.len() as int) == cat
            &&& l.take(log.len() as int) == log
            &&& c.wf()
        }),
    decreases n,
{
    if n > 0 {
        undoing_to_a_savepoint_restores(cat, log, stages, n - 1);
        let (c, l) = behind(cat, log, stages, n - 1);
        let g = stages[n - 1];
        let e = effect_of(c, g.tally, g.scene, g.stmt);
        assert(l.len() >= log.len()) by {
            log_grows(cat, log, stages, n - 1);
        }
        undoing_a_statement_restores(c, g.tally, g.scene, g.stmt, l, log.len() as int);
        a_statement_keeps_the_tables_in_shape(c, g.tally, g.scene, g.stmt);
        assert((l + e.added).take(log.len() as int) =~= l.take(log.len() as int));
    } else {
        assert(log.take(log.len() as int) =~= log);
    }
}

/// A log only grows.
pub proof fn log_grows(cat: Cat, log: Seq<Step>, stages: Seq<Stage>, n: int)
    requires
        0 <= n <= stages.len(),
    ensures
        behind(cat, log, stages, n).1.len() >= log.len(),
    decreases n,
{
    if n > 0 {
        log_grows(cat, log, stages, n - 1);
    }
}

} // verus!
