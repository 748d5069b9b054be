//! Who sees what: changes are private until they are committed, and committing makes them
//! beside what others have committed.

use vstd::prelude::*;

use crate::catalog;
use crate::catalog::{Cat, Sheet};
use crate::dml;
use crate::dml::{Deal, Step};
use crate::engine;
use crate::eval::Scene;
use crate::plsql::exec;
use crate::plsql::vars::Visible;
use crate::rows;
use crate::session;
use crate::session::{Seat, World};
use crate::tree;
use crate::txn;
use crate::undoing;
use crate::undoing::effect_of;
use crate::value::Datum;

verus! {

pub open spec fn is_dml(stmt: tree::Statement) -> bool {
    stmt is Insert || stmt is Update || stmt is Delete
}

/// The tables that a session works on: those of its transaction, or the committed ones.
pub open spec fn tables_seen(w: World) -> Cat {
    match w.seat.txn {
        Some(t) => t.work,
        None => w.store.state,
    }
}

/// DML changes what its own session sees, and nothing that is committed: a session without a
/// transaction sees what it saw.
pub proof fn changes_are_private(
    w: World,
    binds: Seq<Datum>,
    vars: Option<Visible>,
    stmt: tree::Statement,
    other: Seat,
)
    requires
        is_dml(stmt),
        other.txn is None,
    ensures
        ({
            let r = session::ran(w, binds, vars, stmt, false);
            let s = Scene { binds, env: w.seat.env, vars, row: None };
            let e = effect_of(tables_seen(w), w.store.tally, s, stmt);
            &&& r.world.store.state == w.store.state
            &&& tables_seen(World { seat: other, store: r.world.store }) == tables_seen(
                World { seat: other, store: w.store },
            )
            &&& r.result is Ok <==> e.result is Ok
            &&& r.result is Ok && e.added.len() > 0 ==> tables_seen(r.world) == e.work
            &&& r.result is Ok ==> r.result->Ok_0.count == e.result->Ok_0.0
                && r.result->Ok_0.rows == e.result->Ok_0.1
            &&& r.result is Err && (w.seat.txn matches Some(t) ==> t.log.len() > 0)
                ==> tables_seen(r.world) == tables_seen(w) && r.world.seat == w.seat
        }),
{
    reveal(session::ran);
    let t = session::open_deal(w);
    let e = session::dml_effect(
        t.work,
        w.store.tally,
        session::scene(w, binds, vars),
        stmt,
    );
    txn::a_failing_statement_changes_no_table(
        t.work,
        w.store.tally,
        session::scene(w, binds, vars),
        stmt->Insert_0,
        stmt->Update_0,
        stmt->Delete_0,
    );
    if e.result is Err {
        assert(t.log + e.added =~= t.log);
    }
}

/// A query shows a session what it sees, its own changes among it, and changes nothing.
pub proof fn a_query_reads_what_the_session_sees(
    w: World,
    binds: Seq<Datum>,
    vars: Option<Visible>,
    q: tree::Query,
    read_only: bool,
)
    ensures
        ({
            let r = session::ran(w, binds, vars, tree::Statement::Query(q), read_only);
            let a = dml::queried(
                tables_seen(w),
                Scene { binds, env: w.seat.env, vars, row: None },
                q,
            );
            &&& r.world == w
            &&& r.result is Ok <==> a is Ok
            &&& a is Ok ==> r.result->Ok_0.rows == a->Ok_0.rows && r.result->Ok_0.columns
                == a->Ok_0.columns && r.result->Ok_0.count == a->Ok_0.rows.len()
            &&& a is Err ==> r.result->Err_0 == a->Err_0
        }),
{
    reveal(session::ran);
}

/// COMMIT lets every session see what the transaction held, when nobody has committed
/// meanwhile, and ends the transaction.
pub proof fn a_commit_is_seen_by_all(
    w: World,
    binds: Seq<Datum>,
    vars: Option<Visible>,
    other: Seat,
)
    requires
        other.txn is None,
        w.seat.txn is Some,
        w.seat.txn->0.log.len() > 0,
        w.seat.txn->0.base_version == w.store.state.version,
    ensures
        ({
            let r = session::ran(w, binds, vars, tree::Statement::Commit, false);
            &&& r.result is Ok
            &&& r.world.seat.txn is None
            &&& tables_seen(World { seat: other, store: r.world.store }).tables
                == w.seat.txn->0.work.tables
            &&& tables_seen(r.world).tables == w.seat.txn->0.work.tables
            &&& r.world.store.state.version != w.store.state.version
        }),
{
    reveal(session::ran);
}

/// ROLLBACK ends a transaction without a trace: the session sees what is committed, which is
/// what it was.
pub proof fn a_rollback_leaves_what_is_committed(
    w: World,
    binds: Seq<Datum>,
    vars: Option<Visible>,
)
    ensures
        ({
            let r = session::ran(w, binds, vars, tree::Statement::Rollback, false);
            &&& r.result is Ok
            &&& r.world.store == w.store
            &&& r.world.seat.txn is None
            &&& tables_seen(r.world) == w.store.state
        }),
{
    reveal(session::ran);
}

/// A commit that fails leaves what is committed, and its transaction is gone.
pub proof fn a_failed_commit_rolls_back(w: World, binds: Seq<Datum>, vars: Option<Visible>)
    requires
        session::ran(w, binds, vars, tree::Statement::Commit, false).result is Err,
    ensures
        ({
            let r = session::ran(w, binds, vars, tree::Statement::Commit, false);
            r.world.store == w.store && r.world.seat.txn is None
        }),
{
    reveal(session::ran);
}

/// A statement that defines something commits first: what was open is committed behind it,
/// even if it fails itself, and no rollback takes that back.
pub proof fn defining_commits_first(
    w: World,
    binds: Seq<Datum>,
    vars: Option<Visible>,
    stmt: tree::Statement,
)
    requires
        stmt is CreateTable || stmt is DropTable || stmt is CreateIndex || stmt is DropIndex
            || stmt is Truncate || stmt is CreateSequence || stmt is AlterSequence
            || stmt is DropSequence || stmt is CreateRoutine || stmt is DropRoutine,
    ensures
        ({
            let c = session::ran(w, binds, vars, tree::Statement::Commit, false);
            let r = session::ran(w, binds, vars, stmt, false);
            &&& r.world.seat == c.world.seat
            &&& r.world.seat.txn is None
            &&& c.result is Err ==> r.result == c.result && r.world == c.world
            &&& c.result is Ok ==> {
                let d = crate::ddl::ddl_due(
                    c.world.store,
                    Scene { binds, env: w.seat.env, vars, row: None },
                    stmt,
                );
                r.world.store == d.store && (r.result is Ok <==> d.failure is None)
            }
        }),
{
    reveal(session::ran);
}

// ---- committing beside others ----

/// Whether a change is to the row of an id in a table.
pub open spec fn touches(step: Step, table: Seq<char>, id: int) -> bool {
    txn::table_of(step) == table && match step {
        Step::Insert { id: own, .. } => own == id,
        Step::Update { id: own, .. } => own == id,
        Step::Delete { id: own, .. } => own == id,
    }
}

/// What one change does to a table, of any name.
proof fn one_change(cat: Cat, step: Step, after: Cat, i: int)
    requires
        cat.wf(),
        0 <= i < cat.tables.len(),
        cat.table(cat.tables[i].name) == Some(i),
        txn::replayed(cat, seq![step], 1) == Ok::<Cat, Seq<char>>(after),
    ensures
        after.wf(),
        after.tables.len() == cat.tables.len(),
        after.tables[i] == (Sheet { rows: after.tables[i].rows, ..cat.tables[i] }),
        after.table(cat.tables[i].name) == Some(i),
        forall|id: int, v: Seq<Datum>|
            !touches(step, cat.tables[i].name, id) ==> (
            #[trigger] after.tables[i].rows.contains((id, v)) <==> cat.tables[i].rows.contains(
                (id, v),
            )),
        step matches Step::Insert { table, id, values } ==> table == cat.tables[i].name
            && values.len() == cat.tables[i].columns.len() ==> after.tables[i].rows.contains(
            (id, values),
        ),
        step matches Step::Update { table, id, values, .. } ==> table == cat.tables[i].name
            && values.len() == cat.tables[i].columns.len() && catalog::has_row(
            cat.tables[i].rows,
            id,
        ) ==> after.tables[i].rows.contains((id, values)),
        step matches Step::Delete { table, id, .. } ==> table == cat.tables[i].name
            ==> !catalog::has_row(after.tables[i].rows, id),
{
    reveal_with_fuel(txn::replayed, 2);
    let name = txn::table_of(step);
    let sheet = cat.tables[i];
    assert(sheet.wf() && sheet.unique());
    match cat.table(name) {
        None => {
            assert(after == cat);
        },
        Some(k) => {
            txn::found_table(cat.tables, name, 0);
            let t = cat.tables[k];
            assert(t.wf() && t.unique());
            match step {
                Step::Insert { id, values, .. } => {
                    if t.columns.len() == values.len() {
                        catalog::inserting_keeps_the_table(t, id, values);
                        rows::rows_with_one_placed(t.rows, id, values);
                    }
                },
                Step::Update { id, values, .. } => {
                    let one = seq![(id, values)];
                    if txn::all_wide(one, t.columns.len() as int) {
                        assert(one[0].1.len() == t.columns.len());
                        catalog::updating_keeps_the_table(t, one);
                        one_update(t, id, values);
                    }
                },
                Step::Delete { id, .. } => {
                    catalog::deleting_keeps_the_table(t, id);
                    rows::rows_with_one_removed(t.rows, id);
                },
            }
            if after.tables[k] != t {
                txn::same_place(cat.tables, name, k, after.tables[k], 0);
            }
            stays_found(cat, after, k, i);
        },
    }
}

proof fn stays_found(cat: Cat, after: Cat, k: int, i: int)
    requires
        0 <= k < cat.tables.len(),
        0 <= i < cat.tables.len(),
        after.tables.len() == cat.tables.len(),
        forall|j: int|
            0 <= j < cat.tables.len() ==> (#[trigger] after.tables[j]).name == cat.tables[j].name,
        cat.table(cat.tables[i].name) == Some(i),
    ensures
        after.table(cat.tables[i].name) == Some(i),
{
    same_names(cat.tables, after.tables, cat.tables[i].name, 0);
}

proof fn same_names(a: Seq<Sheet>, b: Seq<Sheet>, name: Seq<char>, k: int)
    requires
        0 <= k,
        a.len() == b.len(),
        forall|j: int| 0 <= j < a.len() ==> (#[trigger] b[j]).name == a[j].name,
    ensures
        catalog::table_from(a, name, k) == catalog::table_from(b, name, k),
    decreases a.len() - k,
{
    if k < a.len() {
        assert(b[k].name == a[k].name);
        same_names(a, b, name, k + 1);
    }
}

proof fn one_update(t: Sheet, id: int, values: Seq<Datum>)
    requires
        t.wf(),
        t.updated(seq![(id, values)]) is Ok,
    ensures
        ({
            let after = t.updated(seq![(id, values)])->Ok_0;
            &&& after == (Sheet { rows: after.rows, ..t })
            &&& catalog::has_row(t.rows, id) ==> after.rows.contains((id, values))
            &&& forall|other: int, v: Seq<Datum>|
                other != id ==> (#[trigger] after.rows.contains((other, v)) <==> t.rows.contains(
                    (other, v),
                ))
        }),
{
    reveal_with_fuel(catalog::changed, 2);
    reveal_with_fuel(catalog::kept, 2);
    let one = seq![(id, values)];
    rows::rows_with_one_removed(t.rows, id);
    let less = catalog::removed(t.rows, id);
    assert(catalog::kept(t.rows, one, 1) == less);
    rows::rows_with_one_placed(less, id, values);
    let after = t.updated(one)->Ok_0;
    if !catalog::has_row(t.rows, id) {
        assert(after.rows == less);
    } else {
        assert(after.rows == catalog::placed(less, id, values));
    }
}

proof fn changes_upto(state: Cat, log: Seq<Step>, i: int, n: int)
    requires
        state.wf(),
        0 <= n <= log.len(),
        0 <= i < state.tables.len(),
        state.table(state.tables[i].name) == Some(i),
        txn::replayed(state, log, n) is Ok,
    ensures
        ({
            let c = txn::replayed(state, log, n)->Ok_0;
            &&& c.wf()
            &&& c.tables.len() == state.tables.len()
            &&& c.tables[i] == (Sheet { rows: c.tables[i].rows, ..state.tables[i] })
            &&& c.table(state.tables[i].name) == Some(i)
        }),
    decreases n,
{
    if n > 0 {
        changes_upto(state, log, i, n - 1);
        let c = txn::replayed(state, log, n - 1)->Ok_0;
        let d = txn::replayed(state, log, n)->Ok_0;
        as_one_change(c, log[n - 1], d, state, log, n);
        one_change(c, log[n - 1], d, i);
    }
}

proof fn as_one_change(c: Cat, step: Step, d: Cat, state: Cat, log: Seq<Step>, n: int)
    requires
        0 < n <= log.len(),
        log[n - 1] == step,
        txn::replayed(state, log, n - 1) == Ok::<Cat, Seq<char>>(c),
        txn::replayed(state, log, n) == Ok::<Cat, Seq<char>>(d),
    ensures
        txn::replayed(c, seq![step], 1) == Ok::<Cat, Seq<char>>(d),
{
    reveal_with_fuel(txn::replayed, 2);
    assert(seq![step][0] == step);
}

/// Committing over what others have committed meanwhile leaves every row of theirs that the
/// transaction did not change.
pub proof fn a_commit_keeps_what_others_did(
    state: Cat,
    log: Seq<Step>,
    i: int,
    id: int,
    v: Seq<Datum>,
    n: int,
)
    requires
        state.wf(),
        0 <= n <= log.len(),
        0 <= i < state.tables.len(),
        state.table(state.tables[i].name) == Some(i),
        txn::replayed(state, log, n) is Ok,
        forall|k: int| 0 <= k < n ==> !touches(#[trigger] log[k], state.tables[i].name, id),
    ensures
        txn::replayed(state, log, n)->Ok_0.tables[i].rows.contains((id, v))
            <==> state.tables[i].rows.contains((id, v)),
    decreases n,
{
    if n > 0 {
        a_commit_keeps_what_others_did(state, log, i, id, v, n - 1);
        changes_upto(state, log, i, n - 1);
        let c = txn::replayed(state, log, n - 1)->Ok_0;
        let d = txn::replayed(state, log, n)->Ok_0;
        as_one_change(c, log[n - 1], d, state, log, n);
        one_change(c, log[n - 1], d, i);
        assert(!touches(log[n - 1], state.tables[i].name, id));
        assert(d.tables[i].rows.contains((id, v)) <==> c.tables[i].rows.contains((id, v)));
    }
}

/// Committing makes every change of the transaction: the last one to a row decides. A row
/// that it inserted or updated holds its values, and one that it deleted is gone.
pub proof fn a_commit_makes_every_change(state: Cat, log: Seq<Step>, i: int, k: int, n: int)
    requires
        state.wf(),
        0 <= k < n <= log.len(),
        0 <= i < state.tables.len(),
        state.table(state.tables[i].name) == Some(i),
        txn::replayed(state, log, n) is Ok,
        txn::table_of(log[k]) == state.tables[i].name,
        forall|j: int|
            k < j < n ==> !touches(
                #[trigger] log[j],
                state.tables[i].name,
                match log[k] {
                    Step::Insert { id, .. } => id,
                    Step::Update { id, .. } => id,
                    Step::Delete { id, .. } => id,
                },
            ),
    ensures
        ({
            let after = txn::replayed(state, log, n)->Ok_0.tables[i].rows;
            let before = txn::replayed(state, log, k)->Ok_0.tables[i].rows;
            match log[k] {
                Step::Insert { id, values, .. } => values.len() == state.tables[i].columns.len()
                    ==> after.contains((id, values)),
                Step::Update { id, values, .. } => values.len() == state.tables[i].columns.len()
                    && catalog::has_row(before, id) ==> after.contains((id, values)),
                Step::Delete { id, .. } => !catalog::has_row(after, id),
            }
        }),
    decreases n,
{
    changes_upto(state, log, i, n - 1);
    let c = txn::replayed(state, log, n - 1)->Ok_0;
    let d = txn::replayed(state, log, n)->Ok_0;
    as_one_change(c, log[n - 1], d, state, log, n);
    one_change(c, log[n - 1], d, i);
    if k < n - 1 {
        a_commit_makes_every_change(state, log, i, k, n - 1);
        let id = match log[k] {
            Step::Insert { id, .. } => id,
            Step::Update { id, .. } => id,
            Step::Delete { id, .. } => id,
        };
        assert(!touches(log[n - 1], state.tables[i].name, id));
        if catalog::has_row(d.tables[i].rows, id) {
            let r = d.tables[i].rows;
            let j = choose|j: int| 0 <= j < r.len() && #[trigger] r[j].0 == id;
            assert(r.contains((id, r[j].1)));
            assert(c.tables[i].rows.contains((id, r[j].1)));
            let q = c.tables[i].rows;
            let l = choose|l: int| 0 <= l < q.len() && q[l] == (id, r[j].1);
            assert(q[l].0 == id);
        }
    }
}

// ---- blocks ----

/// Undoing to the start of a block gives its session back what it held there, however many
/// DML statements the block has run.
pub proof fn undoing_a_block_restores(seat: Seat, stages: Seq<undoing::Stage>)
    requires
        seat.txn is Some,
        seat.txn->0.work.wf(),
        0 < seat.txn->0.log.len() <= usize::MAX,
        undoing::went_well(
            seat.txn->0.work,
            seat.txn->0.log,
            stages,
            stages.len() as int,
        ),
    ensures
        ({
            let t = seat.txn->0;
            let (c, l) = undoing::behind(t.work, t.log, stages, stages.len() as int);
            let after = Seat { txn: Some(Deal { work: c, log: l, ..t }), ..seat };
            session::undone_to(after, engine::point(seat)) == seat
        }),
{
    let t = seat.txn->0;
    let n = stages.len() as int;
    undoing::undoing_to_a_savepoint_restores(t.work, t.log, stages, n);
    undoing::log_grows(t.work, t.log, stages, n);
}

/// A block that fails is undone to its start.
#[verifier::spinoff_prover]
pub proof fn a_failed_block_is_undone(w: World, b: tree::Block, binds: Seq<Datum>)
    requires
        exec::block_run(
            exec::Mode { read_only: false, depth: 0 },
            engine::STEPS as nat,
            exec::State { w, l: exec::alone(binds) },
            b,
        ).r is Err,
    ensures
        ({
            let o = exec::block_run(
                exec::Mode { read_only: false, depth: 0 },
                engine::STEPS as nat,
                exec::State { w, l: exec::alone(binds) },
                b,
            );
            let d = engine::block_due(w, b, binds);
            &&& d.result is Err
            &&& d.world.seat == session::undone_to(o.s.w.seat, engine::point(w.seat))
            &&& d.world.store == o.s.w.store
        }),
{
}

} // verus!
