//! What the statements that define things leave behind.

use vstd::prelude::*;

use crate::ast::SequenceOption;
use crate::catalog;
use crate::catalog::{Cat, Field, Rule, RuleKind, SequenceDef, Sheet};
use crate::ddl;
use crate::ddl::{ddl_due, sequence_due, Store};
use crate::dml;
use crate::dml::Tally;
use crate::error;
use crate::error::Failure;
use crate::eval::Scene;
use crate::tree;
use crate::tree::Statement;

verus! {

/// Whether the table at a place is the first of its name.
pub open spec fn table_at(c: Cat, name: Seq<char>, k: int) -> bool {
    &&& 0 <= k < c.tables.len()
    &&& c.tables[k].name == name
    &&& forall|j: int| 0 <= j < k ==> (#[trigger] c.tables[j]).name != name
}

pub open spec fn no_table(c: Cat, name: Seq<char>) -> bool {
    forall|j: int| 0 <= j < c.tables.len() ==> (#[trigger] c.tables[j]).name != name
}

/// Whether the sequence at a place is the first of its name.
pub open spec fn sequence_at(c: Cat, name: Seq<char>, k: int) -> bool {
    &&& 0 <= k < c.sequences.len()
    &&& c.sequences[k].0 == name
    &&& forall|j: int| 0 <= j < k ==> (#[trigger] c.sequences[j]).0 != name
}

pub open spec fn no_sequence(c: Cat, name: Seq<char>) -> bool {
    forall|j: int| 0 <= j < c.sequences.len() ==> (#[trigger] c.sequences[j]).0 != name
}

/// Whether the routine at a place is the first of its name.
pub open spec fn routine_at(c: Cat, name: Seq<char>, k: int) -> bool {
    &&& 0 <= k < c.routines.len()
    &&& c.routines[k].name == name
    &&& forall|j: int| 0 <= j < k ==> (#[trigger] c.routines[j]).name != name
}

pub open spec fn no_routine(c: Cat, name: Seq<char>) -> bool {
    forall|j: int| 0 <= j < c.routines.len() ==> (#[trigger] c.routines[j]).name != name
}

/// Whether nothing has a name: no table, sequence or routine, and no constraint or index of
/// a table.
pub open spec fn is_free(c: Cat, name: Seq<char>) -> bool {
    &&& no_table(c, name)
    &&& no_sequence(c, name)
    &&& no_routine(c, name)
    &&& forall|i: int, k: int|
        0 <= i < c.tables.len() && 0 <= k < c.tables[i].rules.len()
            ==> (#[trigger] c.tables[i].rules[k]).name != name
}

proof fn table_place(t: Seq<Sheet>, name: Seq<char>, i: int, k: int)
    requires
        0 <= i <= k <= t.len(),
        forall|j: int| i <= j < k ==> (#[trigger] t[j]).name != name,
        k < t.len() ==> t[k].name == name,
    ensures
        catalog::table_from(t, name, i) == if k < t.len() {
            Some(k)
        } else {
            None
        },
    decreases k - i,
{
    if i < k {
        assert(t[i].name != name);
        table_place(t, name, i + 1, k);
    }
}

proof fn sequence_place(t: Seq<(Seq<char>, SequenceDef)>, name: Seq<char>, i: int, k: int)
    requires
        0 <= i <= k <= t.len(),
        forall|j: int| i <= j < k ==> (#[trigger] t[j]).0 != name,
        k < t.len() ==> t[k].0 == name,
    ensures
        catalog::sequence_from(t, name, i) == if k < t.len() {
            Some(k)
        } else {
            None
        },
    decreases k - i,
{
    if i < k {
        assert(t[i].0 != name);
        sequence_place(t, name, i + 1, k);
    }
}

proof fn routine_place(t: Seq<tree::Routine>, name: Seq<char>, i: int, k: int)
    requires
        0 <= i <= k <= t.len(),
        forall|j: int| i <= j < k ==> (#[trigger] t[j]).name != name,
        k < t.len() ==> t[k].name == name,
    ensures
        catalog::routine_from(t, name, i) == if k < t.len() {
            Some(k)
        } else {
            None
        },
    decreases k - i,
{
    if i < k {
        assert(t[i].name != name);
        routine_place(t, name, i + 1, k);
    }
}

proof fn number_place(v: Seq<(Seq<char>, int)>, name: Seq<char>, i: int, k: int)
    requires
        0 <= i <= k <= v.len(),
        forall|j: int| i <= j < k ==> (#[trigger] v[j]).0 != name,
        k < v.len() ==> v[k].0 == name,
    ensures
        dml::number_from(v, name, i) == if k < v.len() {
            Some(k)
        } else {
            None
        },
    decreases k - i,
{
    if i < k {
        assert(v[i].0 != name);
        number_place(v, name, i + 1, k);
    }
}

/// A name is used where something has it, and free elsewhere.
proof fn free_names(c: Cat, name: Seq<char>)
    ensures
        is_free(c, name) ==> !c.name_in_use(name),
        (exists|k: int| 0 <= k < c.tables.len() && (#[trigger] c.tables[k]).name == name)
            ==> c.name_in_use(name),
        (exists|k: int| 0 <= k < c.sequences.len() && (#[trigger] c.sequences[k]).0 == name)
            ==> c.name_in_use(name),
        (exists|k: int| 0 <= k < c.routines.len() && (#[trigger] c.routines[k]).name == name)
            ==> c.name_in_use(name),
        (exists|i: int, k: int|
            0 <= i < c.tables.len() && 0 <= k < c.tables[i].rules.len()
                && (#[trigger] c.tables[i].rules[k]).name == name) ==> c.name_in_use(name),
{
    if is_free(c, name) {
        table_place(c.tables, name, 0, c.tables.len() as int);
        sequence_place(c.sequences, name, 0, c.sequences.len() as int);
        routine_place(c.routines, name, 0, c.routines.len() as int);
    }
    if exists|k: int| 0 <= k < c.tables.len() && (#[trigger] c.tables[k]).name == name {
        let k = choose|k: int| 0 <= k < c.tables.len() && (#[trigger] c.tables[k]).name == name;
        some_table(c.tables, name, 0, k);
    }
    if exists|k: int| 0 <= k < c.sequences.len() && (#[trigger] c.sequences[k]).0 == name {
        let k = choose|k: int|
            0 <= k < c.sequences.len() && (#[trigger] c.sequences[k]).0 == name;
        some_sequence(c.sequences, name, 0, k);
    }
    if exists|k: int| 0 <= k < c.routines.len() && (#[trigger] c.routines[k]).name == name {
        let k = choose|k: int|
            0 <= k < c.routines.len() && (#[trigger] c.routines[k]).name == name;
        some_routine(c.routines, name, 0, k);
    }
    if exists|i: int, k: int|
        0 <= i < c.tables.len() && 0 <= k < c.tables[i].rules.len()
            && (#[trigger] c.tables[i].rules[k]).name == name {
        let (i, k) = choose|i: int, k: int|
            0 <= i < c.tables.len() && 0 <= k < c.tables[i].rules.len()
                && (#[trigger] c.tables[i].rules[k]).name == name;
        assert(catalog::has_rule(c.tables[i], name));
    }
}

proof fn some_table(t: Seq<Sheet>, name: Seq<char>, i: int, k: int)
    requires
        0 <= i <= k < t.len(),
        t[k].name == name,
    ensures
        catalog::table_from(t, name, i) is Some,
    decreases k - i,
{
    if t[i].name != name {
        some_table(t, name, i + 1, k);
    }
}

proof fn some_sequence(t: Seq<(Seq<char>, SequenceDef)>, name: Seq<char>, i: int, k: int)
    requires
        0 <= i <= k < t.len(),
        t[k].0 == name,
    ensures
        catalog::sequence_from(t, name, i) is Some,
    decreases k - i,
{
    if t[i].0 != name {
        some_sequence(t, name, i + 1, k);
    }
}

proof fn some_routine(t: Seq<tree::Routine>, name: Seq<char>, i: int, k: int)
    requires
        0 <= i <= k < t.len(),
        t[k].name == name,
    ensures
        catalog::routine_from(t, name, i) is Some,
    decreases k - i,
{
    if t[i].name != name {
        some_routine(t, name, i + 1, k);
    }
}

/// Whether a statement makes a table with columns of its own, an index or a sequence of a name.
pub open spec fn creates(stmt: Statement, name: Seq<char>) -> bool {
    match stmt {
        Statement::CreateSequence { name: n, .. } => n == name,
        Statement::CreateIndex { name: n, .. } => n == name,
        Statement::CreateTable(ct) => ct.name == name && ct.as_query is None,
        _ => false,
    }
}

/// A table, an index or a sequence cannot have a name that something has already. Such a
/// statement changes nothing.
pub proof fn a_used_name_is_refused(store: Store, s: Scene, stmt: Statement, name: Seq<char>)
    requires
        creates(stmt, name),
        !is_free(store.state, name),
    ensures
        ddl_due(store, s, stmt) == (ddl::Defined {
            store,
            failure: Some(ddl::name_taken()),
        }),
{
    reveal(ddl_due);
    free_names(store.state, name);
    let c = store.state;
    if !no_table(c, name) {
        assert(c.name_in_use(name));
    } else if !no_sequence(c, name) {
        assert(c.name_in_use(name));
    } else if !no_routine(c, name) {
        assert(c.name_in_use(name));
    } else {
        assert(c.name_in_use(name));
    }
}

// ---- tables ----

/// DROP TABLE takes out the table and nothing else, and refuses a name that no table has.
pub proof fn dropping_a_table(store: Store, s: Scene, name: Seq<char>, k: int)
    requires
        table_at(store.state, name, k) || no_table(store.state, name),
    ensures
        ({
            let d = ddl_due(store, s, Statement::DropTable { name });
            if no_table(store.state, name) {
                d.failure == Some(error::table_not_found()) && d.store == store
            } else {
                &&& d.failure is None
                &&& d.store.state.tables == store.state.tables.remove(k)
                &&& d.store.state.sequences == store.state.sequences
                &&& d.store.state.routines == store.state.routines
                &&& d.store.positions == store.positions
            }
        }),
{
    reveal(ddl_due);
    if no_table(store.state, name) {
        table_place(store.state.tables, name, 0, store.state.tables.len() as int);
    } else {
        table_place(store.state.tables, name, 0, k);
    }
}

/// TRUNCATE takes out the rows of its table and leaves all else as it was.
pub proof fn truncating_a_table(store: Store, s: Scene, name: Seq<char>, k: int)
    requires
        table_at(store.state, name, k) || no_table(store.state, name),
    ensures
        ({
            let d = ddl_due(store, s, Statement::Truncate { name });
            if no_table(store.state, name) {
                d.failure == Some(error::table_not_found()) && d.store == store
            } else {
                &&& d.failure is None
                &&& d.store.state.tables.len() == store.state.tables.len()
                &&& d.store.state.tables[k].rows.len() == 0
                &&& d.store.state.tables[k].columns == store.state.tables[k].columns
                &&& d.store.state.tables[k].rules == store.state.tables[k].rules
                &&& d.store.state.tables[k].name == name
                &&& forall|j: int|
                    0 <= j < store.state.tables.len() && j != k
                        ==> #[trigger] d.store.state.tables[j] == store.state.tables[j]
                &&& d.store.state.sequences == store.state.sequences
                &&& d.store.state.routines == store.state.routines
                &&& d.store.positions == store.positions
                &&& d.store.tally == store.tally
            }
        }),
{
    reveal(ddl_due);
    if no_table(store.state, name) {
        table_place(store.state.tables, name, 0, store.state.tables.len() as int);
    } else {
        table_place(store.state.tables, name, 0, k);
    }
}

/// Whether a table has the columns of its definition.
pub open spec fn has_columns(f: Seq<Field>, defs: Seq<tree::ColumnDef>) -> bool {
    &&& f.len() == defs.len()
    &&& forall|i: int|
        0 <= i < f.len() ==> {
            &&& (#[trigger] f[i]).name == defs[i].name
            &&& f[i].sql_type == defs[i].sql_type
            &&& f[i].default == defs[i].default
            &&& f[i].identity == defs[i].identity
            &&& defs[i].not_null ==> f[i].not_null
        }
}

/// CREATE TABLE puts one empty table behind those that there were, with the columns of its
/// definition. It is refused for a name that is used and for two columns of one name, and
/// then changes no table.
pub proof fn creating_a_table(store: Store, s: Scene, ct: tree::CreateTable)
    requires
        ct.as_query is None,
        ct.constraints.len() == 0,
    ensures
        ({
            let d = ddl_due(store, s, Statement::CreateTable(ct));
            let twice = exists|a: int, b: int|
                0 <= a < b < ct.columns.len() && (#[trigger] ct.columns[a]).name == (
                #[trigger] ct.columns[b]).name;
            if is_free(store.state, ct.name) && !twice {
                let t = d.store.state.tables;
                &&& d.failure is None
                &&& t.len() == store.state.tables.len() + 1
                &&& t.drop_last() == store.state.tables
                &&& t.last().name == ct.name
                &&& t.last().rows.len() == 0
                &&& t.last().rules.len() == 0
                &&& has_columns(t.last().columns, ct.columns)
                &&& d.store.state.sequences == store.state.sequences
                &&& d.store.state.routines == store.state.routines
            } else {
                d.failure is Some && d.store == store
            }
        }),
{
    reveal(ddl_due);
    free_names(store.state, ct.name);
    if !is_free(store.state, ct.name) {
        a_used_name_is_refused(store, s, Statement::CreateTable(ct), ct.name);
    }
    let f = Seq::new(ct.columns.len(), |i: int| ddl::column_of(ct.columns[i]));
    let twice = exists|a: int, b: int|
        0 <= a < b < ct.columns.len() && (#[trigger] ct.columns[a]).name == (
        #[trigger] ct.columns[b]).name;
    assert(ddl::repeats(f) == twice) by {
        if twice {
            let (a, b) = choose|a: int, b: int|
                0 <= a < b < ct.columns.len() && (#[trigger] ct.columns[a]).name == (
                #[trigger] ct.columns[b]).name;
            assert(f[a].name == f[b].name);
        }
        if ddl::repeats(f) {
            let (a, b) = choose|a: int, b: int|
                0 <= a < b < f.len() && (#[trigger] f[a]).name == (#[trigger] f[b]).name;
            assert(ct.columns[a].name == ct.columns[b].name);
        }
    }
    if is_free(store.state, ct.name) && !twice {
        let t = ddl_due(store, s, Statement::CreateTable(ct)).store.state.tables;
        assert(t.drop_last() =~= store.state.tables);
    }
}

// ---- indexes ----

/// CREATE UNIQUE INDEX is refused where two rows have one key, and a plain index never is.
/// The table then has that rule behind its others, and keeps its rows.
pub proof fn creating_an_index(
    store: Store,
    s: Scene,
    name: Seq<char>,
    table: Seq<char>,
    columns: Seq<Seq<char>>,
    unique: bool,
    k: int,
)
    requires
        is_free(store.state, name),
        table_at(store.state, table, k),
        ddl::resolved(store.state.tables[k].columns, columns, columns.len() as int) is Ok,
    ensures
        ({
            let d = ddl_due(
                store,
                s,
                Statement::CreateIndex { name, table, columns, unique },
            );
            let was = store.state.tables[k];
            let idx = ddl::resolved(was.columns, columns, columns.len() as int)->Ok_0;
            let same = exists|a: int, b: int|
                0 <= a < was.rows.len() && 0 <= b < was.rows.len() && a != b && catalog::clash(
                    idx,
                    (#[trigger] was.rows[a]).1,
                    (#[trigger] was.rows[b]).1,
                );
            if unique && same {
                d.failure is Some && d.failure->0.code == 1452 && d.store == store
            } else {
                let t = d.store.state.tables;
                &&& d.failure is None
                &&& t.len() == store.state.tables.len()
                &&& forall|j: int| 0 <= j < t.len() && j != k ==> #[trigger] t[j]
                    == store.state.tables[j]
                &&& t[k].rows == was.rows
                &&& t[k].columns == was.columns
                &&& t[k].rules.len() == was.rules.len() + 1
                &&& t[k].rules.drop_last() == was.rules
                &&& t[k].rules.last().name == name
                &&& t[k].rules.last().is_index
                &&& unique ==> t[k].rules.last().kind == (RuleKind::Unique {
                    columns: idx,
                    primary: false,
                })
                &&& !unique ==> t[k].rules.last().kind is Index
            }
        }),
{
    reveal(ddl_due);
    free_names(store.state, name);
    table_place(store.state.tables, table, 0, k);
    let d = ddl_due(store, s, Statement::CreateIndex { name, table, columns, unique });
    assert(d.failure is None ==> d.store.state.tables[k].rules.drop_last()
        =~= store.state.tables[k].rules);
}

/// The columns of a key are those that its names name, in their order.
pub proof fn keys_are_by_name(columns: Seq<Field>, names: Seq<Seq<char>>, n: int)
    requires
        0 <= n <= names.len(),
    ensures
        match ddl::resolved(columns, names, n) {
            Ok(idx) => idx.len() == n && forall|i: int|
                0 <= i < n ==> 0 <= #[trigger] idx[i] < columns.len() && columns[idx[i]].name
                    == names[i],
            Err(_) => exists|i: int|
                0 <= i < n && forall|j: int|
                    0 <= j < columns.len() ==> (#[trigger] columns[j]).name
                        != #[trigger] names[i],
        },
    decreases n,
{
    if n > 0 {
        keys_are_by_name(columns, names, n - 1);
        field_place(columns, names[n - 1], 0);
        match ddl::resolved(columns, names, n - 1) {
            Ok(_) => {
                if catalog::index_of_field(columns, names[n - 1], 0) is None {
                    assert(forall|j: int|
                        0 <= j < columns.len() ==> (#[trigger] columns[j]).name != names[n - 1]);
                }
            },
            Err(_) => {},
        }
    }
}

proof fn field_place(columns: Seq<Field>, name: Seq<char>, i: int)
    requires
        0 <= i,
    ensures
        match catalog::index_of_field(columns, name, i) {
            Some(k) => i <= k < columns.len() && columns[k].name == name,
            None => forall|j: int| i <= j < columns.len() ==> (#[trigger] columns[j]).name != name,
        },
    decreases columns.len() - i,
{
    if i < columns.len() {
        field_place(columns, name, i + 1);
    }
}

/// An index that is dropped leaves the table as it was before the index was made.
pub proof fn dropping_undoes_creating_an_index(
    store: Store,
    s: Scene,
    name: Seq<char>,
    table: Seq<char>,
    columns: Seq<Seq<char>>,
    unique: bool,
)
    requires
        is_free(store.state, name),
        ddl_due(
            store,
            s,
            Statement::CreateIndex { name, table, columns, unique },
        ).failure is None,
    ensures
        ({
            let made = ddl_due(
                store,
                s,
                Statement::CreateIndex { name, table, columns, unique },
            ).store;
            let d = ddl_due(made, s, Statement::DropIndex { name });
            &&& d.failure is None
            &&& d.store.state.tables == store.state.tables
            &&& d.store.state.sequences == store.state.sequences
            &&& d.store.state.routines == store.state.routines
        }),
{
    reveal(ddl_due);
    free_names(store.state, name);
    let made = ddl_due(
        store,
        s,
        Statement::CreateIndex { name, table, columns, unique },
    ).store;
    let i = store.state.table(table)->0;
    crate::txn::found_table(store.state.tables, table, 0);
    let t = made.state.tables;
    let was = store.state.tables[i];
    assert forall|j: int| 0 <= j < i implies !ddl::has_index(#[trigger] t[j], name) by {
        assert(t[j] == store.state.tables[j]);
    }
    let n = was.rules.len() as int;
    assert(ddl::has_index(t[i], name)) by {
        assert(ddl::is_index_named(t[i].rules[n], name));
    }
    owner_place(t, name, 0, i);
    assert(t[i].rules.drop_last() =~= was.rules);
    others_stay(t[i].rules, was.rules, name, n);
    assert(ddl::rules_without(t[i].rules, name, n + 1) =~= was.rules);
    let d = ddl_due(made, s, Statement::DropIndex { name });
    assert(d.store.state.tables[i] == was);
    assert(d.store.state.tables =~= store.state.tables);
}

proof fn owner_place(t: Seq<Sheet>, name: Seq<char>, i: int, k: int)
    requires
        0 <= i <= k < t.len(),
        forall|j: int| i <= j < k ==> !ddl::has_index(#[trigger] t[j], name),
        ddl::has_index(t[k], name),
    ensures
        ddl::index_owner(t, name, i) == Some(k),
    decreases k - i,
{
    if i < k {
        assert(!ddl::has_index(t[i], name));
        owner_place(t, name, i + 1, k);
    }
}

proof fn others_stay(rules: Seq<Rule>, was: Seq<Rule>, name: Seq<char>, n: int)
    requires
        0 <= n <= was.len(),
        rules.len() == was.len() + 1,
        rules.drop_last() == was,
        forall|k: int| 0 <= k < was.len() ==> (#[trigger] was[k]).name != name,
    ensures
        ddl::rules_without(rules, name, n) == was.take(n),
    decreases n,
{
    if n > 0 {
        others_stay(rules, was, name, n - 1);
        assert(rules[n - 1] == rules.drop_last()[n - 1]);
        assert(was[n - 1].name != name);
        assert(was.take(n - 1).push(was[n - 1]) =~= was.take(n));
    } else {
        assert(was.take(0) =~= Seq::<Rule>::empty());
    }
}

// ---- sequences ----

/// A sequence goes by the last option of each sort that it is given.
pub proof fn the_last_option_holds(
    was: Option<SequenceDef>,
    options: Seq<SequenceOption>,
    n: int,
    i: int,
)
    requires
        0 <= i < n <= options.len(),
        ddl::read_options(was, options, n) is Ok,
    ensures
        ({
            let o = ddl::read_options(was, options, n)->Ok_0;
            match options[i] {
                SequenceOption::StartWith(k) => was is None && ((forall|j: int|
                    i < j < n ==> !((#[trigger] options[j]) is StartWith)) ==> o.start == Some(k)),
                SequenceOption::IncrementBy(k) => k != 0 && ((forall|j: int|
                    i < j < n ==> !((#[trigger] options[j]) is IncrementBy)) ==> o.increment == k),
                SequenceOption::MinValue(k) => (forall|j: int|
                    i < j < n ==> !((#[trigger] options[j]) is MinValue)) ==> o.min == k,
                SequenceOption::MaxValue(k) => (forall|j: int|
                    i < j < n ==> !((#[trigger] options[j]) is MaxValue)) ==> o.max == k,
                SequenceOption::Cycle(k) => (forall|j: int|
                    i < j < n ==> !((#[trigger] options[j]) is Cycle)) ==> o.cycle == k,
                SequenceOption::Restart(_) => true,
            }
        }),
    decreases n,
{
    if i < n - 1 {
        the_last_option_holds(was, options, n - 1, i);
        let last = options[n - 1];
        assert(last == options[n - 1]);
    }
}

/// Where an option of a sort is not given, a new sequence counts up by one without a cycle,
/// and an old one goes on as it did.
pub proof fn what_a_sequence_goes_by(
    was: Option<SequenceDef>,
    options: Seq<SequenceOption>,
    n: int,
)
    requires
        0 <= n <= options.len(),
        ddl::read_options(was, options, n) is Ok,
    ensures
        ({
            let o = ddl::read_options(was, options, n)->Ok_0;
            &&& (forall|j: int| 0 <= j < n ==> !((#[trigger] options[j]) is StartWith))
                ==> o.start is None
            &&& (forall|j: int| 0 <= j < n ==> !((#[trigger] options[j]) is IncrementBy))
                ==> o.increment == (match was {
                Some(d) => d.increment,
                None => 1,
            })
            &&& (forall|j: int| 0 <= j < n ==> !((#[trigger] options[j]) is Cycle)) ==> o.cycle
                == (was is Some && was->0.cycle)
            &&& (forall|j: int| 0 <= j < n ==> !((#[trigger] options[j]) is MinValue)) ==> o.min
                == (match was {
                Some(d) => Some(d.min),
                None => None,
            })
            &&& (forall|j: int| 0 <= j < n ==> !((#[trigger] options[j]) is MaxValue)) ==> o.max
                == (match was {
                Some(d) => Some(d.max),
                None => None,
            })
        }),
    decreases n,
{
    if n > 0 {
        what_a_sequence_goes_by(was, options, n - 1);
        let last = options[n - 1];
        assert(last == options[n - 1]);
    }
}

/// A sequence that is not told where to start starts at the end of its range that it counts
/// away from; its range is open towards the other end as far as numbers of sequences go.
pub proof fn a_sequence_counts_through_its_range(options: Seq<SequenceOption>)
    requires
        sequence_due(None, options) is Ok,
    ensures
        ({
            let d = sequence_due(None, options)->Ok_0;
            let o = ddl::read_options(None, options, options.len() as int)->Ok_0;
            &&& d.increment == o.increment
            &&& d.cycle == o.cycle
            &&& o.start is Some ==> d.start == o.start->0
            &&& o.min is Some ==> d.min == o.min->0
            &&& o.max is Some ==> d.max == o.max->0
            &&& o.start is None && d.increment > 0 ==> d.start == d.min
            &&& o.start is None && d.increment <= 0 ==> d.start == d.max
            &&& o.min is None && d.increment > 0 ==> d.min == 1
            &&& o.max is None && d.increment <= 0 ==> d.max == -1
            &&& d.min < d.max && d.min <= d.start <= d.max
        }),
{
}

/// A new sequence stands behind those that there were, and one that is dropped is gone; no
/// number of it is kept.
pub proof fn making_and_dropping_a_sequence(
    store: Store,
    s: Scene,
    name: Seq<char>,
    options: Seq<SequenceOption>,
    k: int,
)
    ensures
        is_free(store.state, name) ==> ({
            let d = ddl_due(store, s, Statement::CreateSequence { name, options });
            match sequence_due(None, options) {
                Ok(def) => {
                    &&& d.failure is None
                    &&& d.store.state.sequences.drop_last() == store.state.sequences
                    &&& d.store.state.sequences.len() == store.state.sequences.len() + 1
                    &&& d.store.state.sequences.last() == (name, def)
                    &&& d.store.state.tables == store.state.tables
                    &&& d.store.state.routines == store.state.routines
                },
                Err(e) => d.failure == Some(e) && d.store == store,
            }
        }),
        sequence_at(store.state, name, k) ==> ({
            let d = ddl_due(store, s, Statement::DropSequence { name });
            &&& d.failure is None
            &&& d.store.state.sequences == store.state.sequences.remove(k)
            &&& d.store.state.tables == store.state.tables
            &&& d.store.state.routines == store.state.routines
        }),
        no_sequence(store.state, name) ==> ({
            let d = ddl_due(store, s, Statement::DropSequence { name });
            d.failure is Some && d.failure->0.code == 2289 && d.store == store
        }),
{
    reveal(ddl_due);
    free_names(store.state, name);
    let d = ddl_due(store, s, Statement::CreateSequence { name, options });
    assert(d.failure is None && is_free(store.state, name)
        ==> d.store.state.sequences.drop_last() =~= store.state.sequences);
    if sequence_at(store.state, name, k) {
        sequence_place(store.state.sequences, name, 0, k);
    }
    if no_sequence(store.state, name) {
        sequence_place(store.state.sequences, name, 0, store.state.sequences.len() as int);
    }
}

/// ALTER SEQUENCE keeps where a sequence starts and what it handed out last: the number due
/// next is one new increment behind that.
pub proof fn altering_a_sequence(
    store: Store,
    s: Scene,
    name: Seq<char>,
    options: Seq<SequenceOption>,
    k: int,
    p: int,
)
    requires
        sequence_at(store.state, name, k),
        0 <= p < store.positions.len(),
        store.positions[p].0 == name,
        forall|j: int| 0 <= j < p ==> (#[trigger] store.positions[j]).0 != name,
        forall|j: int|
            p < j < store.positions.len() ==> (#[trigger] store.positions[j]).0 != name,
        forall|j: int| 0 <= j < options.len() ==> !((#[trigger] options[j]) is Restart),
    ensures
        ({
            let d = ddl_due(store, s, Statement::AlterSequence { name, options });
            let was = store.state.sequences[k].1;
            match d.failure {
                Some(_) => d.store == store,
                None => {
                    let now = d.store.state.sequences[k].1;
                    &&& now.start == was.start
                    &&& Ok::<SequenceDef, Failure>(now) == sequence_due(Some(was), options)
                    &&& d.store.state.sequences == store.state.sequences.update(k, (name, now))
                    &&& d.store.state.tables == store.state.tables
                    &&& d.store.state.routines == store.state.routines
                    &&& d.store.positions.len() == store.positions.len()
                    &&& d.store.positions.last().0 == name
                    &&& d.store.positions.last().1 - now.increment == store.positions[p].1
                        - was.increment
                    &&& d.store.positions.drop_last() == store.positions.remove(p)
                },
            }
        }),
{
    reveal(ddl_due);
    sequence_place(store.state.sequences, name, 0, k);
    number_place(store.positions, name, 0, p);
    let was = store.state.sequences[k].1;
    if let Ok(def) = sequence_due(Some(was), options) {
        let n = store.positions[p].1 - was.increment + def.increment;
        let moved = ddl::with_position(store.positions, name, Some(n));
        no_restart(moved, name, def, options, options.len() as int);
        assert(moved.drop_last() =~= store.positions.remove(p));
    }
}

proof fn no_restart(
    p: Seq<(Seq<char>, int)>,
    name: Seq<char>,
    def: SequenceDef,
    options: Seq<SequenceOption>,
    n: int,
)
    requires
        0 <= n <= options.len(),
        forall|j: int| 0 <= j < options.len() ==> !((#[trigger] options[j]) is Restart),
    ensures
        ddl::restarted(p, name, def, options, n) == p,
    decreases n,
{
    if n > 0 {
        no_restart(p, name, def, options, n - 1);
        assert(!(options[n - 1] is Restart));
    }
}

// ---- routines ----

/// A new routine stands behind those that there were; one of its name is replaced where that
/// was asked for, and else the new one is refused.
pub proof fn making_a_routine(
    store: Store,
    s: Scene,
    r: tree::Routine,
    or_replace: bool,
    k: int,
)
    requires
        routine_at(store.state, r.name, k) || no_routine(store.state, r.name),
    ensures
        ({
            let d = ddl_due(
                store,
                s,
                Statement::CreateRoutine { routine: Box::new(r), or_replace },
            );
            let was = store.state.routines;
            let now = d.store.state.routines;
            &&& d.store.state.tables == store.state.tables
            &&& d.store.state.sequences == store.state.sequences
            &&& d.store.positions == store.positions
            &&& d.store.tally == store.tally
            &&& is_free(store.state, r.name) ==> d.failure is None && now.len() == was.len() + 1
                && now.last() == r && now.drop_last() == was
            &&& routine_at(store.state, r.name, k) && or_replace ==> d.failure is None
                && now.len() == was.len() && now[k] == r && forall|j: int|
                0 <= j < was.len() && j != k ==> #[trigger] now[j] == was[j]
            &&& routine_at(store.state, r.name, k) && !or_replace ==> d.failure == Some(
                ddl::name_taken(),
            ) && d.store == store
            &&& no_routine(store.state, r.name) && !is_free(store.state, r.name) ==> d.failure
                == Some(ddl::name_taken()) && d.store == store
        }),
{
    reveal(ddl_due);
    free_names(store.state, r.name);
    let was = store.state.routines;
    if no_routine(store.state, r.name) {
        routine_place(was, r.name, 0, was.len() as int);
        let c = store.state;
        if !is_free(c, r.name) {
            if !no_table(c, r.name) {
                assert(c.name_in_use(r.name));
            } else if !no_sequence(c, r.name) {
                assert(c.name_in_use(r.name));
            } else {
                assert(c.name_in_use(r.name));
            }
        }
        assert(was.push(r).drop_last() =~= was);
    } else {
        routine_place(was, r.name, 0, k);
    }
}

/// DROP FUNCTION drops a function and DROP PROCEDURE a procedure; either refuses the other.
pub proof fn dropping_a_routine(store: Store, s: Scene, name: Seq<char>, function: bool, k: int)
    requires
        routine_at(store.state, name, k) || no_routine(store.state, name),
    ensures
        ({
            let d = ddl_due(store, s, Statement::DropRoutine { name, function });
            if no_routine(store.state, name) || function != (store.state.routines[k].returns is Some) {
                d.failure is Some && d.failure->0.code == 4043 && d.store == store
            } else {
                &&& d.failure is None
                &&& d.store.state.routines == store.state.routines.remove(k)
                &&& d.store.state.tables == store.state.tables
                &&& d.store.state.sequences == store.state.sequences
            }
        }),
{
    reveal(ddl_due);
    let was = store.state.routines;
    if no_routine(store.state, name) {
        routine_place(was, name, 0, was.len() as int);
    } else {
        routine_place(was, name, 0, k);
    }
}

// ---- identity numbers ----

/// The numbers of a table's identity column go up by one and start at one; those of other
/// tables stay as they were.
pub proof fn identity_numbers_go_up(t: Tally, table: Seq<char>, k: int)
    requires
        0 <= k <= t.identities.len(),
        forall|j: int| 0 <= j < k ==> (#[trigger] t.identities[j]).0 != table,
        k < t.identities.len() ==> t.identities[k].0 == table,
        k < t.identities.len() ==> t.identities[k].1 < i64::MAX,
    ensures
        ({
            let (n, after) = t.next_identity(table);
            let (m, _) = after.next_identity(table);
            &&& k == t.identities.len() ==> n == 1
            &&& n + 1 < i64::MAX ==> m == n + 1
            &&& after.next_row == t.next_row
            &&& forall|j: int|
                0 <= j < t.identities.len() && j != k ==> #[trigger] after.identities[j]
                    == t.identities[j]
        }),
{
    number_place(t.identities, table, 0, k);
    let (n, after) = t.next_identity(table);
    number_place(after.identities, table, 0, k);
}

} // verus!
