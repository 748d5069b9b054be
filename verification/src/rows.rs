//! What queries, INSERT, UPDATE and DELETE make of the rows of a table, row by row.

use vstd::prelude::*;

use crate::catalog;
use crate::catalog::{Cat, Field, Rule, RuleKind, Sheet};
use crate::conditions::is_true;
use crate::dml;
use crate::dml::Tally;
use crate::error::Failure;
use crate::eval;
use crate::eval::{evaluated, Scene};
use crate::store;
use crate::tree;
use crate::tree::Expr;
use crate::txn;
use crate::value::Datum;

verus! {

/// The values of a row under its id.
pub type Row = (int, Seq<Datum>);

/// Whether a name is that of the column at a place.
pub open spec fn is_column(columns: Seq<Field>, c: int, name: Seq<char>) -> bool {
    &&& 0 <= c < columns.len()
    &&& columns[c].name == name
    &&& forall|d: int| 0 <= d < c ==> (#[trigger] columns[d]).name != name
}

proof fn found_column(columns: Seq<Field>, name: Seq<char>, i: int)
    requires
        0 <= i,
        forall|d: int| 0 <= d < i && d < columns.len() ==> (#[trigger] columns[d]).name != name,
    ensures
        match catalog::index_of_field(columns, name, i) {
            Some(c) => is_column(columns, c, name),
            None => forall|d: int| 0 <= d < columns.len() ==> (#[trigger] columns[d]).name != name,
        },
    decreases columns.len() - i,
{
    if i < columns.len() && columns[i].name != name {
        found_column(columns, name, i + 1);
    }
}

/// In a row, a name stands for the value that the row has in the column of that name,
/// with the table's name or alias in front or without.
pub proof fn a_name_stands_for_the_column(
    s: Scene,
    qualifier: Seq<char>,
    columns: Seq<Field>,
    values: Seq<Datum>,
    rownum: int,
    name: Seq<char>,
    c: int,
)
    requires
        is_column(columns, c, name),
    ensures
        evaluated(
            dml::in_row(s, qualifier, columns, values, rownum),
            Expr::Column { table: None, name },
        ) == Ok::<Datum, Failure>(values[c]),
        evaluated(
            dml::in_row(s, qualifier, columns, values, rownum),
            Expr::Column { table: Some(qualifier), name },
        ) == Ok::<Datum, Failure>(values[c]),
{
    reveal(evaluated);
    found_column(columns, name, 0);
}

/// A bind stands for the value at its place, a literal for itself, and ROWNUM for the
/// row's number.
pub proof fn plain_expressions(s: Scene, v: Datum, i: int)
    ensures
        evaluated(s, Expr::Literal(v)) == Ok::<Datum, Failure>(v),
        0 <= i < s.binds.len() ==> evaluated(s, Expr::Bind(i)) == Ok::<Datum, Failure>(s.binds[i]),
        !(0 <= i < s.binds.len()) ==> evaluated(s, Expr::Bind(i)) is Err
            && evaluated(s, Expr::Bind(i))->Err_0.code == 1008,
{
    reveal(evaluated);
}

/// Whether a condition does not depend on the number of the row.
pub open spec fn no_row_number(s: Scene, qualifier: Seq<char>, sheet: Sheet, w: Expr) -> bool {
    forall|k: int, n: int|
        0 <= k < sheet.rows.len() ==> #[trigger] evaluated(
            dml::in_row(s, qualifier, sheet.columns, sheet.rows[k].1, n),
            w,
        ) == evaluated(dml::in_row(s, qualifier, sheet.columns, sheet.rows[k].1, 1), w)
}

/// Whether the WHERE clause is TRUE of a row; without one it is of every row.
pub open spec fn meets(
    s: Scene,
    qualifier: Seq<char>,
    columns: Seq<Field>,
    where_: Option<Expr>,
    row: Row,
) -> bool {
    match where_ {
        None => true,
        Some(w) => is_true(evaluated(dml::in_row(s, qualifier, columns, row.1, 1), w)),
    }
}

/// The rows of a table of which a WHERE clause is TRUE.
pub open spec fn wanted(
    s: Scene,
    qualifier: Seq<char>,
    sheet: Sheet,
    where_: Option<Expr>,
) -> Seq<Row> {
    sheet.rows.filter(|r: Row| meets(s, qualifier, sheet.columns, where_, r))
}

/// A WHERE clause selects the rows of which it is TRUE: not those of which it is FALSE or
/// unknown.
pub proof fn where_selects_what_is_true(
    s: Scene,
    qualifier: Seq<char>,
    sheet: Sheet,
    where_: Option<Expr>,
)
    requires
        dml::matching(s, qualifier, sheet, where_, sheet.rows.len() as int) is Ok,
        where_ matches Some(w) ==> no_row_number(s, qualifier, sheet, w),
    ensures
        dml::matching(s, qualifier, sheet, where_, sheet.rows.len() as int) == Ok::<
            Seq<Row>,
            Failure,
        >(wanted(s, qualifier, sheet, where_)),
{
    matched_upto(s, qualifier, sheet, where_, sheet.rows.len() as int);
    assert(sheet.rows.take(sheet.rows.len() as int) =~= sheet.rows);
}

proof fn matched_upto(
    s: Scene,
    qualifier: Seq<char>,
    sheet: Sheet,
    where_: Option<Expr>,
    n: int,
)
    requires
        0 <= n <= sheet.rows.len(),
        dml::matching(s, qualifier, sheet, where_, n) is Ok,
        where_ matches Some(w) ==> no_row_number(s, qualifier, sheet, w),
    ensures
        dml::matching(s, qualifier, sheet, where_, n) == Ok::<Seq<Row>, Failure>(
            sheet.rows.take(n).filter(|r: Row| meets(s, qualifier, sheet.columns, where_, r)),
        ),
    decreases n,
{
    reveal(Seq::filter);
    let p = |r: Row| meets(s, qualifier, sheet.columns, where_, r);
    if n > 0 {
        matched_upto(s, qualifier, sheet, where_, n - 1);
        let rows = sheet.rows.take(n);
        assert(rows.drop_last() =~= sheet.rows.take(n - 1));
        assert(rows.last() == sheet.rows[n - 1]);
        let out = dml::matching(s, qualifier, sheet, where_, n - 1)->Ok_0;
        if let Some(w) = where_ {
            let here = evaluated(
                dml::in_row(
                    s,
                    qualifier,
                    sheet.columns,
                    sheet.rows[n - 1].1,
                    dml::capped(out.len() as int),
                ),
                w,
            );
            assert(here == evaluated(
                dml::in_row(s, qualifier, sheet.columns, sheet.rows[n - 1].1, 1),
                w,
            ));
            assert(p(rows.last()) == is_true(here));
        }
    } else {
        assert(sheet.rows.take(0).filter(p) =~= Seq::<Row>::empty());
    }
}

/// ROWNUM counts the rows that a query has kept so far, and one more.
pub proof fn row_numbers_count_from_one(
    s: Scene,
    qualifier: Seq<char>,
    columns: Seq<Field>,
    values: Seq<Datum>,
    n: int,
)
    ensures
        evaluated(dml::in_row(s, qualifier, columns, values, n), Expr::RowNum) == Ok::<
            Datum,
            Failure,
        >(Datum::Number(crate::number::integer(n))),
        0 <= n < i64::MAX ==> dml::capped(n) == n + 1,
{
    reveal(evaluated);
}

/// The query `SELECT items FROM table [alias] [WHERE condition]`.
pub open spec fn simple(
    items: Seq<tree::SelectItem>,
    table: Seq<char>,
    alias: Option<Seq<char>>,
    where_: Option<Expr>,
) -> tree::Query {
    tree::Query {
        body: tree::SetExpr::Select(
            Box::new(
                tree::Select {
                    distinct: false,
                    items,
                    from: seq![
                        tree::FromItem {
                            factor: tree::TableFactor::Table { name: table, alias },
                            joins: Seq::empty(),
                        },
                    ],
                    where_,
                    group_by: Seq::empty(),
                    having: None,
                },
            ),
        ),
        order_by: Seq::empty(),
        offset: None,
        fetch: None,
    }
}

/// A query of expressions gives one row for each row that the WHERE clause selects, in
/// their order, and in it the value of each expression in that row.
pub proof fn a_query_shows_the_selected_rows(
    cat: Cat,
    s: Scene,
    items: Seq<tree::SelectItem>,
    table: Seq<char>,
    alias: Option<Seq<char>>,
    where_: Option<Expr>,
    i: int,
)
    requires
        cat.table(table) == Some(i),
        0 <= i < cat.tables.len(),
        cat.tables[i].rows.len() < i64::MAX,
        forall|j: int|
            0 <= j < items.len() ==> (#[trigger] items[j]) is Expr && !(items[j]->expr is CountStar),
        dml::queried(cat, s, simple(items, table, alias, where_)) is Ok,
        where_ matches Some(w) ==> no_row_number(
            s,
            txn::known_as(table, alias),
            cat.tables[i],
            w,
        ),
    ensures
        ({
            let sheet = cat.tables[i];
            let q = match alias {
                Some(a) => a,
                None => table,
            };
            let found = wanted(s, q, sheet, where_);
            let rows = dml::queried(cat, s, simple(items, table, alias, where_))->Ok_0.rows;
            &&& rows.len() == found.len()
            &&& forall|k: int|
                0 <= k < rows.len() ==> (#[trigger] rows[k]).len() == items.len() && forall|j: int|
                    0 <= j < items.len() ==> evaluated(
                        dml::in_row(s, q, sheet.columns, found[k].1, k + 1),
                        (#[trigger] items[j])->expr,
                    ) == Ok::<Datum, Failure>(rows[k][j])
        }),
{
    reveal(dml::queried);
    let sheet = cat.tables[i];
    let q = txn::known_as(table, alias);
    where_selects_what_is_true(s, q, sheet, where_);
    let found = wanted(s, q, sheet, where_);
    fewer(sheet.rows, |r: Row| meets(s, q, sheet.columns, where_, r));
    shown_upto(s, q, sheet.columns, items, found, found.len() as int);
}

proof fn fewer(rows: Seq<Row>, p: spec_fn(Row) -> bool)
    ensures
        rows.filter(p).len() <= rows.len(),
    decreases rows.len(),
{
    reveal(Seq::filter);
    if rows.len() > 0 {
        fewer(rows.drop_last(), p);
    }
}

proof fn shown_upto(
    s: Scene,
    q: Seq<char>,
    columns: Seq<Field>,
    items: Seq<tree::SelectItem>,
    found: Seq<Row>,
    n: int,
)
    requires
        0 <= n <= found.len(),
        found.len() < i64::MAX,
        forall|j: int| 0 <= j < items.len() ==> (#[trigger] items[j]) is Expr,
        dml::selected(s, q, columns, items, found, n) is Ok,
    ensures
        ({
            let rows = dml::selected(s, q, columns, items, found, n)->Ok_0;
            &&& rows.len() == n
            &&& forall|k: int|
                0 <= k < rows.len() ==> (#[trigger] rows[k]).len() == items.len() && forall|j: int|
                    0 <= j < items.len() ==> evaluated(
                        dml::in_row(s, q, columns, found[k].1, k + 1),
                        (#[trigger] items[j])->expr,
                    ) == Ok::<Datum, Failure>(rows[k][j])
        }),
    decreases n,
{
    if n > 0 {
        shown_upto(s, q, columns, items, found, n - 1);
        let here = dml::in_row(s, q, columns, found[n - 1].1, dml::capped(n - 1));
        item_values(here, q, items, found[n - 1].1, items.len() as int);
    }
}

proof fn item_values(
    s: Scene,
    q: Seq<char>,
    items: Seq<tree::SelectItem>,
    values: Seq<Datum>,
    n: int,
)
    requires
        0 <= n <= items.len(),
        forall|j: int| 0 <= j < items.len() ==> (#[trigger] items[j]) is Expr,
        dml::projected(s, q, items, values, n) is Ok,
    ensures
        ({
            let row = dml::projected(s, q, items, values, n)->Ok_0;
            &&& row.len() == n
            &&& forall|j: int|
                0 <= j < n ==> evaluated(s, (#[trigger] items[j])->expr) == Ok::<Datum, Failure>(
                    row[j],
                )
        }),
    decreases n,
{
    if n > 0 {
        item_values(s, q, items, values, n - 1);
        assert(items[n - 1] is Expr);
    }
}

/// `SELECT *` gives every selected row as it is stored.
pub proof fn a_star_shows_whole_rows(
    cat: Cat,
    s: Scene,
    table: Seq<char>,
    alias: Option<Seq<char>>,
    where_: Option<Expr>,
    i: int,
)
    requires
        cat.table(table) == Some(i),
        0 <= i < cat.tables.len(),
        dml::queried(cat, s, simple(seq![tree::SelectItem::Star], table, alias, where_)) is Ok,
        where_ matches Some(w) ==> no_row_number(
            s,
            txn::known_as(table, alias),
            cat.tables[i],
            w,
        ),
    ensures
        ({
            let a = dml::queried(
                cat,
                s,
                simple(seq![tree::SelectItem::Star], table, alias, where_),
            )->Ok_0;
            let sheet = cat.tables[i];
            let found = wanted(s, txn::known_as(table, alias), sheet, where_);
            &&& a.rows =~= Seq::new(found.len(), |k: int| found[k].1)
            &&& a.columns =~= Seq::new(
                sheet.columns.len(),
                |k: int| (sheet.columns[k].name, sheet.columns[k].sql_type),
            )
        }),
{
    reveal(dml::queried);
    reveal_with_fuel(dml::heading, 3);
    let items = seq![tree::SelectItem::Star];
    let sheet = cat.tables[i];
    let q = txn::known_as(table, alias);
    where_selects_what_is_true(s, q, sheet, where_);
    let found = wanted(s, q, sheet, where_);
    whole_rows(s, q, sheet.columns, found, found.len() as int);
    let rows = Seq::new(found.len(), |k: int| found[k].1);
    assert(rows.take(found.len() as int) =~= rows);
}

proof fn whole_rows(s: Scene, q: Seq<char>, columns: Seq<Field>, found: Seq<Row>, n: int)
    requires
        0 <= n <= found.len(),
    ensures
        dml::selected(s, q, columns, seq![tree::SelectItem::Star], found, n) == Ok::<
            Seq<Seq<Datum>>,
            Failure,
        >(Seq::new(n as nat, |k: int| found[k].1)),
    decreases n,
{
    reveal_with_fuel(dml::projected, 3);
    let items = seq![tree::SelectItem::Star];
    if n > 0 {
        whole_rows(s, q, columns, found, n - 1);
        let here = dml::in_row(s, q, columns, found[n - 1].1, dml::capped(n - 1));
        assert(Seq::<Datum>::empty() + found[n - 1].1 =~= found[n - 1].1);
        assert(dml::projected(here, q, items, found[n - 1].1, 1) == Ok::<Seq<Datum>, Failure>(
            found[n - 1].1,
        ));
        assert(Seq::new((n - 1) as nat, |k: int| found[k].1).push(found[n - 1].1) =~= Seq::new(
            n as nat,
            |k: int| found[k].1,
        ));
    } else {
        assert(Seq::<Seq<Datum>>::empty() =~= Seq::new(0, |k: int| found[k].1));
    }
}

/// `SELECT COUNT(*)` gives one row: how many rows the WHERE clause selects.
pub proof fn a_count_is_of_the_selected_rows(
    cat: Cat,
    s: Scene,
    name: Seq<char>,
    table: Seq<char>,
    alias: Option<Seq<char>>,
    where_: Option<Expr>,
    i: int,
)
    requires
        cat.table(table) == Some(i),
        0 <= i < cat.tables.len(),
        cat.tables[i].rows.len() < i64::MAX,
        dml::queried(
            cat,
            s,
            simple(
                seq![tree::SelectItem::Expr { expr: Expr::CountStar, name }],
                table,
                alias,
                where_,
            ),
        ) is Ok,
        where_ matches Some(w) ==> no_row_number(
            s,
            txn::known_as(table, alias),
            cat.tables[i],
            w,
        ),
    ensures
        dml::queried(
            cat,
            s,
            simple(
                seq![tree::SelectItem::Expr { expr: Expr::CountStar, name }],
                table,
                alias,
                where_,
            ),
        )->Ok_0.rows =~= seq![
            seq![
                Datum::Number(
                    crate::number::integer(
                        wanted(s, txn::known_as(table, alias), cat.tables[i], where_).len() as int,
                    ),
                ),
            ],
        ],
{
    reveal(dml::queried);
    let sheet = cat.tables[i];
    let q = txn::known_as(table, alias);
    where_selects_what_is_true(s, q, sheet, where_);
    fewer(sheet.rows, |r: Row| meets(s, q, sheet.columns, where_, r));
}

// ---- UPDATE ----

pub proof fn found_columns(
    columns: Seq<Field>,
    names: Seq<Seq<char>>,
    twice: Failure,
    n: int,
)
    requires
        0 <= n <= names.len(),
        dml::columns_of(columns, names, twice, n) is Ok,
    ensures
        ({
            let out = dml::columns_of(columns, names, twice, n)->Ok_0;
            &&& out.len() == n
            &&& forall|k: int| 0 <= k < n ==> is_column(columns, #[trigger] out[k], names[k])
            &&& forall|a: int, b: int|
                0 <= a < b < n ==> #[trigger] out[a] != #[trigger] out[b]
        }),
    decreases n,
{
    if n > 0 {
        found_columns(columns, names, twice, n - 1);
        found_column(columns, names[n - 1], 0);
        let less = dml::columns_of(columns, names, twice, n - 1)->Ok_0;
        let out = dml::columns_of(columns, names, twice, n)->Ok_0;
        assert forall|a: int, b: int| 0 <= a < b < n implies #[trigger] out[a] != #[trigger] out[b] by {
            if b == n - 1 {
                assert(less.contains(less[a]));
            }
        }
    }
}

/// Whether a row came from another by assignments that all read the row as it was: each
/// column that is assigned holds the stored form of its expression's value there, and
/// every other column what it held.
pub open spec fn reassigned(
    s: Scene,
    qualifier: Seq<char>,
    sheet: Sheet,
    assignments: Seq<(Seq<char>, Expr)>,
    before: Seq<Datum>,
    after: Seq<Datum>,
) -> bool {
    &&& after.len() == before.len()
    &&& forall|j: int, c: int|
        0 <= j < assignments.len() && #[trigger] is_column(
            sheet.columns,
            c,
            (#[trigger] assignments[j]).0,
        ) ==> {
            let v = evaluated(
                dml::in_row(s, qualifier, sheet.columns, before, 0),
                assignments[j].1,
            );
            v is Ok && store::stored_value(
                s.env,
                dml::place_of(s, sheet, sheet.columns[c]),
                sheet.columns[c].sql_type,
                v->Ok_0,
            ) == Ok::<Datum, Failure>(after[c])
        }
    &&& forall|c: int|
        0 <= c < before.len() && (forall|j: int|
            0 <= j < assignments.len() ==> !is_column(
                sheet.columns,
                c,
                (#[trigger] assignments[j]).0,
            )) ==> #[trigger] after[c] == before[c]
}

proof fn assigned_upto(
    s: Scene,
    qualifier: Seq<char>,
    sheet: Sheet,
    targets: Seq<int>,
    assignments: Seq<(Seq<char>, Expr)>,
    row: Seq<Datum>,
    n: int,
)
    requires
        0 <= n <= assignments.len(),
        targets.len() == assignments.len(),
        row.len() == sheet.columns.len(),
        forall|k: int| 0 <= k < targets.len() ==> 0 <= #[trigger] targets[k] < row.len(),
        forall|a: int, b: int|
            0 <= a < b < targets.len() ==> #[trigger] targets[a] != #[trigger] targets[b],
        txn::assigned(s, qualifier, sheet, targets, assignments, row, n) is Ok,
    ensures
        ({
            let new = txn::assigned(s, qualifier, sheet, targets, assignments, row, n)->Ok_0;
            &&& new.len() == row.len()
            &&& forall|j: int|
                0 <= j < n ==> {
                    let v = evaluated(
                        dml::in_row(s, qualifier, sheet.columns, row, 0),
                        assignments[j].1,
                    );
                    let f = sheet.columns[#[trigger] targets[j]];
                    v is Ok && store::stored_value(
                        s.env,
                        dml::place_of(s, sheet, f),
                        f.sql_type,
                        v->Ok_0,
                    ) == Ok::<Datum, Failure>(new[targets[j]])
                }
            &&& forall|c: int|
                0 <= c < row.len() && (forall|j: int| 0 <= j < n ==> #[trigger] targets[j] != c)
                    ==> #[trigger] new[c] == row[c]
        }),
    decreases n,
{
    if n > 0 {
        assigned_upto(s, qualifier, sheet, targets, assignments, row, n - 1);
        assert(0 <= targets[n - 1] < row.len());
    }
}

/// Whether rows are some of a table's, in the order that they have there.
pub open spec fn drawn_from(found: Seq<Row>, rows: Seq<Row>) -> bool {
    &&& catalog::in_order(found)
    &&& forall|k: int| 0 <= k < found.len() ==> rows.contains(#[trigger] found[k])
}

pub proof fn matched_rows(s: Scene, qualifier: Seq<char>, sheet: Sheet, where_: Option<Expr>, n: int)
    requires
        sheet.wf(),
        0 <= n <= sheet.rows.len(),
        dml::matching(s, qualifier, sheet, where_, n) is Ok,
    ensures
        ({
            let found = dml::matching(s, qualifier, sheet, where_, n)->Ok_0;
            &&& drawn_from(found, sheet.rows)
            &&& found.len() > 0 ==> n > 0 && found.last().0 <= sheet.rows[n - 1].0
        }),
    decreases n,
{
    if n > 0 {
        matched_rows(s, qualifier, sheet, where_, n - 1);
        let less = dml::matching(s, qualifier, sheet, where_, n - 1)->Ok_0;
        let found = dml::matching(s, qualifier, sheet, where_, n)->Ok_0;
        assert(sheet.rows.contains(sheet.rows[n - 1]));
        if n > 1 {
            assert(sheet.rows[n - 2].0 < sheet.rows[n - 1].0);
        }
        if found != less {
            assert(found =~= less.push(sheet.rows[n - 1]));
            assert forall|a: int, b: int| 0 <= a < b < found.len() implies (#[trigger] found[a]).0
                < (#[trigger] found[b]).0 by {
                if b == less.len() {
                    assert(less[a].0 <= less.last().0);
                }
            }
        }
    }
}

/// The rows that change under an UPDATE, with what they were and what they are.
pub proof fn rewritten_rows(
    s: Scene,
    qualifier: Seq<char>,
    sheet: Sheet,
    targets: Seq<int>,
    assignments: Seq<(Seq<char>, Expr)>,
    rows: Seq<Row>,
    n: int,
)
    requires
        0 <= n <= rows.len(),
        txn::rewritten(s, qualifier, sheet, targets, assignments, rows, n) is Ok,
    ensures
        ({
            let new = txn::rewritten(s, qualifier, sheet, targets, assignments, rows, n)->Ok_0;
            &&& new.len() == n
            &&& forall|k: int|
                0 <= k < n ==> (#[trigger] new[k]).0 == rows[k].0 && txn::assigned(
                    s,
                    qualifier,
                    sheet,
                    targets,
                    assignments,
                    rows[k].1,
                    assignments.len() as int,
                ) == Ok::<Seq<Datum>, Failure>(new[k].1) && dml::row_refused(
                    s,
                    sheet,
                    new[k].1,
                    true,
                ) is None
        }),
    decreases n,
{
    if n > 0 {
        rewritten_rows(s, qualifier, sheet, targets, assignments, rows, n - 1);
    }
}

// ---- rows as a set ----

/// Rows in the order of their ids are settled by which rows there are.
pub proof fn same_rows(a: Seq<Row>, b: Seq<Row>)
    requires
        catalog::in_order(a),
        catalog::in_order(b),
        forall|x: Row| a.contains(x) <==> b.contains(x),
    ensures
        a == b,
    decreases a.len(),
{
    if a.len() == 0 {
        if b.len() > 0 {
            assert(b.contains(b[0]));
        }
        assert(a =~= b);
    } else {
        assert(a.contains(a.last()));
        assert(b.len() > 0);
        assert(b.contains(b.last()));
        let i = choose|i: int| 0 <= i < a.len() && a[i] == b.last();
        let j = choose|j: int| 0 <= j < b.len() && b[j] == a.last();
        assert(a[i].0 <= a[a.len() - 1].0);
        assert(b[j].0 <= b[b.len() - 1].0);
        assert(a.last() == b.last()) by {
            if i < a.len() - 1 {
                assert(a[i].0 < a[a.len() - 1].0);
            }
        }
        let (c, d) = (a.drop_last(), b.drop_last());
        assert forall|x: Row| c.contains(x) <==> d.contains(x) by {
            if c.contains(x) {
                let k = choose|k: int| 0 <= k < c.len() && c[k] == x;
                assert(a[k] == x && a[k].0 < a[a.len() - 1].0);
                assert(a.contains(x));
                let m = choose|m: int| 0 <= m < b.len() && b[m] == x;
                assert(d[m] == x);
            }
            if d.contains(x) {
                let k = choose|k: int| 0 <= k < d.len() && d[k] == x;
                assert(b[k] == x && b[k].0 < b[b.len() - 1].0);
                assert(b.contains(x));
                let m = choose|m: int| 0 <= m < a.len() && a[m] == x;
                assert(c[m] == x);
            }
        }
        same_rows(c, d);
        assert(a =~= c.push(a.last()));
        assert(b =~= d.push(b.last()));
    }
}

pub proof fn row_of_an_id(rows: Seq<Row>, x: Row, y: Row)
    requires
        catalog::in_order(rows),
        rows.contains(x),
        rows.contains(y),
        x.0 == y.0,
    ensures
        x == y,
{
    let i = choose|i: int| 0 <= i < rows.len() && rows[i] == x;
    let j = choose|j: int| 0 <= j < rows.len() && rows[j] == y;
    if i < j {
        assert(rows[i].0 < rows[j].0);
    } else if j < i {
        assert(rows[j].0 < rows[i].0);
    }
}

/// Placing a row makes it the one of its id, and leaves the others.
pub proof fn rows_with_one_placed(rows: Seq<Row>, id: int, values: Seq<Datum>)
    requires
        catalog::in_order(rows),
    ensures
        catalog::in_order(catalog::placed(rows, id, values)),
        forall|x: Row|
            #![trigger catalog::placed(rows, id, values).contains(x)]
            catalog::placed(rows, id, values).contains(x) <==> x == (id, values) || (
            rows.contains(x) && x.0 != id),
    decreases rows.len(),
{
    let after = catalog::placed(rows, id, values);
    catalog::placed_in_order(rows, id, values);
    if rows.len() == 0 || rows.last().0 < id {
        assert forall|x: Row| after.contains(x) <==> x == (id, values) || (rows.contains(x) && x.0
            != id) by {
            if after.contains(x) {
                let k = choose|k: int| 0 <= k < after.len() && after[k] == x;
                if k < rows.len() {
                    assert(rows[k] == x && rows[k].0 <= rows[rows.len() - 1].0);
                }
            }
            if rows.contains(x) {
                let k = choose|k: int| 0 <= k < rows.len() && rows[k] == x;
                assert(after[k] == x);
            }
            assert(after[rows.len() as int] == (id, values));
        }
    } else if rows.last().0 == id {
        assert forall|x: Row| after.contains(x) <==> x == (id, values) || (rows.contains(x) && x.0
            != id) by {
            if after.contains(x) {
                let k = choose|k: int| 0 <= k < after.len() && after[k] == x;
                if k < rows.len() - 1 {
                    assert(rows[k] == x && rows[k].0 < rows[rows.len() - 1].0);
                }
            }
            if rows.contains(x) && x.0 != id {
                let k = choose|k: int| 0 <= k < rows.len() && rows[k] == x;
                assert(after[k] == x);
            }
            assert(after[rows.len() - 1] == (id, values));
        }
    } else {
        let less = rows.drop_last();
        rows_with_one_placed(less, id, values);
        let b = catalog::placed(less, id, values);
        assert forall|x: Row| after.contains(x) <==> x == (id, values) || (rows.contains(x) && x.0
            != id) by {
            if after.contains(x) {
                let k = choose|k: int| 0 <= k < after.len() && after[k] == x;
                if k < b.len() {
                    assert(b.contains(b[k]));
                    if less.contains(x) {
                        let m = choose|m: int| 0 <= m < less.len() && less[m] == x;
                        assert(rows[m] == x);
                    }
                } else {
                    assert(rows[rows.len() - 1] == x);
                }
            }
            if rows.contains(x) && x.0 != id {
                let k = choose|k: int| 0 <= k < rows.len() && rows[k] == x;
                if k < rows.len() - 1 {
                    assert(less[k] == x);
                    assert(b.contains(x));
                    let m = choose|m: int| 0 <= m < b.len() && b[m] == x;
                    assert(after[m] == x);
                } else {
                    assert(after[after.len() - 1] == x);
                }
            }
            if x == (id, values) {
                assert(b.contains(x));
                let m = choose|m: int| 0 <= m < b.len() && b[m] == x;
                assert(after[m] == x);
            }
        }
    }
}

/// Removing an id takes its row and leaves the others.
pub proof fn rows_with_one_removed(rows: Seq<Row>, id: int)
    requires
        catalog::in_order(rows),
    ensures
        catalog::in_order(catalog::removed(rows, id)),
        forall|x: Row|
            #![trigger catalog::removed(rows, id).contains(x)]
            catalog::removed(rows, id).contains(x) <==> rows.contains(x) && x.0 != id,
    decreases rows.len(),
{
    let after = catalog::removed(rows, id);
    catalog::removed_in_order(rows, id);
    if rows.len() > 0 {
        let less = rows.drop_last();
        if rows.last().0 == id {
            assert forall|x: Row| after.contains(x) <==> rows.contains(x) && x.0 != id by {
                if after.contains(x) {
                    let k = choose|k: int| 0 <= k < after.len() && after[k] == x;
                    assert(rows[k] == x && rows[k].0 < rows[rows.len() - 1].0);
                }
                if rows.contains(x) && x.0 != id {
                    let k = choose|k: int| 0 <= k < rows.len() && rows[k] == x;
                    assert(after[k] == x);
                }
            }
        } else {
            rows_with_one_removed(less, id);
            let b = catalog::removed(less, id);
            assert forall|x: Row| after.contains(x) <==> rows.contains(x) && x.0 != id by {
                if after.contains(x) {
                    let k = choose|k: int| 0 <= k < after.len() && after[k] == x;
                    if k < b.len() {
                        assert(b.contains(b[k]));
                        let m = choose|m: int| 0 <= m < less.len() && less[m] == x;
                        assert(rows[m] == x);
                    } else {
                        assert(rows[rows.len() - 1] == x);
                    }
                }
                if rows.contains(x) && x.0 != id {
                    let k = choose|k: int| 0 <= k < rows.len() && rows[k] == x;
                    if k < rows.len() - 1 {
                        assert(less[k] == x);
                        assert(b.contains(x));
                        let m = choose|m: int| 0 <= m < b.len() && b[m] == x;
                        assert(after[m] == x);
                    } else {
                        assert(after[after.len() - 1] == x);
                    }
                }
            }
        }
    }
}

/// Whether one of the first `n` rows has an id.
pub open spec fn names_id(rows: Seq<Row>, id: int, n: int) -> bool {
    exists|j: int| 0 <= j < n && (#[trigger] rows[j]).0 == id
}

pub proof fn rows_kept(rows: Seq<Row>, changes: Seq<Row>, n: int)
    requires
        catalog::in_order(rows),
        0 <= n <= changes.len(),
    ensures
        catalog::in_order(catalog::kept(rows, changes, n)),
        forall|x: Row|
            #![trigger catalog::kept(rows, changes, n).contains(x)]
            catalog::kept(rows, changes, n).contains(x) <==> rows.contains(x) && !names_id(
                changes,
                x.0,
                n,
            ),
    decreases n,
{
    if n > 0 {
        rows_kept(rows, changes, n - 1);
        let less = catalog::kept(rows, changes, n - 1);
        rows_with_one_removed(less, changes[n - 1].0);
        let after = catalog::kept(rows, changes, n);
        assert forall|x: Row| after.contains(x) <==> rows.contains(x) && !names_id(changes, x.0, n) by {
            assert(after.contains(x) <==> less.contains(x) && x.0 != changes[n - 1].0);
            if names_id(changes, x.0, n) && x.0 != changes[n - 1].0 {
                assert(names_id(changes, x.0, n - 1));
            }
            if names_id(changes, x.0, n - 1) {
                assert(names_id(changes, x.0, n));
            }
            if x.0 == changes[n - 1].0 {
                assert(names_id(changes, x.0, n));
            }
        }
    } else {
        assert forall|x: Row| !names_id(changes, x.0, 0) by {}
    }
}

/// Whether no two rows have the same id.
pub open spec fn ids_apart(rows: Seq<Row>) -> bool {
    forall|a: int, b: int|
        0 <= a < rows.len() && 0 <= b < rows.len() && a != b ==> (#[trigger] rows[a]).0 != (
        #[trigger] rows[b]).0
}

pub proof fn rows_changed(
    rules: Seq<Rule>,
    all: Seq<Row>,
    start: Seq<Row>,
    changes: Seq<Row>,
    n: int,
)
    requires
        catalog::in_order(start),
        0 <= n <= changes.len(),
        ids_apart(changes),
        forall|j: int| 0 <= j < changes.len() ==> catalog::has_row(all, (#[trigger] changes[j]).0),
        catalog::changed(rules, all, start, changes, n) is Ok,
    ensures
        ({
            let after = catalog::changed(rules, all, start, changes, n)->Ok_0;
            &&& catalog::in_order(after)
            &&& forall|x: Row|
                #![trigger after.contains(x)]
                after.contains(x) <==> (start.contains(x) && !names_id(changes, x.0, n))
                    || changes.take(n).contains(x)
        }),
    decreases n,
{
    if n > 0 {
        rows_changed(rules, all, start, changes, n - 1);
        let less = catalog::changed(rules, all, start, changes, n - 1)->Ok_0;
        assert(catalog::has_row(all, changes[n - 1].0));
        rows_with_one_placed(less, changes[n - 1].0, changes[n - 1].1);
        let after = catalog::changed(rules, all, start, changes, n)->Ok_0;
        assert(after == catalog::placed(less, changes[n - 1].0, changes[n - 1].1));
        assert forall|x: Row| after.contains(x) <==> (start.contains(x) && !names_id(
            changes,
            x.0,
            n,
        )) || changes.take(n).contains(x) by {
            assert(after.contains(x) <==> x == changes[n - 1] || (less.contains(x) && x.0
                != changes[n - 1].0));
            if names_id(changes, x.0, n) && x.0 != changes[n - 1].0 {
                assert(names_id(changes, x.0, n - 1));
            }
            if names_id(changes, x.0, n - 1) {
                assert(names_id(changes, x.0, n));
            }
            if x.0 == changes[n - 1].0 {
                assert(names_id(changes, x.0, n));
            }
            if changes.take(n).contains(x) {
                let now = changes.take(n);
                let k = choose|k: int| 0 <= k < now.len() && now[k] == x;
                if k < n - 1 {
                    assert(changes.take(n - 1)[k] == x);
                    assert(changes[k].0 != changes[n - 1].0);
                }
            }
            if changes.take(n - 1).contains(x) {
                let was = changes.take(n - 1);
                let k = choose|k: int| 0 <= k < was.len() && was[k] == x;
                assert(changes.take(n)[k] == x);
                assert(changes[k].0 != changes[n - 1].0);
            }
            assert(changes.take(n)[n - 1] == changes[n - 1]);
        }
    } else {
        assert forall|x: Row| start.contains(x) <==> (start.contains(x) && !names_id(
            changes,
            x.0,
            0,
        )) || changes.take(0).contains(x) by {
            assert(changes.take(0).len() == 0);
        }
    }
}

/// Giving rows new values replaces those rows and leaves the others.
pub proof fn rows_are_replaced(sheet: Sheet, changes: Seq<Row>)
    requires
        sheet.wf(),
        ids_apart(changes),
        forall|j: int|
            0 <= j < changes.len() ==> catalog::has_row(sheet.rows, (#[trigger] changes[j]).0),
        sheet.updated(changes) is Ok,
    ensures
        ({
            let after = sheet.updated(changes)->Ok_0;
            &&& after == (Sheet { rows: after.rows, ..sheet })
            &&& catalog::in_order(after.rows)
            &&& forall|x: Row|
                #![trigger after.rows.contains(x)]
                after.rows.contains(x) <==> (sheet.rows.contains(x) && !names_id(
                    changes,
                    x.0,
                    changes.len() as int,
                )) || changes.contains(x)
        }),
{
    let n = changes.len() as int;
    rows_kept(sheet.rows, changes, n);
    let start = catalog::kept(sheet.rows, changes, n);
    rows_changed(sheet.rules, sheet.rows, start, changes, n);
    assert(changes.take(n) =~= changes);
    let after = sheet.updated(changes)->Ok_0;
    assert forall|x: Row| after.rows.contains(x) <==> (sheet.rows.contains(x) && !names_id(
        changes,
        x.0,
        n,
    )) || changes.contains(x) by {
        assert(start.contains(x) <==> sheet.rows.contains(x) && !names_id(changes, x.0, n));
    }
}

/// What an UPDATE that succeeds does: each row that it selects keeps its id and is
/// reassigned over what it was before the statement, every other row stays, and none comes
/// or goes.
pub proof fn an_update_reads_rows_as_they_were(
    cat: Cat,
    tally: Tally,
    s: Scene,
    upd: tree::Update,
    i: int,
)
    requires
        cat.wf(),
        cat.table(upd.table) == Some(i),
        0 <= i < cat.tables.len(),
        txn::update_effect(cat, tally, s, upd).result is Ok,
    ensures
        ({
            let e = txn::update_effect(cat, tally, s, upd);
            let q = txn::known_as(upd.table, upd.alias);
            let sheet = cat.tables[i];
            let found = dml::matching(s, q, sheet, upd.where_, sheet.rows.len() as int)->Ok_0;
            let after = e.work.tables[i].rows;
            &&& e.work == cat.with_table(i, Sheet { rows: after, ..sheet })
            &&& e.tally == tally
            &&& catalog::in_order(after)
            &&& e.result->Ok_0.0 == found.len()
            &&& forall|x: Row| #[trigger]
                sheet.rows.contains(x) && !found.contains(x) ==> after.contains(x)
            &&& forall|x: Row| #[trigger]
                found.contains(x) ==> sheet.rows.contains(x) && exists|y: Row| #[trigger]
                    after.contains(y) && y.0 == x.0 && reassigned(
                        s,
                        q,
                        sheet,
                        upd.assignments,
                        x.1,
                        y.1,
                    )
            &&& forall|y: Row| #[trigger]
                after.contains(y) ==> catalog::has_row(sheet.rows, y.0)
            &&& (upd.where_ matches Some(w) ==> no_row_number(s, q, sheet, w)) ==> found == wanted(
                s,
                q,
                sheet,
                upd.where_,
            )
        }),
{
    let e = txn::update_effect(cat, tally, s, upd);
    let q = txn::known_as(upd.table, upd.alias);
    let sheet = cat.tables[i];
    assert(sheet.wf());
    let names = txn::assigned_names(upd.assignments);
    let total = names.len() as int;
    let targets = dml::columns_of(sheet.columns, names, txn::bad_column_list(), total)->Ok_0;
    found_columns(sheet.columns, names, txn::bad_column_list(), total);
    let found = dml::matching(s, q, sheet, upd.where_, sheet.rows.len() as int)->Ok_0;
    matched_rows(s, q, sheet, upd.where_, sheet.rows.len() as int);
    let new = txn::rewritten(
        s,
        q,
        sheet,
        targets,
        upd.assignments,
        found,
        found.len() as int,
    )->Ok_0;
    rewritten_rows(s, q, sheet, targets, upd.assignments, found, found.len() as int);
    new_rows_name_old_ones(sheet, found, new);
    rows_are_replaced(sheet, new);
    let after = e.work.tables[i].rows;
    assert(e.work == cat.with_table(i, Sheet { rows: after, ..sheet }));
    assert forall|x: Row| #[trigger] sheet.rows.contains(x) && !found.contains(x) implies after.contains(
        x,
    ) by {
        if names_id(new, x.0, new.len() as int) {
            let j = choose|j: int| 0 <= j < new.len() && (#[trigger] new[j]).0 == x.0;
            assert(found.contains(found[j]));
            row_of_an_id(sheet.rows, x, found[j]);
        }
    }
    assert forall|x: Row| #[trigger] found.contains(x) implies sheet.rows.contains(x) && exists|
        y: Row,
    | #[trigger]
        after.contains(y) && y.0 == x.0 && reassigned(s, q, sheet, upd.assignments, x.1, y.1) by {
        let j = choose|j: int| 0 <= j < found.len() && found[j] == x;
        let k = choose|k: int| 0 <= k < sheet.rows.len() && sheet.rows[k] == x;
        assert(sheet.rows.contains(found[j]));
        assert(sheet.rows[k].1.len() == sheet.columns.len());
        assert(new.contains(new[j]));
        assert(after.contains(new[j]));
        assigned_row(s, q, sheet, targets, upd.assignments, x.1, new[j].1);
    }
    assert forall|y: Row| #[trigger] after.contains(y) implies catalog::has_row(sheet.rows, y.0) by {
        if sheet.rows.contains(y) {
            let k = choose|k: int| 0 <= k < sheet.rows.len() && sheet.rows[k] == y;
            assert(sheet.rows[k].0 == y.0);
        } else {
            let k = choose|k: int| 0 <= k < new.len() && new[k] == y;
            assert(catalog::has_row(sheet.rows, new[k].0));
        }
    }
    if upd.where_ matches Some(w) ==> no_row_number(s, q, sheet, w) {
        where_selects_what_is_true(s, q, sheet, upd.where_);
    }
}

pub proof fn new_rows_name_old_ones(sheet: Sheet, found: Seq<Row>, new: Seq<Row>)
    requires
        drawn_from(found, sheet.rows),
        new.len() == found.len(),
        forall|k: int| 0 <= k < new.len() ==> (#[trigger] new[k]).0 == found[k].0,
    ensures
        ids_apart(new),
        forall|j: int| 0 <= j < new.len() ==> catalog::has_row(sheet.rows, (#[trigger] new[j]).0),
{
    assert forall|a: int, b: int| 0 <= a < new.len() && 0 <= b < new.len() && a != b implies (
    #[trigger] new[a]).0 != (#[trigger] new[b]).0 by {
        if a < b {
            assert(found[a].0 < found[b].0);
        } else {
            assert(found[b].0 < found[a].0);
        }
    }
    assert forall|j: int| 0 <= j < new.len() implies catalog::has_row(
        sheet.rows,
        (#[trigger] new[j]).0,
    ) by {
        assert(sheet.rows.contains(found[j]));
        let k = choose|k: int| 0 <= k < sheet.rows.len() && sheet.rows[k] == found[j];
        assert(sheet.rows[k].0 == new[j].0);
    }
}

pub proof fn assigned_row(
    s: Scene,
    q: Seq<char>,
    sheet: Sheet,
    targets: Seq<int>,
    assignments: Seq<(Seq<char>, Expr)>,
    row: Seq<Datum>,
    new: Seq<Datum>,
)
    requires
        row.len() == sheet.columns.len(),
        targets.len() == assignments.len(),
        forall|k: int|
            0 <= k < targets.len() ==> is_column(
                sheet.columns,
                #[trigger] targets[k],
                txn::assigned_names(assignments)[k],
            ),
        forall|a: int, b: int|
            0 <= a < b < targets.len() ==> #[trigger] targets[a] != #[trigger] targets[b],
        txn::assigned(s, q, sheet, targets, assignments, row, assignments.len() as int) == Ok::<
            Seq<Datum>,
            Failure,
        >(new),
    ensures
        reassigned(s, q, sheet, assignments, row, new),
{
    assigned_upto(s, q, sheet, targets, assignments, row, assignments.len() as int);
    assert forall|j: int, c: int|
        0 <= j < assignments.len() && #[trigger] is_column(
            sheet.columns,
            c,
            (#[trigger] assignments[j]).0,
        ) implies {
        let v = evaluated(dml::in_row(s, q, sheet.columns, row, 0), assignments[j].1);
        v is Ok && store::stored_value(
            s.env,
            dml::place_of(s, sheet, sheet.columns[c]),
            sheet.columns[c].sql_type,
            v->Ok_0,
        ) == Ok::<Datum, Failure>(new[c])
    } by {
        let t = targets[j];
        assert(is_column(sheet.columns, t, assignments[j].0));
        if t < c {
            assert(sheet.columns[t].name != assignments[j].0);
        } else if c < t {
            assert(sheet.columns[c].name != assignments[j].0);
        }
    }
    assert forall|c: int|
        0 <= c < row.len() && (forall|j: int|
            0 <= j < assignments.len() ==> !is_column(
                sheet.columns,
                c,
                (#[trigger] assignments[j]).0,
            )) implies #[trigger] new[c] == row[c] by {
        assert forall|j: int| 0 <= j < assignments.len() implies #[trigger] targets[j] != c by {
            assert(!is_column(sheet.columns, c, assignments[j].0));
        }
    }
}

/// The order in which assignments are written does not matter to the row that they make.
pub proof fn the_order_of_assignments_does_not_matter(
    s: Scene,
    q: Seq<char>,
    sheet: Sheet,
    one: Seq<(Seq<char>, Expr)>,
    other: Seq<(Seq<char>, Expr)>,
    before: Seq<Datum>,
    x: Seq<Datum>,
    y: Seq<Datum>,
)
    requires
        before.len() == sheet.columns.len(),
        forall|a: (Seq<char>, Expr)| one.contains(a) <==> other.contains(a),
        reassigned(s, q, sheet, one, before, x),
        reassigned(s, q, sheet, other, before, y),
    ensures
        x == y,
{
    assert forall|c: int| 0 <= c < before.len() implies x[c] == y[c] by {
        if exists|j: int|
            0 <= j < one.len() && is_column(sheet.columns, c, (#[trigger] one[j]).0) {
            let j = choose|j: int|
                0 <= j < one.len() && is_column(sheet.columns, c, (#[trigger] one[j]).0);
            assert(one.contains(one[j]));
            let k = choose|k: int| 0 <= k < other.len() && other[k] == one[j];
            assert(is_column(sheet.columns, c, other[k].0));
        } else {
            assert forall|k: int| 0 <= k < other.len() implies !is_column(
                sheet.columns,
                c,
                (#[trigger] other[k]).0,
            ) by {
                assert(other.contains(other[k]));
                let j = choose|j: int| 0 <= j < one.len() && one[j] == other[k];
                assert(!is_column(sheet.columns, c, one[j].0));
            }
            assert(x[c] == before[c] && y[c] == before[c]);
        }
    }
    assert(x =~= y);
}

// ---- DELETE ----

pub proof fn rows_taken_out(sheet: Sheet, rows: Seq<Row>, n: int)
    requires
        sheet.wf(),
        0 <= n <= rows.len(),
    ensures
        ({
            let after = txn::without_rows(sheet, rows, n);
            &&& after == (Sheet { rows: after.rows, ..sheet })
            &&& catalog::in_order(after.rows)
            &&& forall|x: Row|
                #![trigger after.rows.contains(x)]
                after.rows.contains(x) <==> sheet.rows.contains(x) && !names_id(rows, x.0, n)
        }),
    decreases n,
{
    if n > 0 {
        rows_taken_out(sheet, rows, n - 1);
        let less = txn::without_rows(sheet, rows, n - 1);
        rows_with_one_removed(less.rows, rows[n - 1].0);
        let after = txn::without_rows(sheet, rows, n);
        assert forall|x: Row| after.rows.contains(x) <==> sheet.rows.contains(x) && !names_id(
            rows,
            x.0,
            n,
        ) by {
            assert(after.rows.contains(x) <==> less.rows.contains(x) && x.0 != rows[n - 1].0);
            if names_id(rows, x.0, n) && x.0 != rows[n - 1].0 {
                assert(names_id(rows, x.0, n - 1));
            }
            if names_id(rows, x.0, n - 1) {
                assert(names_id(rows, x.0, n));
            }
            if x.0 == rows[n - 1].0 {
                assert(names_id(rows, x.0, n));
            }
        }
    } else {
        assert forall|x: Row| !names_id(rows, x.0, 0) by {}
    }
}

/// What a DELETE that succeeds does: the rows that it selects are gone, and the others stay.
pub proof fn a_delete_takes_out_what_it_selects(
    cat: Cat,
    tally: Tally,
    s: Scene,
    del: tree::Delete,
    i: int,
)
    requires
        cat.wf(),
        cat.table(del.table) == Some(i),
        0 <= i < cat.tables.len(),
        txn::delete_effect(cat, tally, s, del).result is Ok,
    ensures
        ({
            let e = txn::delete_effect(cat, tally, s, del);
            let q = txn::known_as(del.table, del.alias);
            let sheet = cat.tables[i];
            let found = dml::matching(s, q, sheet, del.where_, sheet.rows.len() as int)->Ok_0;
            let after = e.work.tables[i].rows;
            &&& e.work == cat.with_table(i, Sheet { rows: after, ..sheet })
            &&& e.tally == tally
            &&& catalog::in_order(after)
            &&& e.result->Ok_0.0 == found.len()
            &&& forall|x: Row|
                #![trigger after.contains(x)]
                after.contains(x) <==> sheet.rows.contains(x) && !found.contains(x)
            &&& (del.where_ matches Some(w) ==> no_row_number(s, q, sheet, w)) ==> found == wanted(
                s,
                q,
                sheet,
                del.where_,
            )
        }),
{
    let e = txn::delete_effect(cat, tally, s, del);
    let q = txn::known_as(del.table, del.alias);
    let sheet = cat.tables[i];
    assert(sheet.wf());
    let found = dml::matching(s, q, sheet, del.where_, sheet.rows.len() as int)->Ok_0;
    matched_rows(s, q, sheet, del.where_, sheet.rows.len() as int);
    rows_taken_out(sheet, found, found.len() as int);
    let after = e.work.tables[i].rows;
    assert forall|x: Row| after.contains(x) <==> sheet.rows.contains(x) && !found.contains(x) by {
        if sheet.rows.contains(x) && names_id(found, x.0, found.len() as int) {
            let j = choose|j: int| 0 <= j < found.len() && (#[trigger] found[j]).0 == x.0;
            row_of_an_id(sheet.rows, x, found[j]);
            assert(found.contains(x));
        }
        if found.contains(x) {
            let j = choose|j: int| 0 <= j < found.len() && found[j] == x;
            assert(names_id(found, x.0, found.len() as int));
        }
    }
    if del.where_ matches Some(w) ==> no_row_number(s, q, sheet, w) {
        where_selects_what_is_true(s, q, sheet, del.where_);
    }
}

// ---- INSERT ----

proof fn item_widths(
    s: Scene,
    q: Seq<char>,
    columns: Seq<Field>,
    items: Seq<tree::SelectItem>,
    values: Seq<Datum>,
    rows: Seq<Seq<Datum>>,
    n: int,
)
    requires
        0 <= n <= items.len(),
        values.len() == columns.len(),
        dml::projected(s, q, items, values, n) is Ok,
    ensures
        dml::projected(s, q, items, values, n)->Ok_0.len() == dml::heading(
            columns,
            items,
            rows,
            n,
        ).len(),
    decreases n,
{
    if n > 0 {
        item_widths(s, q, columns, items, values, rows, n - 1);
    }
}

proof fn shown_widths(
    s: Scene,
    q: Seq<char>,
    columns: Seq<Field>,
    items: Seq<tree::SelectItem>,
    found: Seq<Row>,
    rows: Seq<Seq<Datum>>,
    n: int,
)
    requires
        0 <= n <= found.len(),
        forall|k: int| 0 <= k < found.len() ==> (#[trigger] found[k]).1.len() == columns.len(),
        dml::selected(s, q, columns, items, found, n) is Ok,
    ensures
        forall|k: int|
            0 <= k < dml::selected(s, q, columns, items, found, n)->Ok_0.len() ==> (
            #[trigger] dml::selected(s, q, columns, items, found, n)->Ok_0[k]).len()
                == dml::heading(columns, items, rows, items.len() as int).len(),
    decreases n,
{
    if n > 0 {
        shown_widths(s, q, columns, items, found, rows, n - 1);
        let here = dml::in_row(s, q, columns, found[n - 1].1, dml::capped(n - 1));
        item_widths(here, q, columns, items, found[n - 1].1, rows, items.len() as int);
    }
}

/// The rows of a query are as wide as it has columns.
pub proof fn an_answer_is_as_wide_as_its_heading(cat: Cat, s: Scene, q: tree::Query)
    requires
        cat.wf(),
        dml::queried(cat, s, q) is Ok,
    ensures
        forall|k: int|
            0 <= k < dml::queried(cat, s, q)->Ok_0.rows.len() ==> (#[trigger] dml::queried(
                cat,
                s,
                q,
            )->Ok_0.rows[k]).len() == dml::queried(cat, s, q)->Ok_0.columns.len(),
{
    reveal(dml::queried);
    let sel = dml::plain_select(q)->0;
    let name = sel.from[0].factor->Table_name;
    let known = match sel.from[0].factor->Table_alias {
        Some(a) => a,
        None => name,
    };
    let sheet = dml::read_table(cat, name)->Ok_0;
    assert(sheet.wf()) by {
        match cat.table(name) {
            Some(i) => {
                txn::found_table(cat.tables, name, 0);
                assert(cat.tables[i].wf());
            },
            None => {},
        }
    }
    let found = dml::matching(s, known, sheet, sel.where_, sheet.rows.len() as int)->Ok_0;
    matched_rows(s, known, sheet, sel.where_, sheet.rows.len() as int);
    assert forall|k: int| 0 <= k < found.len() implies (#[trigger] found[k]).1.len()
        == sheet.columns.len() by {
        let j = choose|j: int| 0 <= j < sheet.rows.len() && sheet.rows[j] == found[k];
        assert(sheet.rows.contains(found[k]));
        assert(sheet.rows[j].1.len() == sheet.columns.len());
    }
    if !dml::counts(sel.items) {
        let rows = dml::selected(
            s,
            known,
            sheet.columns,
            sel.items,
            found,
            found.len() as int,
        )->Ok_0;
        shown_widths(s, known, sheet.columns, sel.items, found, rows, found.len() as int);
    }
}

/// How many rows an INSERT has values for.
pub open spec fn source_rows(cat: Cat, s: Scene, source: tree::InsertSource) -> int {
    match source {
        tree::InsertSource::Values(_) => 1,
        tree::InsertSource::Query(q) => dml::queried(cat, s, *q)->Ok_0.rows.len() as int,
    }
}

/// The value that an INSERT has at a place of a row: that of an expression, or one that
/// its query gave.
pub open spec fn source_value(
    cat: Cat,
    s: Scene,
    source: tree::InsertSource,
    k: int,
    j: int,
) -> Datum {
    match source {
        tree::InsertSource::Values(exprs) => evaluated(s, exprs[j])->Ok_0,
        tree::InsertSource::Query(q) => dml::queried(cat, s, *q)->Ok_0.rows[k][j],
    }
}

/// Whether the value at a place of what is inserted is for a column.
pub open spec fn goes_to(
    columns: Seq<Field>,
    names: Option<Seq<Seq<char>>>,
    j: int,
    c: int,
) -> bool {
    match names {
        None => j == c && 0 <= c < columns.len(),
        Some(n) => 0 <= j < n.len() && is_column(columns, c, n[j]),
    }
}

/// Whether a row holds what an INSERT has for it. A column that a value goes to holds the
/// stored form of that, unless it is NULL and the column an identity; another column holds
/// its default, or NULL when it has none.
pub open spec fn entered(
    cat: Cat,
    s: Scene,
    sheet: Sheet,
    ins: tree::Insert,
    k: int,
    row: Seq<Datum>,
) -> bool {
    &&& row.len() == sheet.columns.len()
    &&& forall|j: int, c: int| #[trigger]
        goes_to(sheet.columns, ins.columns, j, c) && !(sheet.columns[c].identity && source_value(
            cat,
            s,
            ins.source,
            k,
            j,
        ) is Null) ==> store::stored_value(
            s.env,
            dml::place_of(s, sheet, sheet.columns[c]),
            sheet.columns[c].sql_type,
            source_value(cat, s, ins.source, k, j),
        ) == Ok::<Datum, Failure>(row[c])
    &&& forall|c: int|
        0 <= c < row.len() && !sheet.columns[c].identity && (forall|j: int|
            !#[trigger] goes_to(sheet.columns, ins.columns, j, c)) ==> match sheet.columns[c].default {
            Some(d) => evaluated(s, d) is Ok && store::stored_value(
                s.env,
                dml::place_of(s, sheet, sheet.columns[c]),
                sheet.columns[c].sql_type,
                evaluated(s, d)->Ok_0,
            ) == Ok::<Datum, Failure>(#[trigger] row[c]),
            None => row[c] is Null,
        }
}

/// Whether a row has no NULL in a column that allows none, and no CHECK that is FALSE of it.
pub open spec fn permitted(s: Scene, sheet: Sheet, row: Seq<Datum>) -> bool {
    &&& forall|c: int|
        0 <= c < sheet.columns.len() && (#[trigger] sheet.columns[c]).not_null ==> !(row[c] is Null)
    &&& forall|k: int|
        0 <= k < sheet.rules.len() && (#[trigger] sheet.rules[k]).kind is Check ==> {
            let t = evaluated(
                dml::in_row(s, sheet.name, sheet.columns, row, 0),
                sheet.rules[k].kind->Check_0,
            );
            t is Ok && (is_true(t) || t->Ok_0 is Null)
        }
}

proof fn nulls_upto(user: Seq<char>, sheet: Sheet, row: Seq<Datum>, updating: bool, i: int)
    requires
        0 <= i <= sheet.columns.len(),
    ensures
        dml::null_refused(user, sheet, row, updating, i) is None <==> forall|c: int|
            i <= c < sheet.columns.len() && (#[trigger] sheet.columns[c]).not_null ==> !(
            row[c] is Null),
    decreases sheet.columns.len() - i,
{
    if i < sheet.columns.len() {
        nulls_upto(user, sheet, row, updating, i + 1);
    }
}

proof fn checks_upto(s: Scene, sheet: Sheet, row: Seq<Datum>, i: int)
    requires
        0 <= i <= sheet.rules.len(),
    ensures
        dml::check_refused(s, sheet, row, i) is None <==> forall|k: int|
            i <= k < sheet.rules.len() && (#[trigger] sheet.rules[k]).kind is Check ==> {
                let t = evaluated(
                    dml::in_row(s, sheet.name, sheet.columns, row, 0),
                    sheet.rules[k].kind->Check_0,
                );
                t is Ok && (is_true(t) || t->Ok_0 is Null)
            },
    decreases sheet.rules.len() - i,
{
    if i < sheet.rules.len() {
        checks_upto(s, sheet, row, i + 1);
    }
}

/// A row is refused, on INSERT and on UPDATE alike, when it breaks a NOT NULL or a CHECK,
/// and not otherwise. A CHECK that is unknown is not broken.
pub proof fn rows_are_refused_for_a_reason(
    s: Scene,
    sheet: Sheet,
    row: Seq<Datum>,
    updating: bool,
)
    ensures
        dml::row_refused(s, sheet, row, updating) is None <==> permitted(s, sheet, row),
{
    reveal(dml::row_refused);
    nulls_upto(s.env.user, sheet, row, updating, 0);
    checks_upto(s, sheet, row, 0);
}

/// Values are refused for a key exactly when a unique rule has a row, other than their own,
/// with the same key; a key of NULLs alone is no key.
pub proof fn keys_are_refused_for_a_reason(
    rules: Seq<Rule>,
    rows: Seq<Row>,
    values: Seq<Datum>,
    own: Option<int>,
)
    ensures
        catalog::conflict(rules, rows, values, own, 0) is Some <==> exists|r: int, k: int|
            0 <= r < rules.len() && 0 <= k < rows.len() && #[trigger] same_key(
                rules[r],
                rows[k],
                values,
            ) && Some(rows[k].0) != own,
{
    conflicts_from(rules, rows, values, own, 0);
}

/// Whether a unique rule has the same key for a row and for some values.
pub open spec fn same_key(rule: Rule, row: Row, values: Seq<Datum>) -> bool {
    match rule.kind {
        RuleKind::Unique { columns, .. } => {
            &&& forall|i: int| 0 <= i < columns.len() ==> row.1[#[trigger] columns[i]]
                == values[columns[i]]
            &&& exists|i: int| 0 <= i < columns.len() && !(values[#[trigger] columns[i]] is Null)
        },
        _ => false,
    }
}

pub proof fn clash_is_same_key(rule: Rule, row: Row, values: Seq<Datum>)
    requires
        rule.kind is Unique,
    ensures
        catalog::clash(rule.kind->columns, row.1, values) == same_key(rule, row, values),
{
    let columns = rule.kind->columns;
    let a = catalog::unique_key(columns, row.1);
    let b = catalog::unique_key(columns, values);
    if same_key(rule, row, values) {
        let i = choose|i: int| 0 <= i < columns.len() && !(values[#[trigger] columns[i]] is Null);
        assert(row.1[columns[i]] == values[columns[i]]);
        assert(a is Some && b is Some);
        assert(a->0 =~= b->0);
    }
    if catalog::clash(columns, row.1, values) {
        assert forall|i: int| 0 <= i < columns.len() implies row.1[#[trigger] columns[i]]
            == values[columns[i]] by {
            assert(a->0[i] == b->0[i]);
        }
    }
}

proof fn conflicts_from(
    rules: Seq<Rule>,
    rows: Seq<Row>,
    values: Seq<Datum>,
    own: Option<int>,
    i: int,
)
    requires
        0 <= i <= rules.len(),
    ensures
        catalog::conflict(rules, rows, values, own, i) is Some <==> exists|r: int, k: int|
            i <= r < rules.len() && 0 <= k < rows.len() && #[trigger] same_key(
                rules[r],
                rows[k],
                values,
            ) && Some(rows[k].0) != own,
    decreases rules.len() - i,
{
    if i < rules.len() {
        conflicts_from(rules, rows, values, own, i + 1);
        let rule = rules[i];
        if rule.kind is Unique {
            assert forall|k: int| 0 <= k < rows.len() implies #[trigger] same_key(
                rule,
                rows[k],
                values,
            ) == catalog::clash(rule.kind->columns, rows[k].1, values) by {
                clash_is_same_key(rule, rows[k], values);
            }
            if catalog::forbids(rule, rows, values, own) {
                let k = choose|k: int|
                    0 <= k < rows.len() && Some(#[trigger] rows[k].0) != own && catalog::clash(
                        rule.kind->columns,
                        rows[k].1,
                        values,
                    );
                assert(same_key(rules[i], rows[k], values));
            } else {
                assert forall|k: int|
                    0 <= k < rows.len() && Some(rows[k].0) != own implies !#[trigger] same_key(
                    rules[i],
                    rows[k],
                    values,
                ) by {
                    assert(Some(rows[k].0) != own);
                }
            }
        }
    }
}

proof fn place_found(v: Seq<int>, x: int, i: int)
    requires
        0 <= i,
    ensures
        match dml::position_from(v, x, i) {
            Some(k) => i <= k < v.len() && v[k] == x,
            None => forall|k: int| i <= k < v.len() ==> #[trigger] v[k] != x,
        },
    decreases v.len() - i,
{
    if i < v.len() && v[i] != x {
        place_found(v, x, i + 1);
    }
}

pub proof fn built_columns(
    s: Scene,
    sheet: Sheet,
    tally: Tally,
    targets: Seq<int>,
    src: Seq<Datum>,
    n: int,
)
    requires
        0 <= n <= sheet.columns.len(),
        dml::built(s, sheet, tally, targets, src, n).failure is None,
    ensures
        ({
            let b = dml::built(s, sheet, tally, targets, src, n);
            &&& b.tally.next_row == tally.next_row
            &&& b.row.len() == n
            &&& forall|c: int|
                0 <= c < n ==> {
                    let f = sheet.columns[c];
                    match dml::given(targets, src, c) {
                        Some(v) => !(f.identity && v is Null) ==> store::stored_value(
                            s.env,
                            dml::place_of(s, sheet, f),
                            f.sql_type,
                            v,
                        ) == Ok::<Datum, Failure>(#[trigger] b.row[c]),
                        None => !f.identity ==> match f.default {
                            Some(d) => evaluated(s, d) is Ok && store::stored_value(
                                s.env,
                                dml::place_of(s, sheet, f),
                                f.sql_type,
                                evaluated(s, d)->Ok_0,
                            ) == Ok::<Datum, Failure>(b.row[c]),
                            None => b.row[c] is Null,
                        },
                    }
                }
        }),
    decreases n,
{
    reveal(store::stored_value);
    if n > 0 {
        built_columns(s, sheet, tally, targets, src, n - 1);
    }
}

pub proof fn built_all(
    s: Scene,
    sheet: Sheet,
    tally: Tally,
    targets: Seq<int>,
    src: Seq<Seq<Datum>>,
    n: int,
)
    requires
        0 <= n <= src.len(),
        dml::built_rows(s, sheet, tally, targets, src, n).failure is None,
    ensures
        ({
            let b = dml::built_rows(s, sheet, tally, targets, src, n);
            &&& b.tally.next_row == tally.next_row
            &&& b.rows.len() == n
            &&& forall|k: int|
                0 <= k < n ==> dml::row_refused(s, sheet, #[trigger] b.rows[k], false) is None
                    && exists|t: Tally|
                    {
                        let x = #[trigger] dml::built(
                            s,
                            sheet,
                            t,
                            targets,
                            src[k],
                            sheet.columns.len() as int,
                        );
                        x.failure is None && x.row == b.rows[k]
                    }
        }),
    decreases n,
{
    if n > 0 {
        built_all(s, sheet, tally, targets, src, n - 1);
        let r = dml::built_rows(s, sheet, tally, targets, src, n - 1);
        built_columns(s, sheet, r.tally, targets, src[n - 1], sheet.columns.len() as int);
        let x = dml::built(
            s,
            sheet,
            r.tally,
            targets,
            src[n - 1],
            sheet.columns.len() as int,
        );
        assert(x.failure is None);
    }
}

pub proof fn rows_put_in(user: Seq<char>, sheet: Sheet, first: int, rows: Seq<Seq<Datum>>, n: int)
    requires
        0 <= n <= rows.len(),
        forall|k: int| 0 <= k < sheet.rows.len() ==> (#[trigger] sheet.rows[k]).0 < first,
        dml::filled(user, sheet, first, rows, n).failure is None,
    ensures
        ({
            let f = dml::filled(user, sheet, first, rows, n);
            &&& f.next_row == first + n
            &&& f.sheet == (Sheet {
                rows: sheet.rows + Seq::new(n as nat, |k: int| (first + k, rows[k])),
                ..sheet
            })
        }),
    decreases n,
{
    if n > 0 {
        rows_put_in(user, sheet, first, rows, n - 1);
        let less = dml::filled(user, sheet, first, rows, n - 1).sheet;
        assert(less.rows.len() == 0 || less.rows.last().0 < first + n - 1);
        assert(less.rows.push((first + n - 1, rows[n - 1])) =~= sheet.rows + Seq::new(
            n as nat,
            |k: int| (first + k, rows[k]),
        ));
    } else {
        assert(sheet.rows + Seq::new(0, |k: int| (first + k, rows[k])) =~= sheet.rows);
    }
}

/// The values of expressions are theirs, one by one.
pub proof fn values_of_all(s: Scene, es: Seq<Expr>, n: int)
    requires
        0 <= n <= es.len(),
        eval::evaluated_upto(s, es, n) is Ok,
    ensures
        eval::evaluated_upto(s, es, n)->Ok_0.len() == n,
        forall|j: int|
            0 <= j < n ==> evaluated(s, #[trigger] es[j]) == Ok::<Datum, Failure>(
                eval::evaluated_upto(s, es, n)->Ok_0[j],
            ),
    decreases n,
{
    eval::one_more_value(s, es, n);
    if n > 0 {
        values_of_all(s, es, n - 1);
    }
}

/// What an INSERT that succeeds does: its rows stand behind those of the table, in their
/// order and under new ids, each holds what was given for it, and none breaks a rule.
pub proof fn an_insert_adds_the_rows_it_is_given(
    cat: Cat,
    tally: Tally,
    s: Scene,
    ins: tree::Insert,
    i: int,
)
    requires
        cat.wf(),
        cat.table(ins.table) == Some(i),
        0 <= i < cat.tables.len(),
        forall|k: int|
            0 <= k < cat.tables[i].rows.len() ==> (#[trigger] cat.tables[i].rows[k]).0
                < tally.next_row,
        txn::insert_effect(cat, tally, s, ins).result is Ok,
    ensures
        ({
            let e = txn::insert_effect(cat, tally, s, ins);
            let sheet = cat.tables[i];
            let n = source_rows(cat, s, ins.source);
            let after = e.work.tables[i].rows;
            &&& e.work == cat.with_table(i, Sheet { rows: after, ..sheet })
            &&& e.result->Ok_0.0 == n
            &&& e.tally.next_row == tally.next_row + n
            &&& after.len() == sheet.rows.len() + n
            &&& after.take(sheet.rows.len() as int) == sheet.rows
            &&& forall|k: int|
                0 <= k < n ==> {
                    let row = #[trigger] after[sheet.rows.len() + k];
                    &&& row.0 == tally.next_row + k
                    &&& entered(cat, s, sheet, ins, k, row.1)
                    &&& permitted(s, sheet, row.1)
                }
        }),
{
    let e = txn::insert_effect(cat, tally, s, ins);
    let sheet = cat.tables[i];
    let n = source_rows(cat, s, ins.source);
    let targets = dml::insert_targets(sheet.columns, ins.columns)->Ok_0;
    if let Some(names) = ins.columns {
        found_columns(sheet.columns, names, dml::duplicate_column(), names.len() as int);
    }
    let src = txn::sources(cat, s, ins.source, targets.len() as int)->Ok_0;
    if let tree::InsertSource::Values(exprs) = ins.source {
        values_of_all(s, exprs, exprs.len() as int);
    }
    assert(src.len() == n);
    if let tree::InsertSource::Query(q) = ins.source {
        an_answer_is_as_wide_as_its_heading(cat, s, *q);
    }
    let b = dml::built_rows(s, sheet, tally, targets, src, src.len() as int);
    built_all(s, sheet, tally, targets, src, src.len() as int);
    rows_put_in(s.env.user, sheet, tally.next_row, b.rows, b.rows.len() as int);
    let after = e.work.tables[i].rows;
    assert(after.take(sheet.rows.len() as int) =~= sheet.rows);
    assert forall|k: int| 0 <= k < n implies {
        let row = #[trigger] after[sheet.rows.len() + k];
        &&& row.0 == tally.next_row + k
        &&& entered(cat, s, sheet, ins, k, row.1)
        &&& permitted(s, sheet, row.1)
    } by {
        let row = after[sheet.rows.len() + k].1;
        assert(row == b.rows[k]);
        let t = choose|t: Tally|
            {
                let x = #[trigger] dml::built(
                    s,
                    sheet,
                    t,
                    targets,
                    src[k],
                    sheet.columns.len() as int,
                );
                x.failure is None && x.row == b.rows[k]
            };
        built_columns(s, sheet, t, targets, src[k], sheet.columns.len() as int);
        rows_are_refused_for_a_reason(s, sheet, row, false);
        row_entered(cat, s, sheet, ins, targets, src, k, t, row);
    }
}

proof fn row_entered(
    cat: Cat,
    s: Scene,
    sheet: Sheet,
    ins: tree::Insert,
    targets: Seq<int>,
    src: Seq<Seq<Datum>>,
    k: int,
    t: Tally,
    row: Seq<Datum>,
)
    requires
        dml::insert_targets(sheet.columns, ins.columns) == Ok::<Seq<int>, Failure>(targets),
        txn::sources(cat, s, ins.source, targets.len() as int) == Ok::<Seq<Seq<Datum>>, Failure>(
            src,
        ),
        0 <= k < src.len(),
        ({
            let x = dml::built(s, sheet, t, targets, src[k], sheet.columns.len() as int);
            x.failure is None && x.row == row
        }),
        ins.source is Query ==> src[k].len() == targets.len(),
    ensures
        entered(cat, s, sheet, ins, k, row),
{
    built_columns(s, sheet, t, targets, src[k], sheet.columns.len() as int);
    if let Some(names) = ins.columns {
        found_columns(sheet.columns, names, dml::duplicate_column(), names.len() as int);
    }
    if let tree::InsertSource::Values(exprs) = ins.source {
        values_of_all(s, exprs, exprs.len() as int);
    }
    assert(src[k].len() == targets.len());
    assert forall|j: int, c: int| #[trigger]
        goes_to(sheet.columns, ins.columns, j, c) implies dml::given(targets, src[k], c) == Some(
        source_value(cat, s, ins.source, k, j),
    ) by {
        place_found(targets, c, 0);
        match ins.columns {
            None => {
                assert(targets[c] == c);
            },
            Some(names) => {
                let d = targets[j];
                assert(is_column(sheet.columns, d, names[j]));
                if d < c {
                    assert(sheet.columns[d].name != names[j]);
                } else if c < d {
                    assert(sheet.columns[c].name != names[j]);
                }
                let p = dml::position_from(targets, c, 0)->0;
                if p < j {
                    assert(targets[p] != targets[j]);
                } else if j < p {
                    assert(targets[j] != targets[p]);
                }
            },
        }
    }
    assert forall|c: int|
        0 <= c < row.len() && (forall|j: int|
            !#[trigger] goes_to(sheet.columns, ins.columns, j, c)) implies dml::given(
        targets,
        src[k],
        c,
    ) is None by {
        place_found(targets, c, 0);
        if let Some(p) = dml::position_from(targets, c, 0) {
            if let Some(names) = ins.columns {
                assert(is_column(sheet.columns, targets[p], names[p]));
            }
            assert(goes_to(sheet.columns, ins.columns, p, c));
        }
    }
}

} // verus!
