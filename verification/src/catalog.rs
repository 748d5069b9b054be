//! In-memory storage: tables, rows and the constraints that guard them.

use std::sync::Arc;

use vstd::prelude::*;
use vstd::string::*;

use crate::ast;
use crate::ast::Expr;
use crate::functions;
use crate::plsql;
use crate::plsql::Routine;
use crate::text;
use crate::tree;
use crate::value::{Datum, SqlType, Value};

verus! {

pub struct TableColumn {
    pub name: String,
    pub sql_type: SqlType,
    pub default: Option<Expr>,
    pub not_null: bool,
    pub identity: bool,
}

/// What a column is.
pub struct Field {
    pub name: Seq<char>,
    pub sql_type: SqlType,
    pub default: Option<tree::Expr>,
    pub not_null: bool,
    pub identity: bool,
}

pub enum ConstraintKind {
    /// PRIMARY KEY, UNIQUE, or a unique index.
    Unique { columns: Vec<usize>, primary: bool },
    Check(Expr),
    /// A non-unique index. It has no effect but can be dropped by name.
    Index,
}

/// What a constraint asks.
pub enum RuleKind {
    Unique { columns: Seq<int>, primary: bool },
    Check(tree::Expr),
    Index,
}

pub struct Constraint {
    pub name: String,
    pub kind: ConstraintKind,
    /// Created by CREATE INDEX rather than as a table constraint.
    pub is_index: bool,
}

pub struct Rule {
    pub name: Seq<char>,
    pub kind: RuleKind,
    pub is_index: bool,
}

pub struct Table {
    pub name: String,
    pub columns: Vec<TableColumn>,
    pub constraints: Vec<Constraint>,
    /// Rows with their ids, which grow: this is insertion order.
    pub rows: Vec<(u64, Vec<Value>)>,
}

/// What a table holds.
pub struct Sheet {
    pub name: Seq<char>,
    pub columns: Seq<Field>,
    pub rules: Seq<Rule>,
    pub rows: Seq<(int, Seq<Datum>)>,
}

impl View for TableColumn {
    type V = Field;

    open spec fn view(&self) -> Field {
        Field {
            name: self.name@,
            sql_type: self.sql_type,
            default: ast::opt_expr_tree(self.default),
            not_null: self.not_null,
            identity: self.identity,
        }
    }
}

pub open spec fn positions(v: Seq<usize>) -> Seq<int> {
    Seq::new(v.len(), |i: int| v[i] as int)
}

impl View for ConstraintKind {
    type V = RuleKind;

    open spec fn view(&self) -> RuleKind {
        match self {
            ConstraintKind::Unique { columns, primary } => RuleKind::Unique {
                columns: positions(columns@),
                primary: *primary,
            },
            ConstraintKind::Check(e) => RuleKind::Check(e@),
            ConstraintKind::Index => RuleKind::Index,
        }
    }
}

impl View for Constraint {
    type V = Rule;

    open spec fn view(&self) -> Rule {
        Rule { name: self.name@, kind: self.kind@, is_index: self.is_index }
    }
}

pub open spec fn fields(c: Seq<TableColumn>) -> Seq<Field> {
    Seq::new(c.len(), |i: int| c[i]@)
}

pub open spec fn rules(c: Seq<Constraint>) -> Seq<Rule> {
    Seq::new(c.len(), |i: int| c[i]@)
}

pub open spec fn record(r: (u64, Vec<Value>)) -> (int, Seq<Datum>) {
    (r.0 as int, functions::views(r.1@))
}

pub open spec fn records(r: Seq<(u64, Vec<Value>)>) -> Seq<(int, Seq<Datum>)> {
    Seq::new(r.len(), |i: int| record(r[i]))
}

impl View for Table {
    type V = Sheet;

    open spec fn view(&self) -> Sheet {
        Sheet {
            name: self.name@,
            columns: fields(self.columns@),
            rules: rules(self.constraints@),
            rows: records(self.rows@),
        }
    }
}

/// The key a unique constraint knows a row by, or `None` when every key column is NULL
/// (such rows never conflict).
pub open spec fn unique_key(columns: Seq<int>, values: Seq<Datum>) -> Option<Seq<Datum>> {
    if forall|i: int| 0 <= i < columns.len() ==> values[#[trigger] columns[i]] is Null {
        None
    } else {
        Some(Seq::new(columns.len(), |i: int| values[columns[i]]))
    }
}

/// Whether two rows cannot both be under a unique constraint.
pub open spec fn clash(columns: Seq<int>, a: Seq<Datum>, b: Seq<Datum>) -> bool {
    unique_key(columns, a) is Some && unique_key(columns, a) == unique_key(columns, b)
}

/// Whether a row other than `own` holds the key of some values.
pub open spec fn taken(
    columns: Seq<int>,
    rows: Seq<(int, Seq<Datum>)>,
    values: Seq<Datum>,
    own: Option<int>,
) -> bool {
    exists|k: int|
        0 <= k < rows.len() && Some(#[trigger] rows[k].0) != own && clash(
            columns,
            rows[k].1,
            values,
        )
}

/// Whether a rule keeps values out because of other rows.
pub open spec fn forbids(
    rule: Rule,
    rows: Seq<(int, Seq<Datum>)>,
    values: Seq<Datum>,
    own: Option<int>,
) -> bool {
    match rule.kind {
        RuleKind::Unique { columns, .. } => taken(columns, rows, values, own),
        _ => false,
    }
}

/// The name of the first rule from `i` on that keeps values out.
pub open spec fn conflict(
    rules: Seq<Rule>,
    rows: Seq<(int, Seq<Datum>)>,
    values: Seq<Datum>,
    own: Option<int>,
    i: int,
) -> Option<Seq<char>>
    decreases rules.len() - i,
{
    if i < 0 || i >= rules.len() {
        None
    } else if forbids(rules[i], rows, values, own) {
        Some(rules[i].name)
    } else {
        conflict(rules, rows, values, own, i + 1)
    }
}

/// Rows, in the order of their ids, with one more or one replaced.
pub open spec fn placed(
    rows: Seq<(int, Seq<Datum>)>,
    id: int,
    values: Seq<Datum>,
) -> Seq<(int, Seq<Datum>)>
    decreases rows.len(),
{
    if rows.len() == 0 || rows.last().0 < id {
        rows.push((id, values))
    } else if rows.last().0 == id {
        rows.update(rows.len() - 1, (id, values))
    } else {
        placed(rows.drop_last(), id, values).push(rows.last())
    }
}

/// Rows without the one of an id.
pub open spec fn removed(rows: Seq<(int, Seq<Datum>)>, id: int) -> Seq<(int, Seq<Datum>)>
    decreases rows.len(),
{
    if rows.len() == 0 {
        rows
    } else if rows.last().0 == id {
        rows.drop_last()
    } else {
        removed(rows.drop_last(), id).push(rows.last())
    }
}

pub open spec fn has_row(rows: Seq<(int, Seq<Datum>)>, id: int) -> bool {
    exists|k: int| 0 <= k < rows.len() && #[trigger] rows[k].0 == id
}

/// Rows without those that are to change.
pub open spec fn kept(
    rows: Seq<(int, Seq<Datum>)>,
    changes: Seq<(int, Seq<Datum>)>,
    n: int,
) -> Seq<(int, Seq<Datum>)>
    decreases n,
{
    if n <= 0 {
        rows
    } else {
        removed(kept(rows, changes, n - 1), changes[n - 1].0)
    }
}

/// Rows with the first `n` changes made that are to rows of `all`, or the name of the rule
/// that one of them breaks.
pub open spec fn changed(
    rules: Seq<Rule>,
    all: Seq<(int, Seq<Datum>)>,
    start: Seq<(int, Seq<Datum>)>,
    changes: Seq<(int, Seq<Datum>)>,
    n: int,
) -> Result<Seq<(int, Seq<Datum>)>, Seq<char>>
    decreases n,
{
    if n <= 0 {
        Ok(start)
    } else {
        match changed(rules, all, start, changes, n - 1) {
            Err(name) => Err(name),
            Ok(rows) => {
                let (id, values) = changes[n - 1];
                if !has_row(all, id) {
                    Ok(rows)
                } else {
                    match conflict(rules, rows, values, Some(id), 0) {
                        Some(name) => Err(name),
                        None => Ok(placed(rows, id, values)),
                    }
                }
            },
        }
    }
}

impl Sheet {
    /// Rows are as wide as the table and in the order of their ids; rules speak of
    /// columns that there are.
    pub open spec fn wf(self) -> bool {
        &&& forall|k: int|
            0 <= k < self.rows.len() ==> (#[trigger] self.rows[k]).1.len() == self.columns.len()
        &&& in_order(self.rows)
        &&& forall|k: int| 0 <= k < self.rules.len() ==> #[trigger] in_table(
            self.rules[k],
            self.columns.len() as int,
        )
    }

    /// No two rows share a key.
    pub open spec fn unique(self) -> bool {
        forall|k: int| 0 <= k < self.rules.len() ==> #[trigger] distinct_under(
            self.rules[k],
            self.rows,
        )
    }

    pub open spec fn inserted(self, id: int, values: Seq<Datum>) -> Result<Sheet, Seq<char>> {
        match conflict(self.rules, self.rows, values, None, 0) {
            Some(name) => Err(name),
            None => Ok(Sheet { rows: placed(self.rows, id, values), ..self }),
        }
    }

    pub open spec fn deleted(self, id: int) -> Sheet {
        Sheet { rows: removed(self.rows, id), ..self }
    }

    pub open spec fn updated(self, changes: Seq<(int, Seq<Datum>)>) -> Result<Sheet, Seq<char>> {
        let start = kept(self.rows, changes, changes.len() as int);
        match changed(self.rules, self.rows, start, changes, changes.len() as int) {
            Ok(rows) => Ok(Sheet { rows, ..self }),
            Err(name) => Err(name),
        }
    }

    /// The position of a column.
    pub open spec fn column_index(self, name: Seq<char>) -> Option<int> {
        index_of_field(self.columns, name, 0)
    }

    pub open spec fn has_primary_key(self) -> bool {
        exists|k: int| 0 <= k < self.rules.len() && is_primary(#[trigger] self.rules[k])
    }
}

pub open spec fn is_primary(r: Rule) -> bool {
    match r.kind {
        RuleKind::Unique { primary, .. } => primary,
        _ => false,
    }
}

pub open spec fn index_of_field(columns: Seq<Field>, name: Seq<char>, i: int) -> Option<int>
    decreases columns.len() - i,
{
    if i < 0 || i >= columns.len() {
        None
    } else if columns[i].name == name {
        Some(i)
    } else {
        index_of_field(columns, name, i + 1)
    }
}

pub open spec fn in_order(rows: Seq<(int, Seq<Datum>)>) -> bool {
    forall|a: int, b: int|
        0 <= a < b < rows.len() ==> (#[trigger] rows[a]).0 < (#[trigger] rows[b]).0
}

pub open spec fn in_table(r: Rule, width: int) -> bool {
    match r.kind {
        RuleKind::Unique { columns, .. } => forall|i: int|
            0 <= i < columns.len() ==> 0 <= #[trigger] columns[i] < width,
        _ => true,
    }
}

pub open spec fn distinct_under(r: Rule, rows: Seq<(int, Seq<Datum>)>) -> bool {
    match r.kind {
        RuleKind::Unique { columns, .. } => forall|a: int, b: int|
            0 <= a < rows.len() && 0 <= b < rows.len() && a != b ==> !clash(
                columns,
                (#[trigger] rows[a]).1,
                (#[trigger] rows[b]).1,
            ),
        _ => true,
    }
}

proof fn placed_at(rows: Seq<(int, Seq<Datum>)>, id: int, values: Seq<Datum>, pos: int)
    requires
        in_order(rows),
        0 <= pos <= rows.len(),
        pos > 0 ==> rows[pos - 1].0 < id,
        pos < rows.len() ==> rows[pos].0 > id,
    ensures
        placed(rows, id, values) == rows.insert(pos, (id, values)),
    decreases rows.len(),
{
    if pos == rows.len() {
        assert(rows.insert(pos, (id, values)) =~= rows.push((id, values)));
    } else {
        let less = rows.drop_last();
        assert(in_order(less));
        placed_at(less, id, values, pos);
        assert(rows.insert(pos, (id, values)) =~= less.insert(pos, (id, values)).push(rows.last()));
    }
}

proof fn placed_over(rows: Seq<(int, Seq<Datum>)>, id: int, values: Seq<Datum>, pos: int)
    requires
        in_order(rows),
        0 <= pos < rows.len(),
        rows[pos].0 == id,
    ensures
        placed(rows, id, values) == rows.update(pos, (id, values)),
    decreases rows.len(),
{
    if pos < rows.len() - 1 {
        let less = rows.drop_last();
        assert(in_order(less));
        placed_over(less, id, values, pos);
        assert(rows.update(pos, (id, values)) =~= less.update(pos, (id, values)).push(rows.last()));
    }
}

proof fn removed_at(rows: Seq<(int, Seq<Datum>)>, id: int, pos: int)
    requires
        in_order(rows),
        0 <= pos < rows.len(),
        rows[pos].0 == id,
    ensures
        removed(rows, id) == rows.remove(pos),
    decreases rows.len(),
{
    if pos < rows.len() - 1 {
        let less = rows.drop_last();
        assert(in_order(less));
        removed_at(less, id, pos);
        assert(rows.remove(pos) =~= less.remove(pos).push(rows.last()));
    } else {
        assert(rows.remove(pos) =~= rows.drop_last());
    }
}

proof fn removed_nowhere(rows: Seq<(int, Seq<Datum>)>, id: int)
    requires
        !has_row(rows, id),
    ensures
        removed(rows, id) == rows,
    decreases rows.len(),
{
    if rows.len() > 0 {
        let less = rows.drop_last();
        assert forall|k: int| 0 <= k < less.len() implies #[trigger] less[k].0 != id by {
            assert(rows[k].0 != id);
        }
        assert(rows[rows.len() - 1].0 != id);
        removed_nowhere(less, id);
        assert(rows =~= less.push(rows.last()));
    }
}

spec fn is_id(new: Option<(int, Seq<Datum>)>, id: int) -> bool {
    match new {
        Some((own, _)) => own == id,
        None => false,
    }
}

/// Whether every row is one of some rows, or the one with a given id and values.
spec fn from_rows(
    rows: Seq<(int, Seq<Datum>)>,
    old_rows: Seq<(int, Seq<Datum>)>,
    new: Option<(int, Seq<Datum>)>,
) -> bool {
    forall|k: int|
        0 <= k < rows.len() ==> Some(#[trigger] rows[k]) == new || old_rows.contains(rows[k])
            && !is_id(new, rows[k].0)
}

/// Where rows stand before and after one was placed among them.
proof fn placed_rows(rows: Seq<(int, Seq<Datum>)>, id: int, values: Seq<Datum>)
    requires
        in_order(rows),
    ensures
        in_order(placed(rows, id, values)),
        from_rows(placed(rows, id, values), rows, Some((id, values))),
        rows.len() > 0 && rows.last().0 >= id ==> placed(rows, id, values).last().0
            == rows.last().0,
        rows.len() == 0 || rows.last().0 < id ==> placed(rows, id, values).last().0 == id,
        placed(rows, id, values).len() > 0,
    decreases rows.len(),
{
    let after = placed(rows, id, values);
    if rows.len() == 0 || rows.last().0 < id {
        assert forall|k: int| 0 <= k < after.len() implies Some(#[trigger] after[k]) == Some(
            (id, values),
        ) || rows.contains(after[k]) && after[k].0 != id by {
            if k < rows.len() {
                assert(rows[k] == after[k]);
                assert(rows[k].0 <= rows.last().0);
            }
        }
    } else if rows.last().0 == id {
        assert forall|k: int| 0 <= k < after.len() implies Some(#[trigger] after[k]) == Some(
            (id, values),
        ) || rows.contains(after[k]) && after[k].0 != id by {
            if k < rows.len() - 1 {
                assert(rows[k] == after[k]);
                assert(rows[k].0 < rows[rows.len() - 1].0);
            }
        }
    } else {
        let less = rows.drop_last();
        assert(in_order(less));
        placed_rows(less, id, values);
        let before = placed(less, id, values);
        assert(less.len() > 0 ==> less.last().0 < rows.last().0);
        assert forall|a: int, b: int| 0 <= a < b < after.len() implies (#[trigger] after[a]).0 < (
        #[trigger] after[b]).0 by {
            assert(after[a] == before[a]);
            if b == after.len() - 1 {
                assert(before[a].0 <= before.last().0);
            } else {
                assert(after[b] == before[b]);
            }
        }
        assert forall|k: int| 0 <= k < after.len() implies Some(#[trigger] after[k]) == Some(
            (id, values),
        ) || rows.contains(after[k]) && after[k].0 != id by {
            if k < before.len() {
                assert(after[k] == before[k]);
                if less.contains(after[k]) {
                    let j = choose|j: int| 0 <= j < less.len() && less[j] == after[k];
                    assert(rows[j] == after[k]);
                }
            } else {
                assert(rows[rows.len() - 1] == after[k]);
            }
        }
    }
}

/// Placing a row keeps the order of ids.
pub proof fn placed_in_order(rows: Seq<(int, Seq<Datum>)>, id: int, values: Seq<Datum>)
    requires
        in_order(rows),
    ensures
        in_order(placed(rows, id, values)),
{
    placed_rows(rows, id, values);
}

/// Removing a row keeps the order of ids.
pub proof fn removed_in_order(rows: Seq<(int, Seq<Datum>)>, id: int)
    requires
        in_order(rows),
    ensures
        in_order(removed(rows, id)),
{
    removed_rows(rows, id);
}

proof fn removed_rows(rows: Seq<(int, Seq<Datum>)>, id: int)
    requires
        in_order(rows),
    ensures
        in_order(removed(rows, id)),
        from_rows(removed(rows, id), rows, None),
        !has_row(removed(rows, id), id),
{
    if has_row(rows, id) {
        let pos = choose|k: int| 0 <= k < rows.len() && #[trigger] rows[k].0 == id;
        removed_at(rows, id, pos);
        let after = rows.remove(pos);
        assert forall|k: int| 0 <= k < after.len() implies rows.contains(#[trigger] after[k])
            && after[k].0 != id by {
            if k < pos {
                assert(after[k] == rows[k]);
                assert(rows[k].0 < rows[pos].0);
            } else {
                assert(after[k] == rows[k + 1]);
                assert(rows[pos].0 < rows[k + 1].0);
            }
        }
        assert forall|a: int, b: int| 0 <= a < b < after.len() implies (#[trigger] after[a]).0 < (
        #[trigger] after[b]).0 by {
            let x = if a < pos {
                a
            } else {
                a + 1
            };
            let y = if b < pos {
                b
            } else {
                b + 1
            };
            assert(after[a] == rows[x] && after[b] == rows[y]);
        }
    } else {
        removed_nowhere(rows, id);
        assert forall|k: int| 0 <= k < rows.len() implies rows.contains(#[trigger] rows[k]) by {}
    }
}

/// Rows that a rule keeps apart stay apart when one is placed that it does not forbid.
proof fn placing_keeps_apart(rule: Rule, rows: Seq<(int, Seq<Datum>)>, id: int, values: Seq<Datum>)
    requires
        in_order(rows),
        distinct_under(rule, rows),
        !forbids(rule, rows, values, Some(id)),
    ensures
        distinct_under(rule, placed(rows, id, values)),
{
    placed_rows(rows, id, values);
    let after = placed(rows, id, values);
    if let RuleKind::Unique { columns, .. } = rule.kind {
        assert forall|a: int, b: int|
            0 <= a < after.len() && 0 <= b < after.len() && a != b implies !clash(
            columns,
            (#[trigger] after[a]).1,
            (#[trigger] after[b]).1,
        ) by {
            assert(after[a].0 != after[b].0) by {
                if a < b {
                } else {
                    assert(after[b].0 < after[a].0);
                }
            }
            if after[a] == (id, values) {
                let j = choose|j: int| 0 <= j < rows.len() && rows[j] == after[b];
                assert(rows.contains(after[b]));
                assert(Some(rows[j].0) != Some(id));
                assert(!clash(columns, rows[j].1, values));
            } else if after[b] == (id, values) {
                let j = choose|j: int| 0 <= j < rows.len() && rows[j] == after[a];
                assert(rows.contains(after[a]));
                assert(Some(rows[j].0) != Some(id));
                assert(!clash(columns, rows[j].1, values));
            } else {
                assert(rows.contains(after[a]) && rows.contains(after[b]));
                let x = choose|j: int| 0 <= j < rows.len() && rows[j] == after[a];
                let y = choose|j: int| 0 <= j < rows.len() && rows[j] == after[b];
                assert(x != y);
                assert(!clash(columns, rows[x].1, rows[y].1));
            }
        }
    }
}

proof fn removing_keeps_apart(rule: Rule, rows: Seq<(int, Seq<Datum>)>, id: int)
    requires
        in_order(rows),
        distinct_under(rule, rows),
    ensures
        distinct_under(rule, removed(rows, id)),
{
    removed_rows(rows, id);
    let after = removed(rows, id);
    if let RuleKind::Unique { columns, .. } = rule.kind {
        assert forall|a: int, b: int|
            0 <= a < after.len() && 0 <= b < after.len() && a != b implies !clash(
            columns,
            (#[trigger] after[a]).1,
            (#[trigger] after[b]).1,
        ) by {
            assert(after[a].0 != after[b].0) by {
                if a > b {
                    assert(after[b].0 < after[a].0);
                }
            }
            assert(rows.contains(after[a]) && rows.contains(after[b]));
            let x = choose|j: int| 0 <= j < rows.len() && rows[j] == after[a];
            let y = choose|j: int| 0 <= j < rows.len() && rows[j] == after[b];
            assert(x != y);
            assert(!clash(columns, rows[x].1, rows[y].1));
        }
    }
}

proof fn no_conflict_no_rule(
    rules: Seq<Rule>,
    rows: Seq<(int, Seq<Datum>)>,
    values: Seq<Datum>,
    own: Option<int>,
    i: int,
    k: int,
)
    requires
        0 <= i <= k < rules.len(),
        conflict(rules, rows, values, own, i) is None,
    ensures
        !forbids(rules[k], rows, values, own),
    decreases k - i,
{
    if i < k {
        no_conflict_no_rule(rules, rows, values, own, i + 1, k);
    }
}

/// Rows keep a table's width when one of that width is placed.
proof fn placing_keeps_width(rows: Seq<(int, Seq<Datum>)>, id: int, values: Seq<Datum>, width: nat)
    requires
        in_order(rows),
        forall|k: int| 0 <= k < rows.len() ==> (#[trigger] rows[k]).1.len() == width,
        values.len() == width,
    ensures
        forall|k: int|
            0 <= k < placed(rows, id, values).len() ==> (#[trigger] placed(rows, id, values)[k]).1.len()
                == width,
{
    placed_rows(rows, id, values);
    let after = placed(rows, id, values);
    assert forall|k: int| 0 <= k < after.len() implies (#[trigger] after[k]).1.len() == width by {
        if after[k] != (id, values) {
            let j = choose|j: int| 0 <= j < rows.len() && rows[j] == after[k];
            assert(rows[j].1.len() == width);
        }
    }
}

proof fn removing_keeps_width(rows: Seq<(int, Seq<Datum>)>, id: int, width: nat)
    requires
        in_order(rows),
        forall|k: int| 0 <= k < rows.len() ==> (#[trigger] rows[k]).1.len() == width,
    ensures
        forall|k: int|
            0 <= k < removed(rows, id).len() ==> (#[trigger] removed(rows, id)[k]).1.len() == width,
{
    removed_rows(rows, id);
    let after = removed(rows, id);
    assert forall|k: int| 0 <= k < after.len() implies (#[trigger] after[k]).1.len() == width by {
        let j = choose|j: int| 0 <= j < rows.len() && rows[j] == after[k];
        assert(rows[j].1.len() == width);
    }
}

/// An inserted row keeps the table in shape, and its keys apart.
pub proof fn inserting_keeps_the_table(s: Sheet, id: int, values: Seq<Datum>)
    requires
        s.wf(),
        values.len() == s.columns.len(),
        s.inserted(id, values) is Ok,
    ensures
        s.inserted(id, values)->Ok_0.wf(),
        s.unique() ==> s.inserted(id, values)->Ok_0.unique(),
{
    placed_rows(s.rows, id, values);
    placing_keeps_width(s.rows, id, values, s.columns.len());
    if s.unique() {
        assert forall|k: int| 0 <= k < s.rules.len() implies #[trigger] distinct_under(
            s.rules[k],
            placed(s.rows, id, values),
        ) by {
            no_conflict_no_rule(s.rules, s.rows, values, None, 0, k);
            assert(distinct_under(s.rules[k], s.rows));
            assert(!forbids(s.rules[k], s.rows, values, Some(id)));
            placing_keeps_apart(s.rules[k], s.rows, id, values);
        }
    }
}

/// A deleted row keeps the table in shape, and its keys apart.
pub proof fn deleting_keeps_the_table(s: Sheet, id: int)
    requires
        s.wf(),
    ensures
        s.deleted(id).wf(),
        s.unique() ==> s.deleted(id).unique(),
        !has_row(s.deleted(id).rows, id),
{
    removed_rows(s.rows, id);
    removing_keeps_width(s.rows, id, s.columns.len());
    if s.unique() {
        assert forall|k: int| 0 <= k < s.rules.len() implies #[trigger] distinct_under(
            s.rules[k],
            removed(s.rows, id),
        ) by {
            assert(distinct_under(s.rules[k], s.rows));
            removing_keeps_apart(s.rules[k], s.rows, id);
        }
    }
}

/// Deleting a row that was just inserted gives the table back as it was.
pub proof fn deleting_undoes_inserting(s: Sheet, id: int, values: Seq<Datum>)
    requires
        s.wf(),
        !has_row(s.rows, id),
        s.inserted(id, values) is Ok,
    ensures
        s.inserted(id, values)->Ok_0.deleted(id) == s,
    decreases s.rows.len(),
{
    removed_from_placed(s.rows, id, values);
}

proof fn removed_from_placed(rows: Seq<(int, Seq<Datum>)>, id: int, values: Seq<Datum>)
    requires
        !has_row(rows, id),
    ensures
        removed(placed(rows, id, values), id) == rows,
    decreases rows.len(),
{
    if rows.len() == 0 || rows.last().0 < id {
        assert(rows.push((id, values)).drop_last() =~= rows);
    } else {
        assert(rows[rows.len() - 1].0 != id);
        let less = rows.drop_last();
        assert forall|k: int| 0 <= k < less.len() implies #[trigger] less[k].0 != id by {
            assert(rows[k].0 != id);
        }
        removed_from_placed(less, id, values);
        let before = placed(less, id, values);
        assert(before.push(rows.last()).drop_last() =~= before);
        assert(rows =~= less.push(rows.last()));
    }
}

/// Changed rows keep the table in shape, and their keys apart.
pub proof fn updating_keeps_the_table(s: Sheet, changes: Seq<(int, Seq<Datum>)>)
    requires
        s.wf(),
        forall|k: int|
            0 <= k < changes.len() ==> (#[trigger] changes[k]).1.len() == s.columns.len(),
        s.updated(changes) is Ok,
    ensures
        s.updated(changes)->Ok_0.wf(),
        s.unique() ==> s.updated(changes)->Ok_0.unique(),
{
    let start = kept(s.rows, changes, changes.len() as int);
    kept_stays(s, changes, changes.len() as int);
    let base = Sheet { rows: start, ..s };
    changes_stay(base, s.rows, changes, changes.len() as int);
}

proof fn kept_stays(s: Sheet, changes: Seq<(int, Seq<Datum>)>, n: int)
    requires
        s.wf(),
        0 <= n <= changes.len(),
    ensures
        (Sheet { rows: kept(s.rows, changes, n), ..s }).wf(),
        s.unique() ==> (Sheet { rows: kept(s.rows, changes, n), ..s }).unique(),
    decreases n,
{
    if n > 0 {
        kept_stays(s, changes, n - 1);
        deleting_keeps_the_table(
            Sheet { rows: kept(s.rows, changes, n - 1), ..s },
            changes[n - 1].0,
        );
    }
}

proof fn changes_stay(
    s: Sheet,
    all: Seq<(int, Seq<Datum>)>,
    changes: Seq<(int, Seq<Datum>)>,
    n: int,
)
    requires
        s.wf(),
        0 <= n <= changes.len(),
        forall|k: int|
            0 <= k < changes.len() ==> (#[trigger] changes[k]).1.len() == s.columns.len(),
        changed(s.rules, all, s.rows, changes, n) is Ok,
    ensures
        (Sheet { rows: changed(s.rules, all, s.rows, changes, n)->Ok_0, ..s }).wf(),
        s.unique() ==> (Sheet {
            rows: changed(s.rules, all, s.rows, changes, n)->Ok_0,
            ..s
        }).unique(),
    decreases n,
{
    if n > 0 {
        changes_stay(s, all, changes, n - 1);
        let rows = changed(s.rules, all, s.rows, changes, n - 1)->Ok_0;
        let (id, values) = changes[n - 1];
        if has_row(all, id) {
            assert(changes[n - 1].1.len() == s.columns.len());
            placed_rows(rows, id, values);
            placing_keeps_width(rows, id, values, s.columns.len());
            if s.unique() {
                let now = Sheet { rows, ..s };
                assert forall|k: int| 0 <= k < s.rules.len() implies #[trigger] distinct_under(
                    s.rules[k],
                    placed(rows, id, values),
                ) by {
                    no_conflict_no_rule(s.rules, rows, values, Some(id), 0, k);
                    assert(distinct_under(now.rules[k], now.rows));
                    placing_keeps_apart(s.rules[k], rows, id, values);
                }
            }
        }
    }
}

/// Whether two rows cannot both be under a unique constraint.
fn clashes(columns: &Vec<usize>, a: &Vec<Value>, b: &Vec<Value>) -> (r: bool)
    requires
        forall|i: int| 0 <= i < columns@.len() ==> #[trigger] columns@[i] < a@.len(),
        a@.len() == b@.len(),
    ensures
        r == clash(positions(columns@), functions::views(a@), functions::views(b@)),
{
    let ghost cols = positions(columns@);
    let ghost x = functions::views(a@);
    let ghost y = functions::views(b@);
    let mut empty = true;
    for i in 0..columns.len()
        invariant
            cols == positions(columns@),
            x == functions::views(a@),
            y == functions::views(b@),
            a@.len() == b@.len(),
            forall|i: int| 0 <= i < columns@.len() ==> #[trigger] columns@[i] < a@.len(),
            empty == forall|k: int| 0 <= k < i ==> x[#[trigger] cols[k]] is Null,
            forall|k: int| 0 <= k < i ==> x[#[trigger] cols[k]] == y[cols[k]],
    {
        let c: usize = columns[i];
        assert(cols[i as int] == c);
        assert(x[c as int] == a@[c as int]@ && y[c as int] == b@[c as int]@);
        if !a[c].same(&b[c]) {
            proof {
                assert(x[cols[i as int]] != y[cols[i as int]]);
                if unique_key(cols, x) is Some && unique_key(cols, y) is Some {
                    assert(unique_key(cols, x)->0[i as int] != unique_key(cols, y)->0[i as int]);
                }
            }
            return false;
        }
        if !a[c].is_null() {
            empty = false;
            assert(!(x[cols[i as int]] is Null));
        }
    }
    if empty {
        assert(unique_key(cols, x) is None);
        false
    } else {
        assert(unique_key(cols, x) is Some);
        assert(unique_key(cols, y) is Some) by {
            let k = choose|k: int| 0 <= k < cols.len() && !(x[#[trigger] cols[k]] is Null);
            assert(!(y[cols[k]] is Null));
        }
        assert(unique_key(cols, x)->0 =~= unique_key(cols, y)->0);
        true
    }
}

impl Table {
    pub open spec fn wf(&self) -> bool {
        self@.wf()
    }

    pub fn new(name: String, columns: Vec<TableColumn>) -> (t: Table)
        ensures
            t@ == (Sheet {
                name: name@,
                columns: fields(columns@),
                rules: Seq::empty(),
                rows: Seq::empty(),
            }),
            t.wf(),
            t@.unique(),
    {
        let t = Table { name, columns, constraints: Vec::new(), rows: Vec::new() };
        assert(t@.rules =~= Seq::empty());
        assert(t@.rows =~= Seq::empty());
        t
    }

    pub fn column_index(&self, name: &str) -> (r: Option<usize>)
        ensures
            match r {
                Some(i) => self@.column_index(name@) == Some(i as int) && i < self.columns@.len(),
                None => self@.column_index(name@) is None,
            },
    {
        let total: usize = self.columns.len();
        let mut i: usize = 0;
        while i < total
            invariant
                i <= total == self.columns@.len(),
                self@.column_index(name@) == index_of_field(self@.columns, name@, i as int),
            decreases total - i,
        {
            assert(self@.columns[i as int].name == self.columns@[i as int].name@);
            if text::same(&self.columns[i].name, name) {
                return Some(i);
            }
            i = i + 1;
        }
        None
    }

    /// Whether a rule keeps values out because of other rows.
    #[verifier::loop_isolation(false)]
    fn forbids(&self, i: usize, values: &Vec<Value>, own: Option<u64>) -> (r: bool)
        requires
            self.wf(),
            i < self.constraints@.len(),
            values@.len() == self.columns@.len(),
        ensures
            r == forbids(
                self@.rules[i as int],
                self@.rows,
                functions::views(values@),
                opt_id(own),
            ),
    {
        assert(self@.rules[i as int] == self.constraints@[i as int]@);
        match &self.constraints[i].kind {
            ConstraintKind::Unique { columns, .. } => {
                assert(in_table(self@.rules[i as int], self@.columns.len() as int));
                assert forall|k: int| 0 <= k < columns@.len() implies #[trigger] columns@[k]
                    < self.columns@.len() by {
                    assert(self@.rules[i as int].kind->columns == positions(columns@));
                    assert(0 <= positions(columns@)[k] < self@.columns.len());
                }
                for k in 0..self.rows.len()
                    invariant
                        self.wf(),
                        values@.len() == self.columns@.len(),
                        forall|k: int|
                            0 <= k < columns@.len() ==> #[trigger] columns@[k]
                                < self.columns@.len(),
                        forall|j: int|
                            0 <= j < k ==> Some(#[trigger] self@.rows[j].0) == opt_id(own)
                                || !clash(
                                positions(columns@),
                                self@.rows[j].1,
                                functions::views(values@),
                            ),
                {
                    assert(self@.rows[k as int] == record(self.rows@[k as int]));
                    assert(self@.rows[k as int].1.len() == self@.columns.len());
                    let mine = match own {
                        Some(id) => id == self.rows[k].0,
                        None => false,
                    };
                    if !mine && clashes(columns, &self.rows[k].1, values) {
                        assert(Some(self@.rows[k as int].0) != opt_id(own));
                        return true;
                    }
                }
                false
            },
            _ => false,
        }
    }

    fn conflict(&self, values: &Vec<Value>, own: Option<u64>) -> (r: Option<String>)
        requires
            self.wf(),
            values@.len() == self.columns@.len(),
        ensures
            opt_text(r) == conflict(
                self@.rules,
                self@.rows,
                functions::views(values@),
                opt_id(own),
                0,
            ),
    {
        let total: usize = self.constraints.len();
        let mut i: usize = 0;
        while i < total
            invariant
                self.wf(),
                values@.len() == self.columns@.len(),
                i <= total == self.constraints@.len(),
                conflict(self@.rules, self@.rows, functions::views(values@), opt_id(own), 0)
                    == conflict(
                    self@.rules,
                    self@.rows,
                    functions::views(values@),
                    opt_id(own),
                    i as int,
                ),
            decreases total - i,
        {
            if self.forbids(i, values, own) {
                assert(self@.rules[i as int].name == self.constraints@[i as int].name@);
                return Some(self.constraints[i].name.clone());
            }
            i = i + 1;
        }
        None
    }

    /// Where the row of an id stands, or would stand.
    fn place(&self, id: u64) -> (r: usize)
        requires
            in_order(self@.rows),
        ensures
            r <= self.rows@.len(),
            r > 0 ==> self@.rows[r - 1].0 < id,
            r < self.rows@.len() ==> self@.rows[r as int].0 >= id,
    {
        let mut n: usize = self.rows.len();
        while n > 0 && self.rows[n - 1].0 >= id
            invariant
                n <= self.rows@.len(),
                n < self.rows@.len() ==> self@.rows[n as int].0 >= id,
            decreases n,
        {
            n = n - 1;
        }
        n
    }

    pub fn has_row(&self, id: u64) -> (r: bool)
        requires
            in_order(self@.rows),
        ensures
            r == has_row(self@.rows, id as int),
    {
        let n = self.place(id);
        if n < self.rows.len() && self.rows[n].0 == id {
            assert(self@.rows[n as int].0 == id);
            true
        } else {
            assert forall|k: int| 0 <= k < self@.rows.len() implies #[trigger] self@.rows[k].0
                != id by {
                if k < n {
                    assert(self@.rows[k].0 <= self@.rows[n - 1].0);
                } else {
                    assert(self@.rows[n as int].0 <= self@.rows[k].0);
                }
            }
            false
        }
    }

    fn put(&mut self, id: u64, values: Vec<Value>)
        requires
            in_order(old(self)@.rows),
        ensures
            final(self)@ == (Sheet {
                rows: placed(old(self)@.rows, id as int, functions::views(values@)),
                ..old(self)@
            }),
    {
        let ghost before = self@;
        let ghost row = (id as int, functions::views(values@));
        let n = self.place(id);
        if n < self.rows.len() && self.rows[n].0 == id {
            proof {
                placed_over(before.rows, id as int, row.1, n as int);
            }
            self.rows.set(n, (id, values));
            assert(self@.rows =~= before.rows.update(n as int, row));
        } else {
            proof {
                placed_at(before.rows, id as int, row.1, n as int);
            }
            self.rows.insert(n, (id, values));
            assert(self@.rows =~= before.rows.insert(n as int, row));
        }
        assert(self@.rules =~= before.rules);
        assert(self@.columns =~= before.columns);
    }

    /// Inserts a row, or returns the name of the unique constraint it violates.
    pub fn insert(&mut self, id: u64, values: Vec<Value>) -> (r: Result<(), String>)
        requires
            old(self).wf(),
            values@.len() == old(self).columns@.len(),
        ensures
            match r {
                Ok(_) => old(self)@.inserted(id as int, functions::views(values@)) == Ok::<
                    Sheet,
                    Seq<char>,
                >(final(self)@),
                Err(name) => old(self)@.inserted(id as int, functions::views(values@)) == Err::<
                    Sheet,
                    Seq<char>,
                >(name@) && *final(self) == *old(self),
            },
            final(self).wf(),
            old(self)@.unique() ==> final(self)@.unique(),
    {
        match self.conflict(&values, None) {
            Some(name) => Err(name),
            None => {
                proof {
                    inserting_keeps_the_table(self@, id as int, functions::views(values@));
                }
                self.put(id, values);
                Ok(())
            },
        }
    }

    /// Deletes a row; whether there was one.
    pub fn delete(&mut self, id: u64) -> (r: bool)
        requires
            old(self).wf(),
        ensures
            r == has_row(old(self)@.rows, id as int),
            final(self)@ == old(self)@.deleted(id as int),
            final(self).wf(),
            old(self)@.unique() ==> final(self)@.unique(),
    {
        proof {
            deleting_keeps_the_table(self@, id as int);
        }
        let ghost before = self@;
        if !self.has_row(id) {
            proof {
                removed_nowhere(before.rows, id as int);
            }
            return false;
        }
        let n = self.place(id);
        proof {
            let k = choose|k: int| 0 <= k < before.rows.len() && #[trigger] before.rows[k].0 == id;
            assert(n <= k) by {
                if k < n {
                    assert(before.rows[k].0 <= before.rows[n - 1].0);
                }
            }
            assert(n == k) by {
                if n < k {
                    assert(before.rows[n as int].0 < before.rows[k].0);
                }
            }
            removed_at(before.rows, id as int, n as int);
        }
        self.rows.remove(n);
        assert(self@.rows =~= before.rows.remove(n as int));
        assert(self@.rules =~= before.rules);
        assert(self@.columns =~= before.columns);
        true
    }

    /// Replaces the values of several rows at once, so that for example `SET id = id + 1`
    /// does not trip over its own intermediate state. Rows that do not exist are skipped.
    /// On a unique violation the table stays as it was.
    #[verifier::loop_isolation(false)]
    pub fn update(&mut self, changes: &Vec<(u64, Vec<Value>)>) -> (r: Result<(), String>)
        requires
            old(self).wf(),
            forall|k: int|
                0 <= k < changes@.len() ==> (#[trigger] changes@[k]).1@.len()
                    == old(self).columns@.len(),
        ensures
            match r {
                Ok(_) => old(self)@.updated(records(changes@)) == Ok::<Sheet, Seq<char>>(
                    final(self)@,
                ),
                Err(name) => old(self)@.updated(records(changes@)) == Err::<Sheet, Seq<char>>(name@)
                    && final(self)@ == old(self)@,
            },
            final(self).wf(),
            old(self)@.unique() ==> final(self)@.unique(),
    {
        let ghost before = self@;
        let ghost made = records(changes@);
        let ghost total = made.len() as int;
        let ghost start = kept(before.rows, made, total);
        let saved = copy_rows(&self.rows);
        let count: usize = changes.len();
        let mut there: Vec<bool> = Vec::new();
        for i in 0..count
            invariant
                count == changes@.len(),
                made == records(changes@),
                self@ == before,
                before.wf(),
                there@.len() == i,
                forall|k: int|
                    0 <= k < i ==> #[trigger] there@[k] == has_row(before.rows, made[k].0),
        {
            there.push(self.has_row(changes[i].0));
        }
        for i in 0..count
            invariant
                count == changes@.len(),
                made == records(changes@),
                before.wf(),
                self@ == (Sheet { rows: kept(before.rows, made, i as int), ..before }),
                self.wf(),
        {
            self.delete(changes[i].0);
        }
        let ghost base = self@;
        proof {
            kept_stays(before, made, total);
        }
        for i in 0..count
            invariant
                count == changes@.len() == total == made.len(),
                made == records(changes@),
                before.wf(),
                start == kept(before.rows, made, total),
                base == (Sheet { rows: start, ..before }),
                base.wf(),
                there@.len() == count,
                forall|k: int|
                    0 <= k < count ==> #[trigger] there@[k] == has_row(before.rows, made[k].0),
                forall|k: int|
                    0 <= k < changes@.len() ==> (#[trigger] changes@[k]).1@.len()
                        == before.columns.len(),
                records(saved@) == before.rows,
                changed(before.rules, before.rows, start, made, i as int) is Ok,
                self@ == (Sheet {
                    rows: changed(before.rules, before.rows, start, made, i as int)->Ok_0,
                    ..before
                }),
                self.wf(),
        {
            assert(made[i as int] == record(changes@[i as int]));
            assert forall|k: int| 0 <= k < made.len() implies (#[trigger] made[k]).1.len()
                == base.columns.len() by {
                assert(made[k] == record(changes@[k]));
                assert(changes@[k].1@.len() == before.columns.len());
            }
            if there[i] {
                assert(changes@[i as int].1@.len() == before.columns.len());
                match self.conflict(&changes[i].1, Some(changes[i].0)) {
                    Some(name) => {
                        proof {
                            a_broken_rule_stays(
                                before.rules,
                                before.rows,
                                start,
                                made,
                                i + 1,
                                total,
                            );
                        }
                        self.rows = saved;
                        assert(self@.rules =~= before.rules);
                        assert(self@.columns =~= before.columns);
                        return Err(name);
                    },
                    None => {
                        let values = copy_values(&changes[i].1);
                        self.put(changes[i].0, values);
                    },
                }
            }
            proof {
                changes_stay(base, before.rows, made, i + 1);
            }
        }
        proof {
            updating_keeps_the_table_here(before, made, changes@);
        }
        Ok(())
    }

    pub fn truncate(&mut self)
        requires
            old(self).wf(),
        ensures
            final(self)@ == (Sheet { rows: Seq::empty(), ..old(self)@ }),
            final(self).wf(),
            final(self)@.unique(),
    {
        let ghost before = self@;
        self.rows = Vec::new();
        assert(self@.rows =~= Seq::empty());
        assert(self@.rules =~= before.rules);
        assert(self@.columns =~= before.columns);
        assert forall|k: int| 0 <= k < self@.rules.len() implies #[trigger] in_table(
            self@.rules[k],
            self@.columns.len() as int,
        ) by {
            assert(in_table(before.rules[k], before.columns.len() as int));
        }
    }

    /// Adds a unique constraint over existing rows, failing if they already hold duplicates.
    pub fn add_unique(
        &mut self,
        name: String,
        columns: Vec<usize>,
        primary: bool,
        is_index: bool,
    ) -> (r: Result<(), ()>)
        requires
            old(self).wf(),
            forall|i: int|
                0 <= i < columns@.len() ==> #[trigger] columns@[i] < old(self).columns@.len(),
        ensures
            ({
                let rule = Rule {
                    name: name@,
                    kind: RuleKind::Unique { columns: positions(columns@), primary },
                    is_index,
                };
                &&& r is Ok <==> distinct_under(rule, old(self)@.rows)
                &&& r is Ok ==> final(self)@ == (Sheet {
                    rules: old(self)@.rules.push(rule),
                    ..old(self)@
                })
                &&& r is Err ==> *final(self) == *old(self)
            }),
            final(self).wf(),
            old(self)@.unique() ==> final(self)@.unique(),
    {
        let ghost rule = Rule {
            name: name@,
            kind: RuleKind::Unique { columns: positions(columns@), primary },
            is_index,
        };
        let ghost before = self@;
        let total: usize = self.rows.len();
        for a in 0..total
            invariant
                total == self.rows@.len(),
                self@ == before,
                before.wf(),
                forall|i: int|
                    0 <= i < columns@.len() ==> #[trigger] columns@[i] < self.columns@.len(),
                rule == (Rule {
                    name: name@,
                    kind: RuleKind::Unique { columns: positions(columns@), primary },
                    is_index,
                }),
                *self == *old(self),
                forall|x: int, y: int|
                    0 <= x < y < total && x < a ==> !clash(
                        positions(columns@),
                        (#[trigger] before.rows[x]).1,
                        (#[trigger] before.rows[y]).1,
                    ),
        {
            for b in a + 1..total
                invariant
                    a < total == self.rows@.len(),
                    self@ == before,
                    before.wf(),
                    forall|i: int|
                        0 <= i < columns@.len() ==> #[trigger] columns@[i] < self.columns@.len(),
                    rule == (Rule {
                        name: name@,
                        kind: RuleKind::Unique { columns: positions(columns@), primary },
                        is_index,
                    }),
                    *self == *old(self),
                    forall|y: int|
                        a < y < b ==> !clash(
                            positions(columns@),
                            before.rows[a as int].1,
                            (#[trigger] before.rows[y]).1,
                        ),
            {
                assert(before.rows[a as int] == record(self.rows@[a as int]));
                assert(before.rows[b as int] == record(self.rows@[b as int]));
                assert(before.rows[a as int].1.len() == before.columns.len());
                assert(before.rows[b as int].1.len() == before.columns.len());
                if clashes(&columns, &self.rows[a].1, &self.rows[b].1) {
                    assert(!distinct_under(rule, before.rows));
                    return Err(());
                }
            }
        }
        assert(distinct_under(rule, before.rows)) by {
            assert forall|x: int, y: int|
                0 <= x < before.rows.len() && 0 <= y < before.rows.len() && x != y implies !clash(
                positions(columns@),
                (#[trigger] before.rows[x]).1,
                (#[trigger] before.rows[y]).1,
            ) by {
                if y < x {
                    assert(!clash(positions(columns@), before.rows[y].1, before.rows[x].1));
                }
            }
        }
        assert(in_table(rule, before.columns.len() as int)) by {
            assert forall|i: int| 0 <= i < columns@.len() implies 0 <= #[trigger] positions(
                columns@,
            )[i] < before.columns.len() by {
                assert(columns@[i] < self.columns@.len());
            }
        }
        let c = Constraint { name, kind: ConstraintKind::Unique { columns, primary }, is_index };
        self.constraints.push(c);
        assert(self@.rules =~= before.rules.push(rule));
        assert(self@.rows =~= before.rows);
        assert(self@.columns =~= before.columns);
        assert forall|k: int| 0 <= k < self@.rules.len() implies #[trigger] in_table(
            self@.rules[k],
            self@.columns.len() as int,
        ) by {
            if k < before.rules.len() {
                assert(in_table(before.rules[k], before.columns.len() as int));
            }
        }
        proof {
            if before.unique() {
                assert forall|k: int| 0 <= k < self@.rules.len() implies #[trigger] distinct_under(
                    self@.rules[k],
                    self@.rows,
                ) by {
                    if k < before.rules.len() {
                        assert(distinct_under(before.rules[k], before.rows));
                    }
                }
            }
        }
        Ok(())
    }

    /// Adds a constraint that concerns rows by themselves, or an index without effect.
    pub fn add_rule(&mut self, name: String, kind: ConstraintKind, is_index: bool)
        requires
            old(self).wf(),
            !(kind is Unique),
        ensures
            final(self)@ == (Sheet {
                rules: old(self)@.rules.push(Rule { name: name@, kind: kind@, is_index }),
                ..old(self)@
            }),
            final(self).wf(),
            old(self)@.unique() ==> final(self)@.unique(),
    {
        let ghost before = self@;
        let c = Constraint { name, kind, is_index };
        self.constraints.push(c);
        assert(self@.rules =~= before.rules.push(c@));
        assert(self@.rows =~= before.rows);
        assert(self@.columns =~= before.columns);
        assert forall|k: int| 0 <= k < self@.rules.len() implies #[trigger] in_table(
            self@.rules[k],
            self@.columns.len() as int,
        ) by {
            if k < before.rules.len() {
                assert(in_table(before.rules[k], before.columns.len() as int));
            }
        }
        proof {
            if before.unique() {
                assert forall|k: int| 0 <= k < self@.rules.len() implies #[trigger] distinct_under(
                    self@.rules[k],
                    self@.rows,
                ) by {
                    if k < before.rules.len() {
                        assert(distinct_under(before.rules[k], before.rows));
                    }
                }
            }
        }
    }

    pub fn has_primary_key(&self) -> (r: bool)
        ensures
            r == self@.has_primary_key(),
    {
        for i in 0..self.constraints.len()
            invariant
                forall|k: int| 0 <= k < i ==> !is_primary(#[trigger] self@.rules[k]),
        {
            assert(self@.rules[i as int] == self.constraints@[i as int]@);
            if let ConstraintKind::Unique { primary, .. } = &self.constraints[i].kind {
                if *primary {
                    assert(is_primary(self@.rules[i as int]));
                    return true;
                }
            }
        }
        false
    }
}

proof fn updating_keeps_the_table_here(
    s: Sheet,
    made: Seq<(int, Seq<Datum>)>,
    changes: Seq<(u64, Vec<Value>)>,
)
    requires
        s.wf(),
        made == records(changes),
        forall|k: int| 0 <= k < changes.len() ==> (#[trigger] changes[k]).1@.len() == s.columns.len(),
        s.updated(made) is Ok,
    ensures
        s.updated(made)->Ok_0.wf(),
        s.unique() ==> s.updated(made)->Ok_0.unique(),
{
    assert forall|k: int| 0 <= k < made.len() implies (#[trigger] made[k]).1.len()
        == s.columns.len() by {
        assert(made[k] == record(changes[k]));
        assert(changes[k].1@.len() == s.columns.len());
    }
    updating_keeps_the_table(s, made);
}

proof fn a_broken_rule_stays(
    rules: Seq<Rule>,
    all: Seq<(int, Seq<Datum>)>,
    start: Seq<(int, Seq<Datum>)>,
    changes: Seq<(int, Seq<Datum>)>,
    m: int,
    n: int,
)
    requires
        0 <= m <= n,
        changed(rules, all, start, changes, m) is Err,
    ensures
        changed(rules, all, start, changes, n) == changed(rules, all, start, changes, m),
    decreases n - m,
{
    if m < n {
        a_broken_rule_stays(rules, all, start, changes, m, n - 1);
    }
}

pub open spec fn opt_id(id: Option<u64>) -> Option<int> {
    match id {
        Some(id) => Some(id as int),
        None => None,
    }
}

pub open spec fn opt_text(s: Option<String>) -> Option<Seq<char>> {
    match s {
        Some(s) => Some(s@),
        None => None,
    }
}

pub fn copy_values(v: &Vec<Value>) -> (r: Vec<Value>)
    ensures
        functions::views(r@) == functions::views(v@),
        r@.len() == v@.len(),
{
    let mut out: Vec<Value> = Vec::new();
    for i in 0..v.len()
        invariant
            out@.len() == i,
            forall|k: int| 0 <= k < i ==> #[trigger] out@[k]@ == v@[k]@,
    {
        out.push(v[i].clone());
    }
    assert(functions::views(out@) =~= functions::views(v@));
    out
}

pub fn copy_rows(v: &Vec<(u64, Vec<Value>)>) -> (r: Vec<(u64, Vec<Value>)>)
    ensures
        records(r@) == records(v@),
{
    let mut out: Vec<(u64, Vec<Value>)> = Vec::new();
    for i in 0..v.len()
        invariant
            out@.len() == i,
            forall|k: int| 0 <= k < i ==> record(#[trigger] out@[k]) == record(v@[k]),
    {
        out.push((v[i].0, copy_values(&v[i].1)));
    }
    assert(records(out@) =~= records(v@));
    out
}

/// How a sequence counts.
#[derive(Debug, Clone, Copy, PartialEq, Eq)]
pub struct SequenceDef {
    pub start: i128,
    pub increment: i128,
    pub min: i128,
    pub max: i128,
    pub cycle: bool,
}

/// All tables, sequences and stored routines. Tables are shared until written.
pub struct Catalog {
    pub tables: Vec<Arc<Table>>,
    pub sequences: Vec<(String, SequenceDef)>,
    pub routines: Vec<Arc<Routine>>,
    /// Bumped on every commit and DDL, so a transaction can tell whether it is still current.
    pub version: u64,
}

/// What a catalog holds.
pub struct Cat {
    pub tables: Seq<Sheet>,
    pub sequences: Seq<(Seq<char>, SequenceDef)>,
    pub routines: Seq<tree::Routine>,
    pub version: u64,
}

pub open spec fn sheets(t: Seq<Arc<Table>>) -> Seq<Sheet> {
    Seq::new(t.len(), |i: int| t[i]@)
}

pub open spec fn named_sequences(s: Seq<(String, SequenceDef)>) -> Seq<(Seq<char>, SequenceDef)> {
    Seq::new(s.len(), |i: int| (s[i].0@, s[i].1))
}

pub open spec fn stored(r: Seq<Arc<Routine>>) -> Seq<tree::Routine> {
    Seq::new(r.len(), |i: int| plsql::routine_tree(*r[i]))
}

impl View for Catalog {
    type V = Cat;

    open spec fn view(&self) -> Cat {
        Cat {
            tables: sheets(self.tables@),
            sequences: named_sequences(self.sequences@),
            routines: stored(self.routines@),
            version: self.version,
        }
    }
}

pub open spec fn table_from(t: Seq<Sheet>, name: Seq<char>, i: int) -> Option<int>
    decreases t.len() - i,
{
    if i < 0 || i >= t.len() {
        None
    } else if t[i].name == name {
        Some(i)
    } else {
        table_from(t, name, i + 1)
    }
}

pub open spec fn sequence_from(
    t: Seq<(Seq<char>, SequenceDef)>,
    name: Seq<char>,
    i: int,
) -> Option<int>
    decreases t.len() - i,
{
    if i < 0 || i >= t.len() {
        None
    } else if t[i].0 == name {
        Some(i)
    } else {
        sequence_from(t, name, i + 1)
    }
}

pub open spec fn routine_from(t: Seq<tree::Routine>, name: Seq<char>, i: int) -> Option<int>
    decreases t.len() - i,
{
    if i < 0 || i >= t.len() {
        None
    } else if t[i].name == name {
        Some(i)
    } else {
        routine_from(t, name, i + 1)
    }
}

/// Whether a rule has a name.
pub open spec fn has_rule(s: Sheet, name: Seq<char>) -> bool {
    exists|k: int| 0 <= k < s.rules.len() && #[trigger] s.rules[k].name == name
}

impl Cat {
    /// Every table is in shape, with its keys apart.
    pub open spec fn wf(self) -> bool {
        forall|i: int|
            0 <= i < self.tables.len() ==> (#[trigger] self.tables[i]).wf()
                && self.tables[i].unique()
    }

    pub open spec fn table(self, name: Seq<char>) -> Option<int> {
        table_from(self.tables, name, 0)
    }

    pub open spec fn sequence(self, name: Seq<char>) -> Option<int> {
        sequence_from(self.sequences, name, 0)
    }

    pub open spec fn routine(self, name: Seq<char>) -> Option<int> {
        routine_from(self.routines, name, 0)
    }

    /// Whether an object, constraint or index already uses a name.
    pub open spec fn name_in_use(self, name: Seq<char>) -> bool {
        self.table(name) is Some || self.sequence(name) is Some || self.routine(name) is Some
            || exists|i: int| 0 <= i < self.tables.len() && has_rule(#[trigger] self.tables[i], name)
    }

    pub open spec fn with_table(self, i: int, s: Sheet) -> Cat {
        Cat { tables: self.tables.update(i, s), ..self }
    }
}

fn copy_positions(v: &Vec<usize>) -> (r: Vec<usize>)
    ensures
        positions(r@) == positions(v@),
{
    let mut out: Vec<usize> = Vec::new();
    for i in 0..v.len()
        invariant
            out@.len() == i,
            forall|k: int| 0 <= k < i ==> #[trigger] out@[k] == v@[k],
    {
        out.push(v[i]);
    }
    assert(positions(out@) =~= positions(v@));
    out
}

pub fn copy_constraint(c: &Constraint) -> (r: Constraint)
    ensures
        r@ == c@,
{
    let kind = match &c.kind {
        ConstraintKind::Unique { columns, primary } => ConstraintKind::Unique {
            columns: copy_positions(columns),
            primary: *primary,
        },
        ConstraintKind::Check(e) => ConstraintKind::Check(ast::copy_expr(e)),
        ConstraintKind::Index => ConstraintKind::Index,
    };
    Constraint { name: c.name.clone(), kind, is_index: c.is_index }
}

pub fn copy_column(c: &TableColumn) -> (r: TableColumn)
    ensures
        r@ == c@,
{
    TableColumn {
        name: c.name.clone(),
        sql_type: c.sql_type,
        default: ast::copy_opt_expr(&c.default),
        not_null: c.not_null,
        identity: c.identity,
    }
}

pub fn copy_columns(v: &Vec<TableColumn>) -> (r: Vec<TableColumn>)
    ensures
        fields(r@) == fields(v@),
{
    let mut out: Vec<TableColumn> = Vec::new();
    for i in 0..v.len()
        invariant
            out@.len() == i,
            forall|k: int| 0 <= k < i ==> #[trigger] out@[k]@ == v@[k]@,
    {
        out.push(copy_column(&v[i]));
    }
    assert(fields(out@) =~= fields(v@));
    out
}

pub fn copy_table(t: &Table) -> (r: Table)
    ensures
        r@ == t@,
{
    let columns = copy_columns(&t.columns);
    let mut constraints: Vec<Constraint> = Vec::new();
    for i in 0..t.constraints.len()
        invariant
            constraints@.len() == i,
            forall|k: int| 0 <= k < i ==> #[trigger] constraints@[k]@ == t.constraints@[k]@,
    {
        constraints.push(copy_constraint(&t.constraints[i]));
    }
    assert(rules(constraints@) =~= rules(t.constraints@));
    Table { name: t.name.clone(), columns, constraints, rows: copy_rows(&t.rows) }
}

impl Catalog {
    pub fn new() -> (c: Catalog)
        ensures
            c@ == (Cat {
                tables: Seq::empty(),
                sequences: Seq::empty(),
                routines: Seq::empty(),
                version: 0,
            }),
            c@.wf(),
    {
        let c = Catalog {
            tables: Vec::new(),
            sequences: Vec::new(),
            routines: Vec::new(),
            version: 0,
        };
        assert(c@.tables =~= Seq::empty());
        assert(c@.sequences =~= Seq::empty());
        assert(c@.routines =~= Seq::empty());
        c
    }

    pub fn copy(&self) -> (c: Catalog)
        ensures
            c@ == self@,
    {
        let mut tables: Vec<Arc<Table>> = Vec::new();
        for i in 0..self.tables.len()
            invariant
                tables@.len() == i,
                forall|k: int| 0 <= k < i ==> #[trigger] tables@[k] == self.tables@[k],
        {
            tables.push(self.tables[i].clone());
        }
        let mut sequences: Vec<(String, SequenceDef)> = Vec::new();
        for i in 0..self.sequences.len()
            invariant
                sequences@.len() == i,
                forall|k: int|
                    0 <= k < i ==> (#[trigger] sequences@[k]).0@ == self.sequences@[k].0@
                        && sequences@[k].1 == self.sequences@[k].1,
        {
            sequences.push((self.sequences[i].0.clone(), self.sequences[i].1));
        }
        let mut routines: Vec<Arc<Routine>> = Vec::new();
        for i in 0..self.routines.len()
            invariant
                routines@.len() == i,
                forall|k: int| 0 <= k < i ==> #[trigger] routines@[k] == self.routines@[k],
        {
            routines.push(self.routines[i].clone());
        }
        assert(sheets(tables@) =~= sheets(self.tables@));
        assert(named_sequences(sequences@) =~= named_sequences(self.sequences@));
        assert(stored(routines@) =~= stored(self.routines@));
        Catalog { tables, sequences, routines, version: self.version }
    }

    pub fn table(&self, name: &str) -> (r: Option<usize>)
        ensures
            match r {
                Some(i) => self@.table(name@) == Some(i as int) && i < self.tables@.len(),
                None => self@.table(name@) is None,
            },
    {
        let total: usize = self.tables.len();
        let mut i: usize = 0;
        while i < total
            invariant
                i <= total == self.tables@.len(),
                self@.table(name@) == table_from(self@.tables, name@, i as int),
            decreases total - i,
        {
            assert(self@.tables[i as int].name == self.tables@[i as int].name@);
            if text::same(&self.tables[i].name, name) {
                return Some(i);
            }
            i = i + 1;
        }
        None
    }

    pub fn sequence(&self, name: &str) -> (r: Option<usize>)
        ensures
            match r {
                Some(i) => self@.sequence(name@) == Some(i as int) && i < self.sequences@.len(),
                None => self@.sequence(name@) is None,
            },
    {
        let total: usize = self.sequences.len();
        let mut i: usize = 0;
        while i < total
            invariant
                i <= total == self.sequences@.len(),
                self@.sequence(name@) == sequence_from(self@.sequences, name@, i as int),
            decreases total - i,
        {
            assert(self@.sequences[i as int].0 == self.sequences@[i as int].0@);
            if text::same(&self.sequences[i].0, name) {
                return Some(i);
            }
            i = i + 1;
        }
        None
    }

    pub fn routine(&self, name: &str) -> (r: Option<usize>)
        ensures
            match r {
                Some(i) => self@.routine(name@) == Some(i as int) && i < self.routines@.len(),
                None => self@.routine(name@) is None,
            },
    {
        let total: usize = self.routines.len();
        let mut i: usize = 0;
        while i < total
            invariant
                i <= total == self.routines@.len(),
                self@.routine(name@) == routine_from(self@.routines, name@, i as int),
            decreases total - i,
        {
            assert(self@.routines[i as int].name == self.routines@[i as int].name@);
            if text::same(&self.routines[i].name, name) {
                return Some(i);
            }
            i = i + 1;
        }
        None
    }

    /// Whether an object, constraint or index already uses `name`.
    pub fn name_in_use(&self, name: &str) -> (r: bool)
        ensures
            r == self@.name_in_use(name@),
    {
        if self.table(name).is_some() || self.sequence(name).is_some() || self.routine(
            name,
        ).is_some() {
            return true;
        }
        for i in 0..self.tables.len()
            invariant
                forall|k: int| 0 <= k < i ==> !has_rule(#[trigger] self@.tables[k], name@),
        {
            assert(self@.tables[i as int] == self.tables@[i as int]@);
            if rule_named(&self.tables[i], name) {
                assert(has_rule(self@.tables[i as int], name@));
                return true;
            }
        }
        false
    }

    /// Puts a changed table in the place of the one it was.
    pub fn set_table(&mut self, i: usize, t: Table)
        requires
            i < old(self).tables@.len(),
        ensures
            final(self)@ == old(self)@.with_table(i as int, t@),
            old(self)@.wf() && t@.wf() && t@.unique() ==> final(self)@.wf(),
    {
        let ghost before = self@;
        self.tables.set(i, Arc::new(t));
        assert(self@.tables =~= before.tables.update(i as int, t@));
    }
}

pub fn rule_named(t: &Table, name: &str) -> (r: bool)
    ensures
        r == has_rule(t@, name@),
{
    for k in 0..t.constraints.len()
        invariant
            forall|j: int| 0 <= j < k ==> #[trigger] t@.rules[j].name != name@,
    {
        assert(t@.rules[k as int] == t.constraints@[k as int]@);
        if text::same(&t.constraints[k].name, name) {
            assert(t@.rules[k as int].name == name@);
            return true;
        }
    }
    false
}

} // verus!
