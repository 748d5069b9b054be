//! INSERT, UPDATE, DELETE and the queries they share rows with.

use vstd::prelude::*;
use vstd::string::*;
use vstd::utf8::*;

use crate::ast;
use crate::ast::{
    BinaryOp,
    Delete,
    Expr,
    Insert,
    Query,
    Returning,
    SelectItem,
    SetExpr,
    TableFactor,
    Update,
};
use crate::catalog;
use crate::catalog::{Cat, Catalog, ConstraintKind, Field, RuleKind, Sheet, Table, TableColumn};
use crate::env::Env;
use crate::error;
use crate::error::{Failure, OraError};
use crate::eval;
use crate::eval::{Ex, RowScope, Scene, Scope};
use crate::functions;
use crate::functions::Due;
use crate::number;
use crate::parser;
use crate::plsql::vars;
use crate::plsql::vars::Vars;
use crate::store;
use crate::store::Place;
use crate::text;
use crate::tree;
use crate::value::{Datum, SqlType, Value};

verus! {

/// One change in a transaction, replayed onto the committed state at COMMIT.
pub enum Change {
    Insert { table: String, id: u64, values: Vec<Value> },
    Update {
        table: String,
        id: u64,
        values: Vec<Value>,
        /// The values before the change, to undo a failed statement.
        old_values: Vec<Value>,
    },
    Delete { table: String, id: u64, old_values: Vec<Value> },
}

/// What a change does.
pub enum Step {
    Insert { table: Seq<char>, id: int, values: Seq<Datum> },
    Update { table: Seq<char>, id: int, values: Seq<Datum>, old_values: Seq<Datum> },
    Delete { table: Seq<char>, id: int, old_values: Seq<Datum> },
}

impl View for Change {
    type V = Step;

    open spec fn view(&self) -> Step {
        match self {
            Change::Insert { table, id, values } => Step::Insert {
                table: table@,
                id: *id as int,
                values: functions::views(values@),
            },
            Change::Update { table, id, values, old_values } => Step::Update {
                table: table@,
                id: *id as int,
                values: functions::views(values@),
                old_values: functions::views(old_values@),
            },
            Change::Delete { table, id, old_values } => Step::Delete {
                table: table@,
                id: *id as int,
                old_values: functions::views(old_values@),
            },
        }
    }
}

pub open spec fn steps(log: Seq<Change>) -> Seq<Step> {
    Seq::new(log.len(), |i: int| log[i]@)
}

pub struct Txn {
    /// The committed version this transaction started from.
    pub base_version: u64,
    /// The committed state plus this transaction's changes.
    pub work: Catalog,
    pub log: Vec<Change>,
}

/// What a transaction holds.
pub struct Deal {
    pub base_version: u64,
    pub work: Cat,
    pub log: Seq<Step>,
}

impl View for Txn {
    type V = Deal;

    open spec fn view(&self) -> Deal {
        Deal { base_version: self.base_version, work: self.work@, log: steps(self.log@) }
    }
}

/// What a statement runs with.
pub struct Dml<'a> {
    pub env: &'a Env,
    pub binds: &'a Vec<Value>,
    pub vars: Option<&'a Vars<'a>>,
}

impl<'a> View for Dml<'a> {
    type V = Scene;

    open spec fn view(&self) -> Scene {
        Scene {
            binds: functions::views(self.binds@),
            env: self.env@,
            vars: match self.vars {
                Some(v) => Some(v@),
                None => None,
            },
            row: None,
        }
    }
}

/// What an expression can see in a row.
pub open spec fn in_row(
    s: Scene,
    qualifier: Seq<char>,
    columns: Seq<Field>,
    values: Seq<Datum>,
    rownum: int,
) -> Scene {
    Scene { row: Some(RowScope { qualifier, columns, values, rownum }), ..s }
}

impl<'a> Dml<'a> {
    pub fn ex(&self) -> (x: Ex<'a>)
        ensures
            x@ == self@,
            x.wf(),
    {
        Ex { binds: self.binds, env: self.env, vars: self.vars, row: None }
    }

    pub fn row(
        &self,
        qualifier: &'a str,
        columns: &'a Vec<TableColumn>,
        values: &'a Vec<Value>,
        rownum: i64,
    ) -> (x: Ex<'a>)
        requires
            columns@.len() == values@.len(),
        ensures
            x@ == in_row(
                self@,
                qualifier@,
                catalog::fields(columns@),
                functions::views(values@),
                rownum as int,
            ),
            x.wf(),
    {
        Ex {
            binds: self.binds,
            env: self.env,
            vars: self.vars,
            row: Some(Scope { qualifier, columns, values, rownum }),
        }
    }
}

/// Whether a list came out as it was due, where it was.
pub open spec fn lists(due: Result<Seq<Datum>, Failure>, r: Result<Vec<Value>, OraError>) -> bool {
    due == Err::<Seq<Datum>, Failure>(eval::free()) || match r {
        Ok(a) => due == Ok::<Seq<Datum>, Failure>(functions::views(a@)),
        Err(e) => due == Err::<Seq<Datum>, Failure>(e@),
    }
}

/// Whether rows came out as they were due, where they were.
pub open spec fn tables(
    due: Result<Seq<Seq<Datum>>, Failure>,
    r: Result<Vec<Vec<Value>>, OraError>,
) -> bool {
    due == Err::<Seq<Seq<Datum>>, Failure>(eval::free()) || match r {
        Ok(a) => due == Ok::<Seq<Seq<Datum>>, Failure>(vars::value_rows(a@)),
        Err(e) => due == Err::<Seq<Seq<Datum>>, Failure>(e@),
    }
}

/// The ids and values of the rows among the first `n` that a WHERE clause selects.
pub open spec fn matching(
    s: Scene,
    qualifier: Seq<char>,
    sheet: Sheet,
    where_: Option<tree::Expr>,
    n: int,
) -> Result<Seq<(int, Seq<Datum>)>, Failure>
    decreases n,
{
    if n <= 0 || n > sheet.rows.len() {
        Ok(Seq::empty())
    } else {
        match matching(s, qualifier, sheet, where_, n - 1) {
            Err(e) => Err(e),
            Ok(out) => match where_ {
                None => Ok(out.push(sheet.rows[n - 1])),
                Some(w) => match eval::truth(
                    eval::evaluated(
                        in_row(
                            s,
                            qualifier,
                            sheet.columns,
                            sheet.rows[n - 1].1,
                            capped(out.len() as int),
                        ),
                        w,
                    ),
                ) {
                    Err(e) => Err(e),
                    Ok(t) => Ok(
                        if t == Some(true) {
                            out.push(sheet.rows[n - 1])
                        } else {
                            out
                        },
                    ),
                },
            },
        }
    }
}

/// The number behind `n`, as far as it fits.
pub open spec fn capped(n: int) -> int {
    if n < i64::MAX {
        n + 1
    } else {
        i64::MAX as int
    }
}

fn count_on(n: usize) -> (r: i64)
    ensures
        r == capped(n as int),
{
    if (n as u128) < i64::MAX as u128 {
        n as i64 + 1
    } else {
        i64::MAX
    }
}

proof fn matching_fails_on(
    s: Scene,
    qualifier: Seq<char>,
    sheet: Sheet,
    where_: Option<tree::Expr>,
    n: int,
    m: int,
)
    requires
        0 <= n <= m <= sheet.rows.len(),
        matching(s, qualifier, sheet, where_, n) is Err,
    ensures
        matching(s, qualifier, sheet, where_, m) == matching(s, qualifier, sheet, where_, n),
    decreases m - n,
{
    if n < m {
        matching_fails_on(s, qualifier, sheet, where_, n, m - 1);
    }
}

/// The ids and values of the rows a WHERE clause selects.
pub fn matching_rows(
    ctx: &Dml,
    qualifier: &str,
    t: &Table,
    where_: &Option<Expr>,
) -> (r: Result<Vec<(u64, Vec<Value>)>, OraError>)
    requires
        t.wf(),
    ensures
        ({
            let due = matching(
                ctx@,
                qualifier@,
                t@,
                ast::opt_expr_tree(*where_),
                t@.rows.len() as int,
            );
            due == Err::<Seq<(int, Seq<Datum>)>, Failure>(eval::free()) || match r {
                Ok(a) => due == Ok::<Seq<(int, Seq<Datum>)>, Failure>(catalog::records(a@)),
                Err(e) => due == Err::<Seq<(int, Seq<Datum>)>, Failure>(e@),
            }
        }),
        r matches Ok(a) ==> forall|k: int|
            0 <= k < a@.len() ==> (#[trigger] a@[k]).1@.len() == t.columns@.len(),
{
    let ghost w = ast::opt_expr_tree(*where_);
    let ghost total = t@.rows.len() as int;
    let mut out: Vec<(u64, Vec<Value>)> = Vec::new();
    assert(catalog::records(out@) =~= Seq::empty());
    for i in 0..t.rows.len()
        invariant
            t.wf(),
            w == ast::opt_expr_tree(*where_),
            total == t@.rows.len() == t.rows@.len(),
            ({
                let due = matching(ctx@, qualifier@, t@, w, i as int);
                due == Err::<Seq<(int, Seq<Datum>)>, Failure>(eval::free()) || due == Ok::<
                    Seq<(int, Seq<Datum>)>,
                    Failure,
                >(catalog::records(out@))
            }),
            forall|k: int| 0 <= k < out@.len() ==> (#[trigger] out@[k]).1@.len() == t.columns@.len(),
    {
        assert(t@.rows[i as int] == catalog::record(t.rows@[i as int]));
        assert(t@.rows[i as int].1.len() == t@.columns.len());
        let row = &t.rows[i];
        let keep = match where_ {
            None => true,
            Some(e) => {
                let x = ctx.row(qualifier, &t.columns, &row.1, count_on(out.len()));
                match x.eval_bool(e) {
                    Ok(Some(b)) => b,
                    Ok(None) => false,
                    Err(e) => {
                        proof {
                            let due = matching(ctx@, qualifier@, t@, w, i as int);
                            if due == Err::<Seq<(int, Seq<Datum>)>, Failure>(eval::free()) {
                                matching_fails_on(ctx@, qualifier@, t@, w, i as int, total);
                            } else {
                                matching_fails_on(ctx@, qualifier@, t@, w, i + 1, total);
                            }
                        }
                        return Err(e);
                    },
                }
            },
        };
        if keep {
            let ghost before = out@;
            let values = catalog::copy_values(&row.1);
            out.push((row.0, values));
            assert(catalog::records(out@) =~= catalog::records(before).push(t@.rows[i as int]));
        }
    }
    Ok(out)
}

/// A row's values for the first `n` expressions.
pub open spec fn returned_row(
    s: Scene,
    qualifier: Seq<char>,
    columns: Seq<Field>,
    values: Seq<Datum>,
    exprs: Seq<tree::Expr>,
) -> Result<Seq<Datum>, Failure> {
    eval::evaluated_upto(in_row(s, qualifier, columns, values, 0), exprs, exprs.len() as int)
}

/// What a RETURNING clause gives for the first `n` rows.
pub open spec fn returned(
    s: Scene,
    qualifier: Seq<char>,
    columns: Seq<Field>,
    returning: Option<tree::Returning>,
    rows: Seq<Seq<Datum>>,
    n: int,
) -> Result<Seq<Seq<Datum>>, Failure>
    decreases n,
{
    match returning {
        None => Ok(Seq::empty()),
        Some(r) => if n <= 0 || n > rows.len() {
            Ok(Seq::empty())
        } else {
            match returned(s, qualifier, columns, returning, rows, n - 1) {
                Err(e) => Err(e),
                Ok(out) => match returned_row(s, qualifier, columns, rows[n - 1], r.exprs) {
                    Err(e) => Err(e),
                    Ok(v) => Ok(out.push(v)),
                },
            }
        },
    }
}

proof fn returned_fails_on(
    s: Scene,
    qualifier: Seq<char>,
    columns: Seq<Field>,
    returning: Option<tree::Returning>,
    rows: Seq<Seq<Datum>>,
    n: int,
    m: int,
)
    requires
        0 <= n <= m <= rows.len(),
        returned(s, qualifier, columns, returning, rows, n) is Err,
    ensures
        returned(s, qualifier, columns, returning, rows, m) == returned(
            s,
            qualifier,
            columns,
            returning,
            rows,
            n,
        ),
    decreases m - n,
{
    if n < m {
        returned_fails_on(s, qualifier, columns, returning, rows, n, m - 1);
    }
}

/// Evaluates RETURNING expressions over the rows a statement changed.
pub fn returning_rows(
    ctx: &Dml,
    qualifier: &str,
    columns: &Vec<TableColumn>,
    returning: &Option<Returning>,
    rows: &Vec<Vec<Value>>,
) -> (r: Result<Vec<Vec<Value>>, OraError>)
    requires
        forall|k: int| 0 <= k < rows@.len() ==> (#[trigger] rows@[k])@.len() == columns@.len(),
    ensures
        tables(
            returned(
                ctx@,
                qualifier@,
                catalog::fields(columns@),
                ast::opt_returning_tree(*returning),
                vars::value_rows(rows@),
                rows@.len() as int,
            ),
            r,
        ),
{
    let ghost cols = catalog::fields(columns@);
    let ghost ret = ast::opt_returning_tree(*returning);
    let ghost all = vars::value_rows(rows@);
    let ghost total = rows@.len() as int;
    let mut out: Vec<Vec<Value>> = Vec::new();
    assert(vars::value_rows(out@) =~= Seq::empty());
    let exprs = match returning {
        None => {
            return Ok(out);
        },
        Some(x) => &x.exprs,
    };
    for i in 0..rows.len()
        invariant
            cols == catalog::fields(columns@),
            ret == ast::opt_returning_tree(*returning),
            ret == Some(tree::Returning { exprs: ast::exprs_tree(*exprs), into: ret->0.into }),
            all == vars::value_rows(rows@),
            total == rows@.len(),
            forall|k: int| 0 <= k < rows@.len() ==> (#[trigger] rows@[k])@.len() == columns@.len(),
            returned(ctx@, qualifier@, cols, ret, all, i as int) == Err::<
                Seq<Seq<Datum>>,
                Failure,
            >(eval::free()) || returned(ctx@, qualifier@, cols, ret, all, i as int) == Ok::<
                Seq<Seq<Datum>>,
                Failure,
            >(vars::value_rows(out@)),
    {
        assert(all[i as int] == functions::views(rows@[i as int]@));
        assert(ast::exprs_tree(*exprs).len() == exprs@.len());
        let x = ctx.row(qualifier, columns, &rows[i], 0);
        match x.eval_all(exprs) {
            Ok(v) => {
                let ghost before = out@;
                out.push(v);
                assert(vars::value_rows(out@) =~= vars::value_rows(before).push(
                    functions::views(v@),
                ));
            },
            Err(e) => {
                proof {
                    let due = returned(ctx@, qualifier@, cols, ret, all, i as int);
                    if due == Err::<Seq<Seq<Datum>>, Failure>(eval::free()) {
                        returned_fails_on(ctx@, qualifier@, cols, ret, all, i as int, total);
                    } else {
                        returned_fails_on(ctx@, qualifier@, cols, ret, all, i + 1, total);
                    }
                }
                return Err(e);
            },
        }
    }
    Ok(out)
}

/// Why a row is refused: a NULL where none may be, or a CHECK that fails.
pub open spec fn null_refused(
    user: Seq<char>,
    sheet: Sheet,
    values: Seq<Datum>,
    updating: bool,
    i: int,
) -> Option<Failure>
    decreases sheet.columns.len() - i,
{
    if i < 0 || i >= sheet.columns.len() {
        None
    } else if sheet.columns[i].not_null && values[i] is Null {
        Some(null_failure(user, sheet.name, sheet.columns[i].name, updating))
    } else {
        null_refused(user, sheet, values, updating, i + 1)
    }
}

pub open spec fn null_failure(
    user: Seq<char>,
    table: Seq<char>,
    column: Seq<char>,
    updating: bool,
) -> Failure {
    let target = "(\""@ + user + "\".\""@ + table + "\".\""@ + column + "\")"@;
    if updating {
        error::failure(1407, "cannot update "@ + target + " to NULL"@)
    } else {
        error::failure(1400, "cannot insert NULL into "@ + target)
    }
}

fn null_error(user: &str, table: &str, column: &str, updating: bool) -> (e: OraError)
    ensures
        e@ == null_failure(user@, table@, column@, updating),
{
    let mut target = "(\"".to_owned();
    target.append(user);
    target.append("\".\"");
    target.append(table);
    target.append("\".\"");
    target.append(column);
    target.append("\")");
    if updating {
        let m = text::join(&text::join("cannot update ", &target), " to NULL");
        OraError { code: 1407, message: m }
    } else {
        OraError { code: 1400, message: text::join("cannot insert NULL into ", &target) }
    }
}

pub open spec fn check_failure(user: Seq<char>, name: Seq<char>) -> Failure {
    error::failure(2290, "check constraint ("@ + user + "."@ + name + ") violated"@)
}

/// Why a CHECK from `i` on refuses a row.
pub open spec fn check_refused(s: Scene, sheet: Sheet, values: Seq<Datum>, i: int) -> Option<Failure>
    decreases sheet.rules.len() - i,
{
    if i < 0 || i >= sheet.rules.len() {
        None
    } else {
        match sheet.rules[i].kind {
            RuleKind::Check(e) => match eval::truth(
                eval::evaluated(in_row(s, sheet.name, sheet.columns, values, 0), e),
            ) {
                Err(e) => Some(e),
                Ok(t) => if t == Some(false) {
                    Some(check_failure(s.env.user, sheet.rules[i].name))
                } else {
                    check_refused(s, sheet, values, i + 1)
                },
            },
            _ => check_refused(s, sheet, values, i + 1),
        }
    }
}

#[verifier::opaque]
pub open spec fn row_refused(s: Scene, sheet: Sheet, values: Seq<Datum>, updating: bool) -> Option<
    Failure,
> {
    match null_refused(s.env.user, sheet, values, updating, 0) {
        Some(e) => Some(e),
        None => check_refused(s, sheet, values, 0),
    }
}

/// Checks NOT NULL and CHECK constraints for a full row.
pub fn check_row(ctx: &Dml, t: &Table, values: &Vec<Value>, updating: bool) -> (r: Result<
    (),
    OraError,
>)
    requires
        values@.len() == t.columns@.len(),
    ensures
        ({
            let due = row_refused(ctx@, t@, functions::views(values@), updating);
            due == Some(eval::free()) || match r {
                Ok(_) => due is None,
                Err(e) => due == Some(e@),
            }
        }),
{
    proof {
        reveal(row_refused);
    }
    let ghost v = functions::views(values@);
    let total: usize = t.columns.len();
    let mut i: usize = 0;
    while i < total
        invariant
            i <= total == t.columns@.len() == values@.len(),
            v == functions::views(values@),
            null_refused(ctx@.env.user, t@, v, updating, 0) == null_refused(
                ctx@.env.user,
                t@,
                v,
                updating,
                i as int,
            ),
        decreases total - i,
    {
        assert(t@.columns[i as int] == t.columns@[i as int]@);
        if t.columns[i].not_null && values[i].is_null() {
            proof {
                reveal(row_refused);
            }
            return Err(null_error(&ctx.env.user, &t.name, &t.columns[i].name, updating));
        }
        i = i + 1;
    }
    let count: usize = t.constraints.len();
    let mut k: usize = 0;
    while k < count
        invariant
            k <= count == t.constraints@.len(),
            v == functions::views(values@),
            values@.len() == t.columns@.len(),
            row_refused(ctx@, t@, v, updating) == Some(eval::free()) || row_refused(
                ctx@,
                t@,
                v,
                updating,
            ) == check_refused(ctx@, t@, v, k as int),
        decreases count - k,
    {
        proof {
            reveal(row_refused);
        }
        assert(t@.rules[k as int] == t.constraints@[k as int]@);
        if let ConstraintKind::Check(e) = &t.constraints[k].kind {
            let x = ctx.row(&t.name, &t.columns, values, 0);
            match x.eval_bool(e) {
                Err(e) => {
                    return Err(e);
                },
                Ok(Some(false)) => {
                    let mut m = "check constraint (".to_owned();
                    m.append(&ctx.env.user);
                    m.append(".");
                    m.append(&t.constraints[k].name);
                    m.append(") violated");
                    return Err(OraError { code: 2290, message: m });
                },
                Ok(_) => {},
            }
        }
        k = k + 1;
    }
    Ok(())
}

pub open spec fn no_column(name: Seq<char>) -> Failure {
    error::invalid_identifier(eval::quoted_name(None, name))
}

pub fn no_column_error(name: &str) -> (e: OraError)
    ensures
        e@ == no_column(name@),
{
    let mut s = String::new();
    s.push('"');
    s.append(name);
    s.push('"');
    assert(s@ =~= eval::quoted_name(None, name@));
    OraError::invalid_identifier(&s)
}

/// The positions of the columns that the first `n` names name. A column that is named
/// twice fails with a given error.
pub open spec fn columns_of(
    columns: Seq<Field>,
    names: Seq<Seq<char>>,
    twice: Failure,
    n: int,
) -> Result<Seq<int>, Failure>
    decreases n,
{
    if n <= 0 || n > names.len() {
        Ok(Seq::empty())
    } else {
        match columns_of(columns, names, twice, n - 1) {
            Err(e) => Err(e),
            Ok(out) => match catalog::index_of_field(columns, names[n - 1], 0) {
                None => Err(no_column(names[n - 1])),
                Some(i) => if out.contains(i) {
                    Err(twice)
                } else {
                    Ok(out.push(i))
                },
            },
        }
    }
}

proof fn columns_fail_on(
    columns: Seq<Field>,
    names: Seq<Seq<char>>,
    twice: Failure,
    n: int,
    m: int,
)
    requires
        0 <= n <= m <= names.len(),
        columns_of(columns, names, twice, n) is Err,
    ensures
        columns_of(columns, names, twice, m) == columns_of(columns, names, twice, n),
    decreases m - n,
{
    if n < m {
        columns_fail_on(columns, names, twice, n, m - 1);
    }
}

fn holds_position(v: &Vec<usize>, x: usize) -> (r: Option<usize>)
    ensures
        match r {
            Some(k) => k < v@.len() && v@[k as int] == x && position_from(
                catalog::positions(v@),
                x as int,
                0,
            ) == Some(k as int),
            None => position_from(catalog::positions(v@), x as int, 0) is None && forall|j: int|
                0 <= j < v@.len() ==> v@[j] != x,
        },
{
    let total: usize = v.len();
    let mut k: usize = 0;
    while k < total
        invariant
            k <= total == v@.len(),
            forall|j: int| 0 <= j < k ==> v@[j] != x,
            position_from(catalog::positions(v@), x as int, 0) == position_from(
                catalog::positions(v@),
                x as int,
                k as int,
            ),
        decreases total - k,
    {
        assert(catalog::positions(v@)[k as int] == v@[k as int]);
        if v[k] == x {
            return Some(k);
        }
        k = k + 1;
    }
    None
}

/// Finds the columns that names name.
pub fn find_columns(
    columns: &Vec<TableColumn>,
    names: &Vec<String>,
    code: u32,
    message: &str,
) -> (r: Result<Vec<usize>, OraError>)
    ensures
        ({
            let due = columns_of(
                catalog::fields(columns@),
                ast::texts_tree(*names),
                error::failure(code as int, message@),
                names@.len() as int,
            );
            match r {
                Ok(v) => due == Ok::<Seq<int>, Failure>(catalog::positions(v@)) && v@.len()
                    == names@.len(),
                Err(e) => due == Err::<Seq<int>, Failure>(e@),
            }
        }),
        r matches Ok(v) ==> forall|k: int| 0 <= k < v@.len() ==> #[trigger] v@[k] < columns@.len(),
{
    let ghost cols = catalog::fields(columns@);
    let ghost all = ast::texts_tree(*names);
    let ghost twice = error::failure(code as int, message@);
    let mut out: Vec<usize> = Vec::new();
    assert(catalog::positions(out@) =~= Seq::empty());
    for i in 0..names.len()
        invariant
            cols == catalog::fields(columns@),
            all == ast::texts_tree(*names),
            twice == error::failure(code as int, message@),
            out@.len() == i,
            columns_of(cols, all, twice, i as int) == Ok::<Seq<int>, Failure>(
                catalog::positions(out@),
            ),
            forall|k: int| 0 <= k < out@.len() ==> #[trigger] out@[k] < columns@.len(),
    {
        assert(all[i as int] == names@[i as int]@);
        match eval::field_index(columns, &names[i]) {
            None => {
                proof {
                    columns_fail_on(cols, all, twice, i + 1, all.len() as int);
                }
                return Err(no_column_error(&names[i]));
            },
            Some(k) => match holds_position(&out, k) {
                Some(j) => {
                    proof {
                        assert(catalog::positions(out@)[j as int] == k);
                        assert(catalog::positions(out@).contains(k as int));
                        columns_fail_on(cols, all, twice, i + 1, all.len() as int);
                    }
                    return Err(OraError::new(code, message));
                },
                None => {
                    let ghost before = out@;
                    assert(!catalog::positions(out@).contains(k as int)) by {
                        if catalog::positions(out@).contains(k as int) {
                            let j = choose|j: int|
                                0 <= j < out@.len() && catalog::positions(out@)[j] == k;
                            assert(out@[j] == k);
                        }
                    }
                    out.push(k);
                    assert(catalog::positions(out@) =~= catalog::positions(before).push(k as int));
                },
            },
        }
    }
    Ok(out)
}

pub open spec fn duplicate_column() -> Failure {
    error::failure(957, "duplicate column name"@)
}

/// The columns that an INSERT fills.
pub open spec fn insert_targets(columns: Seq<Field>, names: Option<Seq<Seq<char>>>) -> Result<
    Seq<int>,
    Failure,
> {
    match names {
        Some(n) => columns_of(columns, n, duplicate_column(), n.len() as int),
        None => Ok(Seq::new(columns.len(), |i: int| i)),
    }
}

pub fn find_targets(columns: &Vec<TableColumn>, names: &Option<Vec<String>>) -> (r: Result<
    Vec<usize>,
    OraError,
>)
    ensures
        match r {
            Ok(v) => insert_targets(
                catalog::fields(columns@),
                ast::opt_texts_tree(*names),
            ) == Ok::<Seq<int>, Failure>(catalog::positions(v@)),
            Err(e) => insert_targets(
                catalog::fields(columns@),
                ast::opt_texts_tree(*names),
            ) == Err::<Seq<int>, Failure>(e@),
        },
        r matches Ok(v) ==> forall|k: int| 0 <= k < v@.len() ==> #[trigger] v@[k] < columns@.len(),
{
    match names {
        Some(n) => find_columns(columns, n, 957, "duplicate column name"),
        None => {
            let mut out: Vec<usize> = Vec::new();
            for i in 0..columns.len()
                invariant
                    out@.len() == i,
                    forall|k: int| 0 <= k < i ==> #[trigger] out@[k] == k,
            {
                out.push(i);
            }
            assert(catalog::positions(out@) =~= Seq::new(columns@.len(), |i: int| i));
            Ok(out)
        },
    }
}

/// Counters of a database: the numbers that identity columns got last, and the next row id.
pub struct Counters {
    pub identities: Vec<(String, i64)>,
    pub next_row: u64,
}

pub struct Tally {
    pub identities: Seq<(Seq<char>, int)>,
    pub next_row: int,
}

pub open spec fn named_numbers(v: Seq<(String, i64)>) -> Seq<(Seq<char>, int)> {
    Seq::new(v.len(), |i: int| (v[i].0@, v[i].1 as int))
}

impl View for Counters {
    type V = Tally;

    open spec fn view(&self) -> Tally {
        Tally { identities: named_numbers(self.identities@), next_row: self.next_row as int }
    }
}

pub open spec fn number_from(v: Seq<(Seq<char>, int)>, name: Seq<char>, i: int) -> Option<int>
    decreases v.len() - i,
{
    if i < 0 || i >= v.len() {
        None
    } else if v[i].0 == name {
        Some(i)
    } else {
        number_from(v, name, i + 1)
    }
}

impl Tally {
    /// The number that a table's identity column gets next, and the counters behind it.
    pub open spec fn next_identity(self, table: Seq<char>) -> (int, Tally) {
        match number_from(self.identities, table, 0) {
            Some(i) => {
                let n = capped(self.identities[i].1);
                (n, Tally { identities: self.identities.update(i, (table, n)), ..self })
            },
            None => (1, Tally { identities: self.identities.push((table, 1)), ..self }),
        }
    }

    pub open spec fn without_identity(self, table: Seq<char>) -> Tally {
        match number_from(self.identities, table, 0) {
            Some(i) => Tally { identities: self.identities.remove(i), ..self },
            None => self,
        }
    }
}

impl Counters {
    fn find(&self, table: &str) -> (r: Option<usize>)
        ensures
            match r {
                Some(i) => number_from(self@.identities, table@, 0) == Some(i as int) && i
                    < self.identities@.len(),
                None => number_from(self@.identities, table@, 0) is None,
            },
    {
        let total: usize = self.identities.len();
        let mut i: usize = 0;
        while i < total
            invariant
                i <= total == self.identities@.len(),
                number_from(self@.identities, table@, 0) == number_from(
                    self@.identities,
                    table@,
                    i as int,
                ),
            decreases total - i,
        {
            assert(self@.identities[i as int].0 == self.identities@[i as int].0@);
            if text::same(&self.identities[i].0, table) {
                return Some(i);
            }
            i = i + 1;
        }
        None
    }

    /// The number that a table's identity column gets next.
    pub fn next_identity(&mut self, table: &str) -> (n: i64)
        ensures
            (n as int, final(self)@) == old(self)@.next_identity(table@),
    {
        let ghost before = self@;
        match self.find(table) {
            Some(i) => {
                let last: i64 = self.identities[i].1;
                let n: i64 = if last < i64::MAX {
                    last + 1
                } else {
                    i64::MAX
                };
                self.identities.set(i, (table.to_owned(), n));
                assert(self@.identities =~= before.identities.update(i as int, (table@, n as int)));
                n
            },
            None => {
                self.identities.push((table.to_owned(), 1));
                assert(self@.identities =~= before.identities.push((table@, 1)));
                1
            },
        }
    }

    pub fn drop_identity(&mut self, table: &str)
        ensures
            final(self)@ == old(self)@.without_identity(table@),
    {
        let ghost before = self@;
        match self.find(table) {
            Some(i) => {
                self.identities.remove(i);
                assert(self@.identities =~= before.identities.remove(i as int));
            },
            None => {},
        }
    }
}

/// The value that an INSERT gives to a column, if it gives one.
pub open spec fn given(targets: Seq<int>, src: Seq<Datum>, column: int) -> Option<Datum> {
    match position_from(targets, column, 0) {
        Some(k) => if k < src.len() {
            Some(src[k])
        } else {
            None
        },
        None => None,
    }
}

/// The first place of a number from `i` on.
pub open spec fn position_from(v: Seq<int>, x: int, i: int) -> Option<int>
    decreases v.len() - i,
{
    if i < 0 || i >= v.len() {
        None
    } else if v[i] == x {
        Some(i)
    } else {
        position_from(v, x, i + 1)
    }
}

/// Values built so far, the counters behind them, and why building stopped, if it did.
pub struct Built {
    pub row: Seq<Datum>,
    pub tally: Tally,
    pub failure: Option<Failure>,
}

/// What a column gets: the value given, the next identity, or the default.
pub open spec fn column_due(
    s: Scene,
    sheet: Sheet,
    tally: Tally,
    field: Field,
    given: Option<Datum>,
) -> (Due, Tally) {
    match given {
        Some(v) => if field.identity && v is Null {
            let (n, t) = tally.next_identity(sheet.name);
            (Ok(vars::integer_value(n)), t)
        } else {
            (Ok(v), tally)
        },
        None => if field.identity {
            let (n, t) = tally.next_identity(sheet.name);
            (Ok(vars::integer_value(n)), t)
        } else {
            match field.default {
                Some(d) => (eval::evaluated(s, d), tally),
                None => (Ok(Datum::Null), tally),
            }
        },
    }
}

pub open spec fn place_of(s: Scene, sheet: Sheet, field: Field) -> Place {
    Place { user: s.env.user, table: sheet.name, column: field.name }
}

/// The first `n` columns of a row that is inserted.
pub open spec fn built(
    s: Scene,
    sheet: Sheet,
    tally: Tally,
    targets: Seq<int>,
    src: Seq<Datum>,
    n: int,
) -> Built
    decreases n,
{
    if n <= 0 || n > sheet.columns.len() {
        Built { row: Seq::empty(), tally, failure: None }
    } else {
        let b = built(s, sheet, tally, targets, src, n - 1);
        if b.failure is Some {
            b
        } else {
            let field = sheet.columns[n - 1];
            let (due, t) = column_due(s, sheet, b.tally, field, given(targets, src, n - 1));
            match due {
                Err(e) => Built { row: b.row, tally: t, failure: Some(e) },
                Ok(v) => match store::stored_value(
                    s.env,
                    place_of(s, sheet, field),
                    field.sql_type,
                    v,
                ) {
                    Err(e) => Built { row: b.row, tally: t, failure: Some(e) },
                    Ok(v) => Built { row: b.row.push(v), tally: t, failure: None },
                },
            }
        }
    }
}

proof fn built_fails_on(
    s: Scene,
    sheet: Sheet,
    tally: Tally,
    targets: Seq<int>,
    src: Seq<Datum>,
    n: int,
    m: int,
)
    requires
        0 <= n <= m <= sheet.columns.len(),
        built(s, sheet, tally, targets, src, n).failure is Some,
    ensures
        built(s, sheet, tally, targets, src, m) == built(s, sheet, tally, targets, src, n),
    decreases m - n,
{
    if n < m {
        built_fails_on(s, sheet, tally, targets, src, n, m - 1);
    }
}

fn column_value(
    ctx: &Dml,
    t: &Table,
    counters: &mut Counters,
    i: usize,
    targets: &Vec<usize>,
    src: &Vec<Value>,
) -> (r: Result<Value, OraError>)
    requires
        i < t.columns@.len(),
    ensures
        ({
            let (due, tally) = column_due(
                ctx@,
                t@,
                old(counters)@,
                t@.columns[i as int],
                given(catalog::positions(targets@), functions::views(src@), i as int),
            );
            eval::tells(due, r) && final(counters)@ == tally
        }),
{
    let col = &t.columns[i];
    assert(t@.columns[i as int] == col@);
    let mut found: Option<Value> = None;
    match holds_position(targets, i) {
        Some(k) => {
            if k < src.len() {
                found = Some(src[k].clone());
            }
        },
        None => {},
    }
    match found {
        Some(v) => {
            if col.identity && v.is_null() {
                Ok(Value::number(counters.next_identity(&t.name)))
            } else {
                Ok(v)
            }
        },
        None => {
            if col.identity {
                Ok(Value::number(counters.next_identity(&t.name)))
            } else {
                match &col.default {
                    Some(d) => ctx.ex().eval(d),
                    None => Ok(Value::Null),
                }
            }
        },
    }
}

/// Whether counters and a row came out as they were due, where they were.
pub open spec fn builds(b: Built, tally: Tally, r: Result<Vec<Value>, OraError>) -> bool {
    b.failure == Some(eval::free()) || (tally == b.tally && match r {
        Ok(v) => b.failure is None && functions::views(v@) == b.row,
        Err(e) => b.failure == Some(e@),
    })
}

/// Builds the full row that an INSERT puts in a table.
#[verifier::loop_isolation(false)]
fn build_row(
    ctx: &Dml,
    t: &Table,
    counters: &mut Counters,
    targets: &Vec<usize>,
    src: &Vec<Value>,
) -> (r: Result<Vec<Value>, OraError>)
    ensures
        builds(
            built(
                ctx@,
                t@,
                old(counters)@,
                catalog::positions(targets@),
                functions::views(src@),
                t@.columns.len() as int,
            ),
            final(counters)@,
            r,
        ),
        final(counters)@.next_row == old(counters)@.next_row,
        r matches Ok(v) ==> v@.len() == t.columns@.len(),
{
    let ghost start = counters@;
    let ghost tp = catalog::positions(targets@);
    let ghost given_values = functions::views(src@);
    let ghost total = t@.columns.len() as int;
    let mut out: Vec<Value> = Vec::new();
    assert(functions::views(out@) =~= Seq::empty());
    for i in 0..t.columns.len()
        invariant
            tp == catalog::positions(targets@),
            given_values == functions::views(src@),
            total == t@.columns.len() == t.columns@.len(),
            out@.len() == i,
            counters@.next_row == start.next_row,
            ({
                let b = built(ctx@, t@, start, tp, given_values, i as int);
                b.failure == Some(eval::free()) || (b.failure is None && b.tally == counters@
                    && b.row == functions::views(out@))
            }),
    {
        let ghost b = built(ctx@, t@, start, tp, given_values, i as int);
        assert(t@.columns[i as int] == t.columns@[i as int]@);
        let v = match column_value(ctx, t, counters, i, targets, src) {
            Ok(v) => v,
            Err(e) => {
                proof {
                    if b.failure is Some {
                        built_fails_on(ctx@, t@, start, tp, given_values, i as int, total);
                    } else {
                        built_fails_on(ctx@, t@, start, tp, given_values, i + 1, total);
                    }
                }
                return Err(e);
            },
        };
        let col = &t.columns[i];
        match store::store_value(ctx.env, &ctx.env.user, &t.name, &col.name, col.sql_type, v) {
            Ok(v) => {
                let ghost before = out@;
                out.push(v);
                assert(functions::views(out@) =~= functions::views(before).push(v@));
            },
            Err(e) => {
                proof {
                    if b.failure is Some {
                        built_fails_on(ctx@, t@, start, tp, given_values, i as int, total);
                    } else {
                        built_fails_on(ctx@, t@, start, tp, given_values, i + 1, total);
                    }
                }
                return Err(e);
            },
        }
    }
    Ok(out)
}

/// Rows built so far, the counters behind them, and why building stopped, if it did.
pub struct BuiltRows {
    pub rows: Seq<Seq<Datum>>,
    pub tally: Tally,
    pub failure: Option<Failure>,
}

/// The rows that the first `n` sources make.
pub open spec fn built_rows(
    s: Scene,
    sheet: Sheet,
    tally: Tally,
    targets: Seq<int>,
    sources: Seq<Seq<Datum>>,
    n: int,
) -> BuiltRows
    decreases n,
{
    if n <= 0 || n > sources.len() {
        BuiltRows { rows: Seq::empty(), tally, failure: None }
    } else {
        let r = built_rows(s, sheet, tally, targets, sources, n - 1);
        if r.failure is Some {
            r
        } else {
            let b = built(
                s,
                sheet,
                r.tally,
                targets,
                sources[n - 1],
                sheet.columns.len() as int,
            );
            match b.failure {
                Some(e) => BuiltRows { rows: r.rows, tally: b.tally, failure: Some(e) },
                None => match row_refused(s, sheet, b.row, false) {
                    Some(e) => BuiltRows { rows: r.rows, tally: b.tally, failure: Some(e) },
                    None => BuiltRows { rows: r.rows.push(b.row), tally: b.tally, failure: None },
                },
            }
        }
    }
}

proof fn built_rows_fail_on(
    s: Scene,
    sheet: Sheet,
    tally: Tally,
    targets: Seq<int>,
    sources: Seq<Seq<Datum>>,
    n: int,
    m: int,
)
    requires
        0 <= n <= m <= sources.len(),
        built_rows(s, sheet, tally, targets, sources, n).failure is Some,
    ensures
        built_rows(s, sheet, tally, targets, sources, m) == built_rows(
            s,
            sheet,
            tally,
            targets,
            sources,
            n,
        ),
    decreases m - n,
{
    if n < m {
        built_rows_fail_on(s, sheet, tally, targets, sources, n, m - 1);
    }
}

pub open spec fn wide(rows: Seq<Vec<Value>>, width: int) -> bool {
    forall|k: int| 0 <= k < rows.len() ==> (#[trigger] rows[k])@.len() == width
}

#[verifier::loop_isolation(false)]
pub fn build_all(
    ctx: &Dml,
    t: &Table,
    counters: &mut Counters,
    targets: &Vec<usize>,
    sources: &Vec<Vec<Value>>,
) -> (r: Result<Vec<Vec<Value>>, OraError>)
    ensures
        ({
            let b = built_rows(
                ctx@,
                t@,
                old(counters)@,
                catalog::positions(targets@),
                vars::value_rows(sources@),
                sources@.len() as int,
            );
            b.failure == Some(eval::free()) || (final(counters)@ == b.tally && match r {
                Ok(v) => b.failure is None && vars::value_rows(v@) == b.rows,
                Err(e) => b.failure == Some(e@),
            })
        }),
        final(counters)@.next_row == old(counters)@.next_row,
        r matches Ok(v) ==> wide(v@, t.columns@.len() as int),
{
    let ghost start = counters@;
    let ghost tp = catalog::positions(targets@);
    let ghost all = vars::value_rows(sources@);
    let ghost total = sources@.len() as int;
    let mut out: Vec<Vec<Value>> = Vec::new();
    assert(vars::value_rows(out@) =~= Seq::empty());
    for i in 0..sources.len()
        invariant
            tp == catalog::positions(targets@),
            all == vars::value_rows(sources@),
            total == sources@.len() == all.len(),
            wide(out@, t.columns@.len() as int),
            counters@.next_row == start.next_row,
            ({
                let b = built_rows(ctx@, t@, start, tp, all, i as int);
                b.failure == Some(eval::free()) || (b.failure is None && b.tally == counters@
                    && b.rows == vars::value_rows(out@))
            }),
    {
        let ghost b = built_rows(ctx@, t@, start, tp, all, i as int);
        assert(all[i as int] == functions::views(sources@[i as int]@));
        proof {
            if b.failure is Some {
                built_rows_fail_on(ctx@, t@, start, tp, all, i as int, total);
            }
            if built_rows(ctx@, t@, start, tp, all, i + 1).failure is Some {
                built_rows_fail_on(ctx@, t@, start, tp, all, i + 1, total);
            }
        }
        let row = match build_row(ctx, t, counters, targets, &sources[i]) {
            Ok(row) => row,
            Err(e) => {
                return Err(e);
            },
        };
        match check_row(ctx, t, &row, false) {
            Ok(_) => {},
            Err(e) => {
                return Err(e);
            },
        }
        let ghost before = out@;
        out.push(row);
        assert(vars::value_rows(out@) =~= vars::value_rows(before).push(
            functions::views(row@),
        ));
    }
    Ok(out)
}

pub open spec fn violation(user: Seq<char>, name: Seq<char>) -> Failure {
    error::failure(1, "unique constraint ("@ + user + "."@ + name + ") violated"@)
}

pub fn unique_violation(user: &str, name: &str) -> (e: OraError)
    ensures
        e@ == violation(user@, name@),
{
    let mut m = "unique constraint (".to_owned();
    m.append(user);
    m.append(".");
    m.append(name);
    m.append(") violated");
    OraError { code: 1, message: m }
}

pub open spec fn no_room() -> Failure {
    error::failure(1653, "unable to extend table"@)
}

/// A table while rows go into it, the next row id, and why it stopped, if it did.
pub struct Filled {
    pub sheet: Sheet,
    pub next_row: int,
    pub failure: Option<Failure>,
}

/// A table with the first `n` rows in it.
pub open spec fn filled(
    user: Seq<char>,
    sheet: Sheet,
    next_row: int,
    rows: Seq<Seq<Datum>>,
    n: int,
) -> Filled
    decreases n,
{
    if n <= 0 || n > rows.len() {
        Filled { sheet, next_row, failure: None }
    } else {
        let f = filled(user, sheet, next_row, rows, n - 1);
        if f.failure is Some {
            f
        } else if f.next_row >= u64::MAX {
            Filled { failure: Some(no_room()), ..f }
        } else {
            match f.sheet.inserted(f.next_row, rows[n - 1]) {
                Ok(s) => Filled { sheet: s, next_row: f.next_row + 1, failure: None },
                Err(name) => Filled {
                    sheet: f.sheet,
                    next_row: f.next_row + 1,
                    failure: Some(violation(user, name)),
                },
            }
        }
    }
}

proof fn filled_fails_on(
    user: Seq<char>,
    sheet: Sheet,
    next_row: int,
    rows: Seq<Seq<Datum>>,
    n: int,
    m: int,
)
    requires
        0 <= n <= m <= rows.len(),
        filled(user, sheet, next_row, rows, n).failure is Some,
    ensures
        filled(user, sheet, next_row, rows, m) == filled(user, sheet, next_row, rows, n),
    decreases m - n,
{
    if n < m {
        filled_fails_on(user, sheet, next_row, rows, n, m - 1);
    }
}

/// Puts rows into a table, with ids of their own. Returns the first id.
#[verifier::loop_isolation(false)]
pub fn fill_table(user: &str, t: &mut Table, counters: &mut Counters, rows: &Vec<Vec<Value>>) -> (r:
    Result<(), OraError>)
    requires
        old(t).wf(),
        old(t)@.unique(),
        wide(rows@, old(t).columns@.len() as int),
    ensures
        ({
            let f = filled(
                user@,
                old(t)@,
                old(counters)@.next_row,
                vars::value_rows(rows@),
                rows@.len() as int,
            );
            &&& final(t)@ == f.sheet
            &&& final(counters)@ == (Tally { next_row: f.next_row, ..old(counters)@ })
            &&& match r {
                Ok(_) => f.failure is None,
                Err(e) => f.failure == Some(e@),
            }
            &&& f.failure is None ==> f.next_row == old(counters)@.next_row + rows@.len()
        }),
        final(t).wf(),
        final(t)@.unique(),
        final(t)@.columns == old(t)@.columns,
{
    let ghost start = t@;
    let ghost tally = counters@;
    let ghost all = vars::value_rows(rows@);
    let ghost total = rows@.len() as int;
    for i in 0..rows.len()
        invariant
            t.wf(),
            t@.unique(),
            all == vars::value_rows(rows@),
            total == rows@.len() == all.len(),
            wide(rows@, start.columns.len() as int),
            t@.columns == start.columns,
            filled(user@, start, tally.next_row, all, i as int) == (Filled {
                sheet: t@,
                next_row: counters@.next_row,
                failure: None,
            }),
            counters@ == (Tally { next_row: counters@.next_row, ..tally }),
            counters@.next_row == tally.next_row + i,
    {
        assert(all[i as int] == functions::views(rows@[i as int]@));
        assert(rows@[i as int]@.len() == start.columns.len());
        proof {
            if filled(user@, start, tally.next_row, all, i + 1).failure is Some {
                filled_fails_on(user@, start, tally.next_row, all, i + 1, total);
            }
        }
        let id: u64 = counters.next_row;
        if id == u64::MAX {
            return Err(OraError::new(1653, "unable to extend table"));
        }
        counters.next_row = id + 1;
        assert(counters@ == (Tally { next_row: id + 1, ..tally }));
        let values = catalog::copy_values(&rows[i]);
        match t.insert(id, values) {
            Ok(_) => {},
            Err(name) => {
                return Err(unique_violation(user, &name));
            },
        }
    }
    Ok(())
}

// ---- queries ----

/// What a query gives.
pub struct Answer {
    pub columns: Seq<(Seq<char>, SqlType)>,
    pub rows: Seq<Seq<Datum>>,
}

/// The select of a query that is of one table, without more to it.
pub open spec fn plain_select(q: tree::Query) -> Option<tree::Select> {
    match q.body {
        tree::SetExpr::Select(s) => if q.order_by.len() == 0 && q.offset is None && q.fetch is None
            && !s.distinct && s.from.len() == 1 && s.group_by.len() == 0 && s.having is None
            && s.from[0].joins.len() == 0 && s.from[0].factor is Table {
            Some(*s)
        } else {
            None
        },
        _ => None,
    }
}

fn plain_select_of(q: &Query) -> (r: Option<(&Vec<SelectItem>, &String, &Option<String>, &Option<Expr>)>)
    ensures
        match r {
            Some((items, name, alias, where_)) => plain_select(q@) is Some && ({
                let s = plain_select(q@)->0;
                &&& s.items == ast::select_items_tree(*items)
                &&& s.from[0].factor == (tree::TableFactor::Table {
                    name: name@,
                    alias: ast::opt_text_tree(*alias),
                })
                &&& s.where_ == ast::opt_expr_tree(*where_)
            }),
            None => plain_select(q@) is None,
        },
{
    assert(q@.body == ast::set_expr_tree(q.body));
    assert(q@.order_by == ast::order_items_tree(q.order_by));
    assert(q@.order_by.len() == q.order_by@.len());
    assert(q@.offset == ast::opt_expr_tree(q.offset) && q@.fetch == ast::opt_expr_tree(q.fetch));
    if q.order_by.len() > 0 || q.offset.is_some() || q.fetch.is_some() {
        return None;
    }
    match &q.body {
        SetExpr::Select(s) => {
            assert(q@.body == tree::SetExpr::Select(Box::new(ast::select_tree(**s))));
            let ghost t = ast::select_tree(**s);
            assert(t.from == ast::from_items_tree(s.from));
            assert(t.from.len() == s.from@.len());
            assert(t.group_by == ast::exprs_tree(s.group_by));
            assert(t.group_by.len() == s.group_by@.len());
            assert(t.having == ast::opt_expr_tree(s.having));
            if s.distinct || s.from.len() != 1 || s.group_by.len() > 0 || s.having.is_some() {
                return None;
            }
            let f = &s.from[0];
            assert(ast::from_items_tree(s.from)[0] == f@);
            assert(f@.joins == ast::joins_tree(f.joins));
            assert(f@.joins.len() == f.joins@.len());
            assert(f@.factor == ast::table_factor_tree(f.factor));
            if f.joins.len() > 0 {
                return None;
            }
            match &f.factor {
                TableFactor::Table { name, alias } => Some((&s.items, name, alias, &s.where_)),
                _ => None,
            }
        },
        _ => None,
    }
}

pub open spec fn dual_columns() -> Seq<Field> {
    seq![
        Field {
            name: "DUMMY"@,
            sql_type: SqlType::Varchar2(1),
            default: None,
            not_null: false,
            identity: false,
        },
    ]
}

/// The table of one row that is always there.
pub open spec fn dual() -> Sheet {
    Sheet {
        name: "DUAL"@,
        columns: dual_columns(),
        rules: Seq::empty(),
        rows: seq![(0int, seq![Datum::Text("X"@)])],
    }
}

fn make_dual() -> (t: Table)
    ensures
        t@ == dual(),
        t.wf(),
{
    let mut columns: Vec<TableColumn> = Vec::new();
    columns.push(
        TableColumn {
            name: "DUMMY".to_owned(),
            sql_type: SqlType::Varchar2(1),
            default: None,
            not_null: false,
            identity: false,
        },
    );
    assert(catalog::fields(columns@) =~= dual_columns());
    let mut values: Vec<Value> = Vec::new();
    values.push(Value::Varchar2("X".to_owned()));
    assert(functions::views(values@) =~= seq![Datum::Text("X"@)]);
    let mut rows: Vec<(u64, Vec<Value>)> = Vec::new();
    rows.push((0, values));
    assert(catalog::records(rows@) =~= seq![(0int, seq![Datum::Text("X"@)])]);
    let t = Table { name: "DUAL".to_owned(), columns, constraints: Vec::new(), rows };
    assert(t@.rules =~= Seq::empty());
    t
}

/// The table that a query reads.
pub open spec fn read_table(cat: Cat, name: Seq<char>) -> Result<Sheet, Failure> {
    match cat.table(name) {
        Some(i) => Ok(cat.tables[i]),
        None => if name == "DUAL"@ {
            Ok(dual())
        } else {
            Err(error::table_not_found())
        },
    }
}

/// The values that a row has for the first `n` items.
pub open spec fn projected(
    s: Scene,
    qualifier: Seq<char>,
    items: Seq<tree::SelectItem>,
    values: Seq<Datum>,
    n: int,
) -> Result<Seq<Datum>, Failure>
    decreases n,
{
    if n <= 0 || n > items.len() {
        Ok(Seq::empty())
    } else {
        match projected(s, qualifier, items, values, n - 1) {
            Err(e) => Err(e),
            Ok(out) => match items[n - 1] {
                tree::SelectItem::Expr { expr, .. } => match eval::evaluated(s, expr) {
                    Err(e) => Err(e),
                    Ok(v) => Ok(out.push(v)),
                },
                tree::SelectItem::Star => Ok(out + values),
                tree::SelectItem::QualifiedStar(q) => if q == qualifier {
                    Ok(out + values)
                } else {
                    Err(no_column(q))
                },
            },
        }
    }
}

proof fn projected_fails_on(
    s: Scene,
    qualifier: Seq<char>,
    items: Seq<tree::SelectItem>,
    values: Seq<Datum>,
    n: int,
    m: int,
)
    requires
        0 <= n <= m <= items.len(),
        projected(s, qualifier, items, values, n) is Err,
    ensures
        projected(s, qualifier, items, values, m) == projected(s, qualifier, items, values, n),
    decreases m - n,
{
    if n < m {
        projected_fails_on(s, qualifier, items, values, n, m - 1);
    }
}

#[verifier::loop_isolation(false)]
fn project_row(
    x: &Ex,
    qualifier: &str,
    items: &Vec<SelectItem>,
    values: &Vec<Value>,
) -> (r: Result<Vec<Value>, OraError>)
    requires
        x.wf(),
    ensures
        lists(
            projected(
                x@,
                qualifier@,
                ast::select_items_tree(*items),
                functions::views(values@),
                items@.len() as int,
            ),
            r,
        ),
{
    let ghost all = ast::select_items_tree(*items);
    let ghost v = functions::views(values@);
    let ghost total = items@.len() as int;
    let mut out: Vec<Value> = Vec::new();
    assert(functions::views(out@) =~= Seq::empty());
    for i in 0..items.len()
        invariant
            lists(projected(x@, qualifier@, all, v, i as int), Ok(out)),
    {
        assert(all[i as int] == items@[i as int]@);
        proof {
            let due = projected(x@, qualifier@, all, v, i as int);
            if due is Err {
                projected_fails_on(x@, qualifier@, all, v, i as int, total);
            }
            if projected(x@, qualifier@, all, v, i + 1) is Err {
                projected_fails_on(x@, qualifier@, all, v, i + 1, total);
            }
        }
        let ghost before = functions::views(out@);
        match &items[i] {
            SelectItem::Expr { expr, .. } => {
                let y = x.eval(expr)?;
                out.push(y);
                assert(functions::views(out@) =~= before.push(y@));
            },
            SelectItem::Star => {
                append_values(&mut out, values);
            },
            SelectItem::QualifiedStar(q) => {
                if !text::same(q, qualifier) {
                    return Err(no_column_error(q));
                }
                append_values(&mut out, values);
            },
        }
    }
    Ok(out)
}

fn append_values(out: &mut Vec<Value>, values: &Vec<Value>)
    ensures
        functions::views(final(out)@) == functions::views(old(out)@) + functions::views(values@),
{
    let ghost start = functions::views(out@);
    let ghost all = functions::views(values@);
    for i in 0..values.len()
        invariant
            all == functions::views(values@),
            functions::views(out@) == start + all.take(i as int),
    {
        let v = values[i].clone();
        let ghost before = functions::views(out@);
        out.push(v);
        assert(functions::views(out@) =~= before.push(v@));
        assert(functions::views(out@) =~= start + all.take(i + 1));
    }
    assert(all.take(values@.len() as int) =~= all);
}

/// The rows of a query over the first `n` rows that it selects.
pub open spec fn selected(
    s: Scene,
    qualifier: Seq<char>,
    columns: Seq<Field>,
    items: Seq<tree::SelectItem>,
    rows: Seq<(int, Seq<Datum>)>,
    n: int,
) -> Result<Seq<Seq<Datum>>, Failure>
    decreases n,
{
    if n <= 0 || n > rows.len() {
        Ok(Seq::empty())
    } else {
        match selected(s, qualifier, columns, items, rows, n - 1) {
            Err(e) => Err(e),
            Ok(out) => match projected(
                in_row(s, qualifier, columns, rows[n - 1].1, capped(n - 1)),
                qualifier,
                items,
                rows[n - 1].1,
                items.len() as int,
            ) {
                Err(e) => Err(e),
                Ok(r) => Ok(out.push(r)),
            },
        }
    }
}

proof fn selected_fails_on(
    s: Scene,
    qualifier: Seq<char>,
    columns: Seq<Field>,
    items: Seq<tree::SelectItem>,
    rows: Seq<(int, Seq<Datum>)>,
    n: int,
    m: int,
)
    requires
        0 <= n <= m <= rows.len(),
        selected(s, qualifier, columns, items, rows, n) is Err,
    ensures
        selected(s, qualifier, columns, items, rows, m) == selected(
            s,
            qualifier,
            columns,
            items,
            rows,
            n,
        ),
    decreases m - n,
{
    if n < m {
        selected_fails_on(s, qualifier, columns, items, rows, n, m - 1);
    }
}

#[verifier::loop_isolation(false)]
fn select_rows(
    ctx: &Dml,
    qualifier: &str,
    columns: &Vec<TableColumn>,
    items: &Vec<SelectItem>,
    rows: &Vec<(u64, Vec<Value>)>,
) -> (r: Result<Vec<Vec<Value>>, OraError>)
    requires
        forall|k: int| 0 <= k < rows@.len() ==> (#[trigger] rows@[k]).1@.len() == columns@.len(),
    ensures
        tables(
            selected(
                ctx@,
                qualifier@,
                catalog::fields(columns@),
                ast::select_items_tree(*items),
                catalog::records(rows@),
                rows@.len() as int,
            ),
            r,
        ),
{
    let ghost cols = catalog::fields(columns@);
    let ghost its = ast::select_items_tree(*items);
    let ghost all = catalog::records(rows@);
    let ghost total = rows@.len() as int;
    let mut out: Vec<Vec<Value>> = Vec::new();
    assert(vars::value_rows(out@) =~= Seq::empty());
    for i in 0..rows.len()
        invariant
            tables(selected(ctx@, qualifier@, cols, its, all, i as int), Ok(out)),
    {
        assert(all[i as int] == catalog::record(rows@[i as int]));
        proof {
            if selected(ctx@, qualifier@, cols, its, all, i as int) is Err {
                selected_fails_on(ctx@, qualifier@, cols, its, all, i as int, total);
            }
            if selected(ctx@, qualifier@, cols, its, all, i + 1) is Err {
                selected_fails_on(ctx@, qualifier@, cols, its, all, i + 1, total);
            }
        }
        let x = ctx.row(qualifier, columns, &rows[i].1, count_on(i));
        let row = project_row(&x, qualifier, items, &rows[i].1)?;
        let ghost before = out@;
        out.push(row);
        assert(vars::value_rows(out@) =~= vars::value_rows(before).push(
            functions::views(row@),
        ));
    }
    Ok(out)
}

/// How many bytes a text takes, as far as they can be counted.
pub open spec fn byte_len(v: Datum) -> int {
    match v {
        Datum::Text(s) => if encode_utf8(s).len() <= u32::MAX {
            encode_utf8(s).len() as int
        } else {
            u32::MAX as int
        },
        _ => 0,
    }
}

fn count_bytes(v: &Value) -> (r: u32)
    ensures
        r == byte_len(v@),
{
    match v {
        Value::Varchar2(s) => {
            let n: usize = s.as_str().as_bytes().len();
            if n <= u32::MAX as usize {
                n as u32
            } else {
                u32::MAX
            }
        },
        _ => 0,
    }
}

/// The column type Oracle would describe for an expression.
#[verifier::opaque]
pub open spec fn type_of(columns: Seq<Field>, e: tree::Expr, v: Datum) -> SqlType {
    match e {
        tree::Expr::Binary(BinaryOp::Concat, _, _) => SqlType::Varchar2(
            if byte_len(v) > 1 {
                byte_len(v) as u32
            } else {
                1
            },
        ),
        tree::Expr::Binary(_, _, _) => SqlType::Number { precision: 0, scale: 0 },
        tree::Expr::Neg(_) => SqlType::Number { precision: 0, scale: 0 },
        tree::Expr::Column { name, .. } => match catalog::index_of_field(columns, name, 0) {
            Some(i) => columns[i].sql_type,
            None => value_type(v),
        },
        _ => value_type(v),
    }
}

pub open spec fn value_type(v: Datum) -> SqlType {
    match v {
        Datum::Number(_) => SqlType::Number { precision: 0, scale: 0 },
        Datum::Date(_) => SqlType::Date,
        Datum::Timestamp(_) => SqlType::Timestamp(6),
        _ => SqlType::Varchar2(byte_len(v) as u32),
    }
}

fn type_of_value(v: &Value) -> (t: SqlType)
    ensures
        t == value_type(v@),
{
    match v {
        Value::Number(_) => SqlType::Number { precision: 0, scale: 0 },
        Value::Date(_) => SqlType::Date,
        Value::Timestamp(_) => SqlType::Timestamp(6),
        _ => SqlType::Varchar2(count_bytes(v)),
    }
}

fn describe(columns: &Vec<TableColumn>, e: &Expr, v: &Value) -> (t: SqlType)
    ensures
        t == type_of(catalog::fields(columns@), e@, v@),
{
    proof {
        reveal(type_of);
    }
    match e {
        Expr::Binary(BinaryOp::Concat, _, _) => {
            let n = count_bytes(v);
            SqlType::Varchar2(
                if n > 1 {
                    n
                } else {
                    1
                },
            )
        },
        Expr::Binary(_, _, _) => SqlType::Number { precision: 0, scale: 0 },
        Expr::Neg(_) => SqlType::Number { precision: 0, scale: 0 },
        Expr::Column { name, .. } => match eval::field_index(columns, name) {
            Some(i) => {
                assert(catalog::fields(columns@)[i as int] == columns@[i as int]@);
                columns[i].sql_type
            },
            None => type_of_value(v),
        },
        _ => type_of_value(v),
    }
}

/// The names and types of a table's columns.
pub open spec fn headings(columns: Seq<Field>) -> Seq<(Seq<char>, SqlType)> {
    Seq::new(columns.len(), |i: int| (columns[i].name, columns[i].sql_type))
}

/// Of two values of a column, the one that tells more of its type: the longer text, or
/// the one that is not NULL.
pub open spec fn telling(a: Datum, b: Datum) -> Datum {
    if a is Null || byte_len(b) > byte_len(a) {
        b
    } else {
        a
    }
}

/// The most telling value at a place of the first `n` rows.
pub open spec fn sample(rows: Seq<Seq<Datum>>, i: int, n: int) -> Datum
    decreases n,
{
    if n <= 0 || n > rows.len() {
        Datum::Null
    } else if i < rows[n - 1].len() {
        telling(sample(rows, i, n - 1), rows[n - 1][i])
    } else {
        sample(rows, i, n - 1)
    }
}

fn find_sample(rows: &Vec<Vec<Value>>, i: usize) -> (v: Value)
    ensures
        v@ == sample(vars::value_rows(rows@), i as int, rows@.len() as int),
{
    let ghost all = vars::value_rows(rows@);
    let mut v = Value::Null;
    for k in 0..rows.len()
        invariant
            all == vars::value_rows(rows@),
            v@ == sample(all, i as int, k as int),
    {
        assert(all[k as int] == functions::views(rows@[k as int]@));
        if i < rows[k].len() {
            let here = &rows[k][i];
            if v.is_null() || count_bytes(here) > count_bytes(&v) {
                v = here.clone();
            }
        }
    }
    v
}

/// The names and types of the columns that the first `n` items give.
pub open spec fn heading(
    columns: Seq<Field>,
    items: Seq<tree::SelectItem>,
    rows: Seq<Seq<Datum>>,
    n: int,
) -> Seq<(Seq<char>, SqlType)>
    decreases n,
{
    if n <= 0 || n > items.len() {
        Seq::empty()
    } else {
        let out = heading(columns, items, rows, n - 1);
        match items[n - 1] {
            tree::SelectItem::Expr { expr, name } => out.push(
                (name, type_of(columns, expr, sample(rows, out.len() as int, rows.len() as int))),
            ),
            _ => out + headings(columns),
        }
    }
}

/// A column of a result.
pub struct Column {
    pub name: String,
    pub sql_type: SqlType,
}

pub open spec fn described(c: Seq<Column>) -> Seq<(Seq<char>, SqlType)> {
    Seq::new(c.len(), |i: int| (c[i].name@, c[i].sql_type))
}

fn make_heading(
    columns: &Vec<TableColumn>,
    items: &Vec<SelectItem>,
    rows: &Vec<Vec<Value>>,
) -> (r: Vec<Column>)
    ensures
        described(r@) == heading(
            catalog::fields(columns@),
            ast::select_items_tree(*items),
            vars::value_rows(rows@),
            items@.len() as int,
        ),
{
    let ghost cols = catalog::fields(columns@);
    let ghost its = ast::select_items_tree(*items);
    let ghost all = vars::value_rows(rows@);
    let mut out: Vec<Column> = Vec::new();
    assert(described(out@) =~= Seq::empty());
    for i in 0..items.len()
        invariant
            cols == catalog::fields(columns@),
            its == ast::select_items_tree(*items),
            all == vars::value_rows(rows@),
            described(out@) == heading(cols, its, all, i as int),
    {
        assert(its[i as int] == items@[i as int]@);
        match &items[i] {
            SelectItem::Expr { expr, name } => {
                let k: usize = out.len();
                let v = find_sample(rows, k);
                let sql_type = describe(columns, expr, &v);
                let ghost before = out@;
                out.push(Column { name: name.clone(), sql_type });
                assert(described(out@) =~= described(before).push((name@, sql_type)));
            },
            _ => {
                append_headings(&mut out, columns);
            },
        }
    }
    out
}

fn append_headings(out: &mut Vec<Column>, columns: &Vec<TableColumn>)
    ensures
        described(final(out)@) == described(old(out)@) + headings(catalog::fields(columns@)),
{
    let ghost start = described(out@);
    let ghost all = headings(catalog::fields(columns@));
    for i in 0..columns.len()
        invariant
            all == headings(catalog::fields(columns@)),
            described(out@) == start + all.take(i as int),
    {
        assert(catalog::fields(columns@)[i as int] == columns@[i as int]@);
        let ghost before = described(out@);
        let c = Column { name: columns[i].name.clone(), sql_type: columns[i].sql_type };
        out.push(c);
        assert(described(out@) =~= before.push((c.name@, c.sql_type)));
        assert(described(out@) =~= start + all.take(i + 1));
    }
    assert(all.take(columns@.len() as int) =~= all);
}

/// Whether a query asks for the number of rows alone.
pub open spec fn counts(items: Seq<tree::SelectItem>) -> bool {
    items.len() == 1 && items[0] is Expr && items[0]->expr is CountStar
}

/// The number of rows, as COUNT(*) gives it.
pub open spec fn counted(name: Seq<char>, n: int) -> Answer {
    Answer {
        columns: seq![(name, SqlType::Number { precision: 0, scale: 0 })],
        rows: seq![
            seq![
                Datum::Number(
                    number::integer(
                        if n < i64::MAX {
                            n
                        } else {
                            i64::MAX as int
                        },
                    ),
                ),
            ],
        ],
    }
}

/// What a query gives of the rows that it found.
pub open spec fn shown(
    s: Scene,
    qualifier: Seq<char>,
    columns: Seq<Field>,
    items: Seq<tree::SelectItem>,
    found: Seq<(int, Seq<Datum>)>,
) -> Result<Answer, Failure> {
    if counts(items) {
        Ok(counted(items[0]->name, found.len() as int))
    } else {
        match selected(s, qualifier, columns, items, found, found.len() as int) {
            Err(e) => Err(e),
            Ok(rows) => Ok(
                Answer { columns: heading(columns, items, rows, items.len() as int), rows },
            ),
        }
    }
}

/// The name of the column when a query asks for the number of rows alone.
fn count_name(items: &Vec<SelectItem>) -> (r: Option<&String>)
    ensures
        match r {
            Some(name) => counts(ast::select_items_tree(*items)) && ast::select_items_tree(
                *items,
            )[0]->name == name@,
            None => !counts(ast::select_items_tree(*items)),
        },
{
    let ghost all = ast::select_items_tree(*items);
    assert(all.len() == items@.len());
    if items.len() != 1 {
        return None;
    }
    assert(all[0] == items@[0]@);
    match &items[0] {
        SelectItem::Expr { expr, name } => match expr {
            Expr::CountStar => Some(name),
            _ => None,
        },
        _ => None,
    }
}

fn count_rows(name: &String, n: usize) -> (r: Rel)
    ensures
        r@ == counted(name@, n as int),
{
    let count: i64 = if (n as u64) < 0x7fff_ffff_ffff_ffff {
        n as i64
    } else {
        0x7fff_ffff_ffff_ffff
    };
    let row: Vec<Value> = vec![Value::number(count)];
    assert(functions::views(row@) =~= seq![Datum::Number(number::integer(count as int))]);
    let rows: Vec<Vec<Value>> = vec![row];
    assert(vars::value_rows(rows@) =~= seq![functions::views(row@)]);
    let columns: Vec<Column> = vec![
        Column { name: name.clone(), sql_type: SqlType::Number { precision: 0, scale: 0 } },
    ];
    assert(described(columns@) =~= seq![(name@, SqlType::Number { precision: 0, scale: 0 })]);
    Rel { columns, rows }
}

/// What a query gives.
#[verifier::opaque]
pub open spec fn queried(cat: Cat, s: Scene, q: tree::Query) -> Result<Answer, Failure> {
    match plain_select(q) {
        None => Err(parser::unsupported("this form of query"@)),
        Some(sel) => {
            let name = sel.from[0].factor->Table_name;
            let qualifier = match sel.from[0].factor->Table_alias {
                Some(a) => a,
                None => name,
            };
            match read_table(cat, name) {
                Err(e) => Err(e),
                Ok(sheet) => match matching(
                    s,
                    qualifier,
                    sheet,
                    sel.where_,
                    sheet.rows.len() as int,
                ) {
                    Err(e) => Err(e),
                    Ok(found) => shown(s, qualifier, sheet.columns, sel.items, found),
                },
            }
        },
    }
}

/// The result of a query.
pub struct Rel {
    pub columns: Vec<Column>,
    pub rows: Vec<Vec<Value>>,
}

impl View for Rel {
    type V = Answer;

    open spec fn view(&self) -> Answer {
        Answer { columns: described(self.columns@), rows: vars::value_rows(self.rows@) }
    }
}

/// Whether a query came out as it was due, where it was.
pub open spec fn answers(due: Result<Answer, Failure>, r: Result<Rel, OraError>) -> bool {
    due == Err::<Answer, Failure>(eval::free()) || match r {
        Ok(a) => due == Ok::<Answer, Failure>(a@),
        Err(e) => due == Err::<Answer, Failure>(e@),
    }
}

fn query_table(
    ctx: &Dml,
    t: &Table,
    qualifier: &str,
    items: &Vec<SelectItem>,
    where_: &Option<Expr>,
) -> (r: Result<Rel, OraError>)
    requires
        t.wf(),
    ensures
        answers(
            match matching(
                ctx@,
                qualifier@,
                t@,
                ast::opt_expr_tree(*where_),
                t@.rows.len() as int,
            ) {
                Err(e) => Err(e),
                Ok(found) => shown(
                    ctx@,
                    qualifier@,
                    t@.columns,
                    ast::select_items_tree(*items),
                    found,
                ),
            },
            r,
        ),
{
    assert(ast::select_items_tree(*items).len() == items@.len());
    let found = matching_rows(ctx, qualifier, t, where_)?;
    assert(catalog::records(found@).len() == found@.len());
    if let Some(name) = count_name(items) {
        return Ok(count_rows(name, found.len()));
    }
    let rows = select_rows(ctx, qualifier, &t.columns, items, &found)?;
    let columns = make_heading(&t.columns, items, &rows);
    Ok(Rel { columns, rows })
}

/// Runs a query.
pub fn query(cat: &Catalog, ctx: &Dml, q: &Query) -> (r: Result<Rel, OraError>)
    requires
        cat@.wf(),
    ensures
        answers(queried(cat@, ctx@, q@), r),
{
    proof {
        reveal(queried);
    }
    match plain_select_of(q) {
        None => Err(parser::unsupported_error("this form of query")),
        Some((items, name, alias, where_)) => {
            assert(ast::select_items_tree(*items).len() == items@.len());
            let qualifier: &str = match alias {
                Some(a) => a.as_str(),
                None => name.as_str(),
            };
            match cat.table(name) {
                Some(i) => {
                    assert(cat@.tables[i as int] == cat.tables@[i as int]@);
                    assert(cat@.tables[i as int].wf());
                    query_table(ctx, &cat.tables[i], qualifier, items, where_)
                },
                None => {
                    if !text::same(name, "DUAL") {
                        return Err(OraError::table_not_found());
                    }
                    let t = make_dual();
                    query_table(ctx, &t, qualifier, items, where_)
                },
            }
        },
    }
}

} // verus!
