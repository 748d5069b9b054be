//! What comes back from a statement: the values of RETURNING, the binds that they fill, and
//! the statements of a script.

use vstd::prelude::*;

use crate::catalog::{Cat, Field};
use crate::dml;
use crate::dml::Tally;
use crate::engine;
use crate::engine::Bound;
use crate::error::Failure;
use crate::eval::{evaluated, Scene};
use crate::rows;
use crate::script;
use crate::script::BindDir;
use crate::text;
use crate::tree;
use crate::tree::Expr;
use crate::txn;
use crate::value::Datum;

verus! {

// ---- RETURNING ----

/// Whether a row of an answer holds what the expressions of a RETURNING clause come to in a
/// row of the table.
pub open spec fn tells(
    s: Scene,
    qualifier: Seq<char>,
    columns: Seq<Field>,
    exprs: Seq<Expr>,
    values: Seq<Datum>,
    answer: Seq<Datum>,
) -> bool {
    &&& answer.len() == exprs.len()
    &&& forall|x: int|
        0 <= x < exprs.len() ==> evaluated(
            dml::in_row(s, qualifier, columns, values, 0),
            #[trigger] exprs[x],
        ) == Ok::<Datum, Failure>(answer[x])
}

proof fn told(
    s: Scene,
    qualifier: Seq<char>,
    columns: Seq<Field>,
    r: tree::Returning,
    values: Seq<Seq<Datum>>,
    n: int,
)
    requires
        0 <= n <= values.len(),
        dml::returned(s, qualifier, columns, Some(r), values, n) is Ok,
    ensures
        ({
            let out = dml::returned(s, qualifier, columns, Some(r), values, n)->Ok_0;
            &&& out.len() == n
            &&& forall|k: int|
                0 <= k < n ==> tells(s, qualifier, columns, r.exprs, values[k], #[trigger] out[k])
        }),
    decreases n,
{
    if n > 0 {
        told(s, qualifier, columns, r, values, n - 1);
        let sc = dml::in_row(s, qualifier, columns, values[n - 1], 0);
        rows::values_of_all(sc, r.exprs, r.exprs.len() as int);
    }
}

/// RETURNING of an INSERT tells of the rows that now stand in the table, in their order.
pub proof fn an_insert_returns_its_new_rows(
    cat: Cat,
    tally: Tally,
    s: Scene,
    ins: tree::Insert,
    r: tree::Returning,
    i: int,
)
    requires
        cat.table(ins.table) == Some(i),
        0 <= i < cat.tables.len(),
        ins.returning == Some(r),
        forall|k: int|
            0 <= k < cat.tables[i].rows.len() ==> (#[trigger] cat.tables[i].rows[k]).0
                < tally.next_row,
        txn::insert_effect(cat, tally, s, ins).result is Ok,
    ensures
        ({
            let e = txn::insert_effect(cat, tally, s, ins);
            let was = cat.tables[i].rows;
            let now = e.work.tables[i].rows;
            let (count, answers) = e.result->Ok_0;
            &&& answers.len() == count
            &&& now.len() == was.len() + count
            &&& forall|k: int|
                0 <= k < count ==> tells(
                    s,
                    cat.tables[i].name,
                    cat.tables[i].columns,
                    r.exprs,
                    now[was.len() + k].1,
                    #[trigger] answers[k],
                )
        }),
{
    let sheet = cat.tables[i];
    let targets = dml::insert_targets(sheet.columns, ins.columns)->Ok_0;
    let src = txn::sources(cat, s, ins.source, targets.len() as int)->Ok_0;
    let b = dml::built_rows(s, sheet, tally, targets, src, src.len() as int);
    rows::built_all(s, sheet, tally, targets, src, src.len() as int);
    rows::rows_put_in(s.env.user, sheet, tally.next_row, b.rows, b.rows.len() as int);
    told(s, sheet.name, sheet.columns, r, b.rows, b.rows.len() as int);
}

/// Whether a row of an answer tells of the row that a table has under an id.
pub open spec fn tells_of(
    s: Scene,
    qualifier: Seq<char>,
    columns: Seq<Field>,
    exprs: Seq<Expr>,
    table: Seq<rows::Row>,
    id: int,
    answer: Seq<Datum>,
) -> bool {
    exists|y: rows::Row| #[trigger]
        table.contains(y) && y.0 == id && tells(s, qualifier, columns, exprs, y.1, answer)
}

/// RETURNING of an UPDATE tells of the rows as they are now, in the order of the rows that it
/// selected.
pub proof fn an_update_returns_the_new_values(
    cat: Cat,
    tally: Tally,
    s: Scene,
    upd: tree::Update,
    r: tree::Returning,
    i: int,
)
    requires
        cat.wf(),
        cat.table(upd.table) == Some(i),
        0 <= i < cat.tables.len(),
        upd.returning == Some(r),
        txn::update_effect(cat, tally, s, upd).result is Ok,
    ensures
        ({
            let e = txn::update_effect(cat, tally, s, upd);
            let q = txn::known_as(upd.table, upd.alias);
            let sheet = cat.tables[i];
            let found = dml::matching(s, q, sheet, upd.where_, sheet.rows.len() as int)->Ok_0;
            let now = e.work.tables[i].rows;
            let (count, answers) = e.result->Ok_0;
            &&& answers.len() == count == found.len()
            &&& forall|k: int|
                0 <= k < count ==> tells_of(
                    s,
                    q,
                    sheet.columns,
                    r.exprs,
                    now,
                    found[k].0,
                    #[trigger] answers[k],
                )
        }),
{
    let e = txn::update_effect(cat, tally, s, upd);
    let q = txn::known_as(upd.table, upd.alias);
    let sheet = cat.tables[i];
    assert(sheet.wf());
    let names = txn::assigned_names(upd.assignments);
    let targets = dml::columns_of(
        sheet.columns,
        names,
        txn::bad_column_list(),
        names.len() as int,
    )->Ok_0;
    let found = dml::matching(s, q, sheet, upd.where_, sheet.rows.len() as int)->Ok_0;
    let new = txn::rewritten(
        s,
        q,
        sheet,
        targets,
        upd.assignments,
        found,
        found.len() as int,
    )->Ok_0;
    rows::matched_rows(s, q, sheet, upd.where_, sheet.rows.len() as int);
    rows::rewritten_rows(s, q, sheet, targets, upd.assignments, found, found.len() as int);
    rows::new_rows_name_old_ones(sheet, found, new);
    rows::rows_are_replaced(sheet, new);
    told(s, q, sheet.columns, r, txn::only_values(new), new.len() as int);
    let now = e.work.tables[i].rows;
    let answers = e.result->Ok_0.1;
    assert(e == txn::update_rows(cat, i, tally, s, upd, q, found, new));
    assert(e.result->Ok_0.0 == new.len() && answers.len() == new.len());
    assert forall|k: int| 0 <= k < new.len() implies tells_of(
        s,
        q,
        sheet.columns,
        r.exprs,
        now,
        found[k].0,
        #[trigger] answers[k],
    ) by {
        assert(new.contains(new[k]));
        assert(now.contains(new[k]));
        assert(txn::only_values(new)[k] == new[k].1);
        assert(new[k].0 == found[k].0);
    }
    assert(found.len() == new.len());
}

/// RETURNING of a DELETE tells of the rows as they were, in their order.
pub proof fn a_delete_returns_the_old_values(
    cat: Cat,
    tally: Tally,
    s: Scene,
    del: tree::Delete,
    r: tree::Returning,
    i: int,
)
    requires
        cat.table(del.table) == Some(i),
        0 <= i < cat.tables.len(),
        del.returning == Some(r),
        txn::delete_effect(cat, tally, s, del).result is Ok,
    ensures
        ({
            let e = txn::delete_effect(cat, tally, s, del);
            let q = txn::known_as(del.table, del.alias);
            let sheet = cat.tables[i];
            let found = dml::matching(s, q, sheet, del.where_, sheet.rows.len() as int)->Ok_0;
            let (count, answers) = e.result->Ok_0;
            &&& answers.len() == count == found.len()
            &&& forall|k: int|
                0 <= k < count ==> tells(
                    s,
                    q,
                    sheet.columns,
                    r.exprs,
                    found[k].1,
                    #[trigger] answers[k],
                )
        }),
{
    let q = txn::known_as(del.table, del.alias);
    let sheet = cat.tables[i];
    let found = dml::matching(s, q, sheet, del.where_, sheet.rows.len() as int)->Ok_0;
    told(s, q, sheet.columns, r, txn::only_values(found), found.len() as int);
    let answers = txn::delete_effect(cat, tally, s, del).result->Ok_0.1;
    assert forall|k: int| 0 <= k < found.len() implies tells(
        s,
        q,
        sheet.columns,
        r.exprs,
        found[k].1,
        #[trigger] answers[k],
    ) by {
        assert(txn::only_values(found)[k] == found[k].1);
    }
}

// ---- binds ----

/// Whether the target at a place is the last that names a bind.
pub open spec fn last_target(into: Seq<Expr>, k: int, i: int) -> bool {
    &&& 0 <= k < into.len()
    &&& into[k] == Expr::Bind(i)
    &&& forall|j: int| k < j < into.len() ==> #[trigger] into[j] != Expr::Bind(i)
}

/// A bind that a RETURNING clause names gets the column of the answer that stands where the
/// bind does, one value of each row; a bind that it does not name goes in only.
pub proof fn binds_get_their_column(n: int, into: Seq<Expr>, answers: Seq<Seq<Datum>>, i: int)
    requires
        0 <= i < n,
    ensures
        ({
            let b = engine::returned_binds(n, into, answers, into.len() as int);
            let d = script::directions(n, into, into.len() as int);
            &&& b.len() == n == d.len()
            &&& forall|k: int| #[trigger]
                last_target(into, k, i) ==> d[i] == BindDir::Returning && match b[i] {
                    Bound::Returning(v) => v.len() == answers.len() && forall|x: int|
                        0 <= x < answers.len() && k < answers[x].len() ==> #[trigger] v[x]
                            == answers[x][k],
                    _ => false,
                }
            &&& (forall|j: int| 0 <= j < into.len() ==> #[trigger] into[j] != Expr::Bind(i))
                ==> d[i] == BindDir::In && b[i] == Bound::In
        }),
{
    bound_upto(n, into, answers, i, into.len() as int);
    assert(into.take(into.len() as int) =~= into);
}

proof fn bound_upto(n: int, into: Seq<Expr>, answers: Seq<Seq<Datum>>, i: int, m: int)
    requires
        0 <= i < n,
        0 <= m <= into.len(),
    ensures
        ({
            let b = engine::returned_binds(n, into, answers, m);
            let d = script::directions(n, into, m);
            let some = into.take(m);
            &&& b.len() == n == d.len()
            &&& forall|k: int| #[trigger]
                last_target(some, k, i) ==> d[i] == BindDir::Returning && b[i]
                    == Bound::Returning(engine::column(answers, k))
            &&& (forall|j: int| 0 <= j < m ==> #[trigger] into[j] != Expr::Bind(i)) ==> d[i]
                == BindDir::In && b[i] == Bound::In
        }),
    decreases m,
{
    if m > 0 {
        bound_upto(n, into, answers, i, m - 1);
        let (some, less) = (into.take(m), into.take(m - 1));
        assert(some[m - 1] == into[m - 1]);
        assert forall|k: int| #[trigger] last_target(some, k, i) implies k == m - 1 || (into[m - 1]
            != Expr::Bind(i) && last_target(less, k, i)) by {
            if k < m - 1 {
                assert(some[m - 1] != Expr::Bind(i));
                assert forall|j: int| k < j < less.len() implies #[trigger] less[j] != Expr::Bind(
                    i,
                ) by {
                    assert(less[j] == some[j]);
                }
                assert(less[k] == some[k]);
            }
        }
    }
}

// ---- scripts ----

/// The statements of a script.
pub open spec fn statements(s: Seq<char>) -> Seq<Seq<char>> {
    script::pieces_from(s, 0, 0, false, Seq::empty())
}

/// Whether nothing begins or ends at a place: no text, comment, statement or line with a
/// slash alone.
pub open spec fn is_ordinary(s: Seq<char>, i: int) -> bool {
    &&& 0 <= i < s.len()
    &&& s[i] != ';'
    &&& s[i] != '\''
    &&& script::comment_end(s, i) <= i
    &&& !script::is_slash_line(s, i)
}

proof fn nothing_happens(s: Seq<char>, start: int, i: int, k: int, p: Seq<Seq<char>>)
    requires
        0 <= start <= i <= k <= s.len(),
        forall|j: int| i <= j < k ==> #[trigger] is_ordinary(s, j),
    ensures
        script::pieces_from(s, start, i, false, p) == script::pieces_from(s, start, k, false, p),
    decreases k - i,
{
    if i < k {
        assert(is_ordinary(s, i));
        nothing_happens(s, start, i + 1, k, p);
    }
}

proof fn inside_quotes(s: Seq<char>, start: int, i: int, k: int, p: Seq<Seq<char>>)
    requires
        0 <= start <= i <= k <= s.len(),
        forall|j: int| i <= j < k ==> #[trigger] s[j] != '\'',
    ensures
        script::pieces_from(s, start, i, true, p) == script::pieces_from(s, start, k, true, p),
    decreases k - i,
{
    if i < k {
        assert(s[i] != '\'');
        inside_quotes(s, start, i + 1, k, p);
    }
}

/// What was found of a script stays found.
proof fn found_stays(s: Seq<char>, start: int, i: int, quoted: bool, p: Seq<Seq<char>>)
    ensures
        ({
            let all = script::pieces_from(s, start, i, quoted, p);
            all.len() >= p.len() && all.take(p.len() as int) == p
        }),
    decreases s.len() - i,
{
    let all = script::pieces_from(s, start, i, quoted, p);
    if i < 0 || start < 0 || i < start || i >= s.len() {
        assert(all.take(p.len() as int) =~= p);
    } else if !quoted && script::is_slash_line(s, i) {
        let e = if script::line_end(s, i) <= i {
            i + 1
        } else {
            script::line_end(s, i)
        };
        let q = script::with_piece(p, s.subrange(start, i));
        found_stays(s, e, e, false, q);
        assert(all.take(p.len() as int) =~= all.take(q.len() as int).take(p.len() as int));
        assert(q.take(p.len() as int) =~= p);
    } else if !quoted && i < script::comment_end(s, i) <= s.len() {
        let e = script::comment_end(s, i);
        let from = if text::trimmed(s.subrange(start, i)).len() == 0 {
            e
        } else {
            start
        };
        found_stays(s, from, e, false, p);
    } else if s[i] == '\'' {
        found_stays(s, start, i + 1, !quoted, p);
    } else if s[i] == ';' && !quoted && !script::is_unit(s.subrange(start, i)) {
        let q = script::with_piece(p, s.subrange(start, i));
        found_stays(s, i + 1, i + 1, false, q);
        assert(all.take(p.len() as int) =~= all.take(q.len() as int).take(p.len() as int));
        assert(q.take(p.len() as int) =~= p);
    } else {
        found_stays(s, start, i + 1, quoted, p);
    }
}

/// A statement of a script goes up to its first semicolon; with nothing behind it but what is
/// ordinary, it is the whole script.
pub proof fn a_semicolon_ends_a_statement(s: Seq<char>, k: int)
    requires
        0 <= k <= s.len(),
        forall|j: int| 0 <= j < k ==> #[trigger] is_ordinary(s, j),
        text::trimmed(s.take(k)).len() > 0,
        k < s.len() ==> s[k] == ';' && !script::is_slash_line(s, k) && !script::is_unit(s.take(k)),
    ensures
        statements(s).len() >= 1,
        statements(s)[0] == text::trimmed(s.take(k)),
        k == s.len() ==> statements(s).len() == 1,
{
    nothing_happens(s, 0, 0, k, Seq::empty());
    assert(s.subrange(0, k) =~= s.take(k));
    if k < s.len() {
        let p = script::with_piece(Seq::empty(), s.take(k));
        assert(script::comment_end(s, k) == k);
        found_stays(s, k + 1, k + 1, false, p);
        assert(statements(s)[0] == statements(s).take(1)[0]);
    } else {
        assert(s.skip(0) =~= s);
        assert(s.take(k) =~= s);
    }
}

/// A unit of PL/SQL keeps its semicolons: it goes up to a line with a slash alone, and with
/// none it is the whole script.
pub proof fn a_slash_ends_a_unit(s: Seq<char>, k: int)
    requires
        0 < k <= s.len(),
        forall|j: int|
            0 <= j < k ==> #[trigger] is_ordinary(s, j) || (s[j] == ';'
                && script::comment_end(s, j) <= j && !script::is_slash_line(s, j)
                && script::is_unit(s.take(j))),
        text::trimmed(s.take(k)).len() > 0,
        k < s.len() ==> script::is_slash_line(s, k),
    ensures
        statements(s).len() >= 1,
        statements(s)[0] == text::trimmed(s.take(k)),
        k == s.len() ==> statements(s).len() == 1,
{
    unit_goes_on(s, 0, k, Seq::empty());
    assert(s.subrange(0, k) =~= s.take(k));
    if k < s.len() {
        let p = script::with_piece(Seq::empty(), s.take(k));
        let e = if script::line_end(s, k) <= k {
            k + 1
        } else {
            script::line_end(s, k)
        };
        found_stays(s, e, e, false, p);
        assert(statements(s)[0] == statements(s).take(1)[0]);
    } else {
        assert(s.skip(0) =~= s);
        assert(s.take(k) =~= s);
    }
}

proof fn unit_goes_on(s: Seq<char>, i: int, k: int, p: Seq<Seq<char>>)
    requires
        0 <= i <= k <= s.len(),
        forall|j: int|
            i <= j < k ==> #[trigger] is_ordinary(s, j) || (s[j] == ';' && script::comment_end(
                s,
                j,
            ) <= j && !script::is_slash_line(s, j) && script::is_unit(s.take(j))),
    ensures
        script::pieces_from(s, 0, i, false, p) == script::pieces_from(s, 0, k, false, p),
    decreases k - i,
{
    if i < k {
        assert(s.subrange(0, i) =~= s.take(i));
        let ordinary = is_ordinary(s, i);
        if !ordinary {
            assert(s[i] == ';' && script::comment_end(s, i) <= i);
            assert(!script::is_slash_line(s, i));
            assert(script::is_unit(s.subrange(0, i)));
            assert(script::pieces_from(s, 0, i, false, p) == script::pieces_from(
                s,
                0,
                i + 1,
                false,
                p,
            ));
        }
        unit_goes_on(s, i + 1, k, p);
    }
}

/// A semicolon in quotes ends nothing.
pub proof fn a_quoted_semicolon_ends_nothing(s: Seq<char>, a: int, b: int)
    requires
        0 <= a < b < s.len(),
        s[a] == '\'',
        s[b] == '\'',
        !script::is_slash_line(s, a),
        forall|j: int| 0 <= j < a ==> #[trigger] is_ordinary(s, j),
        forall|j: int| a < j < b ==> #[trigger] s[j] != '\'',
        forall|j: int| b < j < s.len() ==> #[trigger] is_ordinary(s, j),
        text::trimmed(s).len() > 0,
    ensures
        statements(s) == seq![text::trimmed(s)],
{
    let none = Seq::<Seq<char>>::empty();
    nothing_happens(s, 0, 0, a, none);
    assert(script::comment_end(s, a) == a);
    inside_quotes(s, 0, a + 1, b, none);
    nothing_happens(s, 0, b + 1, s.len() as int, none);
    assert(s.skip(0) =~= s);
    assert(none.push(text::trimmed(s)) =~= seq![text::trimmed(s)]);
}

} // verus!
