//! Executing one statement on a session.

use vstd::prelude::*;
use vstd::string::*;

use crate::ast;
use crate::ast::{Expr, Statement};
use crate::ddl::{Database, Store};
use crate::dml;
use crate::dml::Column;
use crate::env::Setting;
use crate::error;
use crate::error::{Failure, OraError};
use crate::eval;
use crate::functions;
use crate::parser;
use crate::plsql::calls;
use crate::plsql::exec;
use crate::plsql::exec::{Mode, State};
use crate::plsql::run;
use crate::plsql::state::Local;
use crate::plsql::vars;
use crate::plsql::Block;
use crate::session;
use crate::session::{Savepoint, Seat, Session, World};
use crate::tree;
use crate::text;
use crate::value::{Datum, SqlType, Value};

verus! {

/// What a bind holds once a statement ran.
pub enum OutBind {
    /// As it was passed in.
    In,
    /// Its value behind a block.
    Value(Value),
    /// The values of a RETURNING clause, one per row.
    Returning(Vec<Value>),
}

pub enum Bound {
    In,
    Value(Datum),
    Returning(Seq<Datum>),
}

impl View for OutBind {
    type V = Bound;

    open spec fn view(&self) -> Bound {
        match self {
            OutBind::In => Bound::In,
            OutBind::Value(v) => Bound::Value(v@),
            OutBind::Returning(v) => Bound::Returning(functions::views(v@)),
        }
    }
}

pub open spec fn all_bound(v: Seq<OutBind>) -> Seq<Bound> {
    Seq::new(v.len(), |i: int| v[i]@)
}

/// The result of executing one statement.
pub struct QueryResult {
    pub is_query: bool,
    pub columns: Vec<Column>,
    pub rows: Vec<Vec<Value>>,
    pub rows_affected: u64,
    pub out_binds: Vec<OutBind>,
}

/// What a statement gives.
pub struct Answered {
    pub is_query: bool,
    pub columns: Seq<(Seq<char>, SqlType)>,
    pub rows: Seq<Seq<Datum>>,
    pub rows_affected: int,
    pub out_binds: Seq<Bound>,
}

impl View for QueryResult {
    type V = Answered;

    open spec fn view(&self) -> Answered {
        Answered {
            is_query: self.is_query,
            columns: dml::described(self.columns@),
            rows: vars::value_rows(self.rows@),
            rows_affected: self.rows_affected as int,
            out_binds: all_bound(self.out_binds@),
        }
    }
}

pub open spec fn empty_answer() -> Answered {
    Answered {
        is_query: false,
        columns: Seq::empty(),
        rows: Seq::empty(),
        rows_affected: 0,
        out_binds: Seq::empty(),
    }
}

fn empty_result() -> (r: QueryResult)
    ensures
        r@ == empty_answer(),
{
    let r = QueryResult {
        is_query: false,
        columns: Vec::new(),
        rows: Vec::new(),
        rows_affected: 0,
        out_binds: Vec::new(),
    };
    assert(r@.columns =~= Seq::empty());
    assert(r@.rows =~= Seq::empty());
    assert(r@.out_binds =~= Seq::empty());
    r
}

/// What a statement does.
pub struct Done {
    pub world: World,
    pub result: Result<Answered, Failure>,
}

pub open spec fn fulfils(due: Done, after: World, r: Result<QueryResult, OraError>) -> bool {
    due.result == Err::<Answered, Failure>(eval::free()) || (after == due.world && match r {
        Ok(x) => due.result == Ok::<Answered, Failure>(x@),
        Err(e) => due.result == Err::<Answered, Failure>(e@),
    })
}

/// The values that a column of rows holds.
pub open spec fn column(rows: Seq<Seq<Datum>>, k: int) -> Seq<Datum> {
    Seq::new(
        rows.len(),
        |i: int|
            if k < rows[i].len() {
                rows[i][k]
            } else {
                Datum::Null
            },
    )
}

fn column_of(rows: &Vec<Vec<Value>>, k: usize) -> (r: Vec<Value>)
    ensures
        functions::views(r@) == column(vars::value_rows(rows@), k as int),
{
    let mut out: Vec<Value> = Vec::new();
    for i in 0..rows.len()
        invariant
            out@.len() == i,
            forall|j: int|
                0 <= j < i ==> #[trigger] out@[j]@ == column(vars::value_rows(rows@), k as int)[j],
    {
        assert(vars::value_rows(rows@)[i as int] == functions::views(rows@[i as int]@));
        out.push(
            if k < rows[i].len() {
                rows[i][k].clone()
            } else {
                Value::Null
            },
        );
    }
    assert(functions::views(out@) =~= column(vars::value_rows(rows@), k as int));
    out
}

/// The binds behind a RETURNING clause, of which the first `k` targets are filled.
pub open spec fn returned_binds(
    n: int,
    into: Seq<tree::Expr>,
    rows: Seq<Seq<Datum>>,
    k: int,
) -> Seq<Bound>
    decreases k,
{
    if k <= 0 || k > into.len() {
        Seq::new(n as nat, |i: int| Bound::In)
    } else {
        let before = returned_binds(n, into, rows, k - 1);
        match into[k - 1] {
            tree::Expr::Bind(i) => if 0 <= i < before.len() {
                before.update(i, Bound::Returning(column(rows, k - 1)))
            } else {
                before
            },
            _ => before,
        }
    }
}

fn collect_binds(n: usize, into: &Vec<Expr>, rows: &Vec<Vec<Value>>) -> (r: Vec<OutBind>)
    ensures
        all_bound(r@) == returned_binds(
            n as int,
            ast::exprs_tree(*into),
            vars::value_rows(rows@),
            into@.len() as int,
        ),
{
    let ghost all = ast::exprs_tree(*into);
    let ghost values = vars::value_rows(rows@);
    let mut out: Vec<OutBind> = Vec::new();
    for i in 0..n
        invariant
            out@.len() == i,
            forall|j: int| 0 <= j < i ==> #[trigger] out@[j]@ == Bound::In,
    {
        out.push(OutBind::In);
    }
    assert(all_bound(out@) =~= Seq::new(n as nat, |i: int| Bound::In));
    for k in 0..into.len()
        invariant
            all == ast::exprs_tree(*into),
            values == vars::value_rows(rows@),
            all_bound(out@) == returned_binds(n as int, all, values, k as int),
    {
        assert(all[k as int] == into@[k as int]@);
        assert(all_bound(out@).len() == out@.len());
        match &into[k] {
            Expr::Bind(i) => {
                if *i < out.len() {
                    let ghost before = all_bound(out@);
                    let v = OutBind::Returning(column_of(rows, k));
                    let ghost shown = v@;
                    out.set(*i, v);
                    assert(all_bound(out@) =~= before.update(*i as int, shown));
                }
            },
            _ => {},
        }
    }
    out
}

/// How many steps a block may take.
pub const STEPS: u64 = 0xffff_ffff_ffff_ffff;

pub open spec fn point(seat: Seat) -> Savepoint {
    Savepoint {
        commits: seat.commits,
        changes: (match seat.txn {
            Some(t) => t.log.len() as int,
            None => 0,
        }) as usize,
    }
}

/// What a block does as one statement: if it fails, its uncommitted changes are undone.
pub open spec fn block_due(w: World, b: tree::Block, binds: Seq<Datum>) -> Done {
    let o = exec::block_run(
        Mode { read_only: false, depth: 0 },
        STEPS as nat,
        State { w, l: exec::alone(binds) },
        b,
    );
    match o.r {
        Ok(_) => Done {
            world: o.s.w,
            result: Ok(
                Answered {
                    out_binds: Seq::new(
                        o.s.l.binds.len(),
                        |i: int| Bound::Value(o.s.l.binds[i]),
                    ),
                    ..empty_answer()
                },
            ),
        },
        Err(e) => Done {
            world: World { seat: session::undone_to(o.s.w.seat, point(w.seat)), ..o.s.w },
            result: Err(e.err),
        },
    }
}

/// Whether a block that failed left its session with what it did undone, whatever its
/// expressions came to: nothing is left of its changes, but for what it committed.
pub open spec fn undone_on_failure(w: World, after: World, stmt: tree::Statement, ok: bool) -> bool {
    stmt is Block && !ok ==> exists|mid: Seat|
        after.seat == #[trigger] session::undone_to(mid, point(w.seat))
}

/// What a statement other than a block gives.
pub open spec fn statement_due(w: World, stmt: tree::Statement, binds: Seq<Datum>, n: int) -> Done {
    let o = session::ran(w, binds, None, stmt, false);
    Done {
        world: o.world,
        result: match o.result {
            Err(e) => Err(e),
            Ok(g) => Ok(
                if exec::is_dml(stmt) {
                    Answered {
                        rows_affected: g.count,
                        out_binds: match exec::returning_of(stmt) {
                            Some(r) => returned_binds(n, r.into, g.rows, r.into.len() as int),
                            None => Seq::empty(),
                        },
                        ..empty_answer()
                    }
                } else {
                    Answered {
                        is_query: stmt is Query,
                        columns: g.columns,
                        rows: g.rows,
                        ..empty_answer()
                    }
                },
            ),
        },
    }
}

/// What a parsed statement with `n` binds does.
pub open spec fn parsed_due(w: World, stmt: tree::Statement, n: int, binds: Seq<Datum>) -> Done {
    match stmt {
        tree::Statement::Block(b) => block_due(w, b, binds.take(n)),
        _ => statement_due(w, stmt, binds, n),
    }
}

/// What a text that is executed does.
pub open spec fn executed(w: World, sql: Seq<char>, binds: Seq<Datum>) -> Done {
    match parser::understood(sql) {
        Err(e) => Done { world: w, result: Err(e) },
        Ok((stmt, n)) => if binds.len() < n {
            Done { world: w, result: Err(error::failure(1008, "not all variables bound"@)) }
        } else {
            parsed_due(w, stmt, n, binds)
        },
    }
}

/// Whether two worlds differ in the time alone.
pub open spec fn same_but_time(a: World, b: World) -> bool {
    b == (World {
        seat: Seat {
            env: Setting {
                machine: b.seat.env.machine,
                now_local: b.seat.env.now_local,
                now_utc: b.seat.env.now_utc,
                ..a.seat.env
            },
            ..a.seat
        },
        ..a
    })
}

fn take_binds(binds: &Vec<Value>, n: usize) -> (r: Vec<Value>)
    requires
        n <= binds@.len(),
    ensures
        functions::views(r@) == functions::views(binds@).take(n as int),
{
    let mut out: Vec<Value> = Vec::new();
    for i in 0..n
        invariant
            n <= binds@.len(),
            out@.len() == i,
            forall|k: int| 0 <= k < i ==> #[trigger] out@[k]@ == binds@[k]@,
    {
        out.push(binds[i].clone());
    }
    assert(functions::views(out@) =~= functions::views(binds@).take(n as int));
    out
}

fn bound_values(v: Vec<Value>) -> (r: Vec<OutBind>)
    ensures
        all_bound(r@) == Seq::new(v@.len(), |i: int| Bound::Value(functions::views(v@)[i])),
{
    let mut out: Vec<OutBind> = Vec::new();
    for i in 0..v.len()
        invariant
            out@.len() == i,
            forall|k: int| 0 <= k < i ==> #[trigger] out@[k]@ == Bound::Value(v@[k]@),
    {
        out.push(OutBind::Value(v[i].clone()));
    }
    assert(all_bound(out@) =~= Seq::new(v@.len(), |i: int| Bound::Value(functions::views(v@)[i])));
    out
}

impl Session {
    /// Runs an anonymous block as one statement: if it fails, its uncommitted changes
    /// are undone.
    fn block(&mut self, db: &mut Database, b: &Block, binds: Vec<Value>) -> (r: Result<
        QueryResult,
        OraError,
    >)
        requires
            old(self).wf(),
            old(db)@.state.wf(),
        ensures
            fulfils(
                block_due(
                    World { seat: old(self)@, store: old(db)@ },
                    b@,
                    functions::views(binds@),
                ),
                World { seat: final(self)@, store: final(db)@ },
                r,
            ),
            final(self).wf(),
            final(db)@.state.wf(),
            r is Err ==> exists|mid: Seat|
                final(self)@ == #[trigger] session::undone_to(mid, point(old(self)@)),
    {
        let p = self.savepoint();
        let mut l = Local::new(binds);
        let m = Mode { read_only: false, depth: 0 };
        match calls::block_run(self, db, &mut l, m, STEPS, b) {
            Ok(_) => {
                let mut r = empty_result();
                assert(l@.binds.len() == l.binds@.len());
                r.out_binds = bound_values(l.binds);
                Ok(r)
            },
            Err(e) => {
                self.rollback_to(p);
                Err(e.err)
            },
        }
    }

    fn statement(&mut self, db: &mut Database, stmt: &Statement, binds: &Vec<Value>, n: usize) -> (r:
        Result<QueryResult, OraError>)
        requires
            old(self).wf(),
            old(db)@.state.wf(),
        ensures
            fulfils(
                statement_due(
                    World { seat: old(self)@, store: old(db)@ },
                    stmt@,
                    functions::views(binds@),
                    n as int,
                ),
                World { seat: final(self)@, store: final(db)@ },
                r,
            ),
            final(self).wf(),
            final(db)@.state.wf(),
            session::keeps_within(
                World { seat: old(self)@, store: old(db)@ },
                World { seat: final(self)@, store: final(db)@ },
                stmt@,
                false,
                r is Ok,
            ),
    {
        let o = self.run(db, stmt, binds, None, false)?;
        let mut r = empty_result();
        match stmt {
            Statement::Insert(_) | Statement::Update(_) | Statement::Delete(_) => {
                r.rows_affected = o.rows_affected;
                match run::returning(stmt) {
                    Some(x) => {
                        assert(x@.into == ast::exprs_tree(x.into));
                        assert(x@.into.len() == x.into@.len());
                        r.out_binds = collect_binds(n, &x.into, &o.rows);
                    },
                    None => {},
                }
            },
            Statement::Query(_) => {
                r.is_query = true;
                r.columns = o.columns;
                r.rows = o.rows;
            },
            _ => {
                r.columns = o.columns;
                r.rows = o.rows;
            },
        }
        Ok(r)
    }

    /// Executes a statement that was parsed, at the session's time.
    pub fn execute_parsed(&mut self, db: &mut Database, p: &parser::Parsed, binds: &Vec<Value>) -> (r:
        Result<QueryResult, OraError>)
        requires
            old(self).wf(),
            old(db)@.state.wf(),
            p.binds <= binds@.len(),
        ensures
            fulfils(
                parsed_due(
                    World { seat: old(self)@, store: old(db)@ },
                    p.stmt@,
                    p.binds as int,
                    functions::views(binds@),
                ),
                World { seat: final(self)@, store: final(db)@ },
                r,
            ),
            final(self).wf(),
            final(db)@.state.wf(),
            session::keeps_within(
                World { seat: old(self)@, store: old(db)@ },
                World { seat: final(self)@, store: final(db)@ },
                p.stmt@,
                false,
                r is Ok,
            ),
            undone_on_failure(
                World { seat: old(self)@, store: old(db)@ },
                World { seat: final(self)@, store: final(db)@ },
                p.stmt@,
                r is Ok,
            ),
    {
        match &p.stmt {
            Statement::Block(b) => self.block(db, b, take_binds(binds, p.binds)),
            stmt => self.statement(db, stmt, binds, p.binds),
        }
    }

    /// Executes one SQL statement or PL/SQL block. `binds` are the bind values by
    /// position (see [`crate::script::bind_directions`]); values at RETURNING positions are
    /// ignored. All of it runs at one time, which is read from the clock.
    pub fn execute(&mut self, db: &mut Database, sql: &str, binds: &Vec<Value>) -> (r: Result<
        QueryResult,
        OraError,
    >)
        requires
            old(self).wf(),
            old(db)@.state.wf(),
        ensures
            exists|w: World|
                #[trigger] same_but_time(World { seat: old(self)@, store: old(db)@ }, w)
                    && carries_out(
                    w,
                    sql@,
                    functions::views(binds@),
                    World { seat: final(self)@, store: final(db)@ },
                    r,
                ),
            final(self).wf(),
            final(db)@.state.wf(),
    {
        let ghost before = World { seat: self@, store: db@ };
        let parsed = match parser::parse_statement(sql) {
            Ok(p) => p,
            Err(e) => {
                assert(same_but_time(before, before));
                return Err(e);
            },
        };
        if binds.len() < parsed.binds {
            assert(same_but_time(before, before));
            return Err(OraError::new(1008, "not all variables bound"));
        }
        self.env.start_statement();
        let ghost w = World { seat: self@, store: db@ };
        assert(same_but_time(before, w));
        self.execute_parsed(db, &parsed, binds)
    }
}

/// Whether a text was executed as it is due. What holds of its statement whatever its
/// expressions come to holds in any case.
pub open spec fn carries_out(
    w: World,
    sql: Seq<char>,
    binds: Seq<Datum>,
    after: World,
    r: Result<QueryResult, OraError>,
) -> bool {
    &&& fulfils(executed(w, sql, binds), after, r)
    &&& match parser::understood(sql) {
        Ok((stmt, n)) => n <= binds.len() ==> session::keeps_within(
            w,
            after,
            stmt,
            false,
            r is Ok,
        ) && undone_on_failure(w, after, stmt, r is Ok),
        Err(_) => true,
    }
}

impl Database {
    /// A session of a user.
    pub fn session(&self, user: &str) -> (s: Session)
        ensures
            s@.env.user == text::upper(user@),
            s@.txn is None,
            s.wf(),
    {
        Session::new(user)
    }

    /// Executes one SQL statement or PL/SQL block in a session of its own, and commits.
    pub fn execute(&mut self, sql: &str) -> (r: Result<QueryResult, OraError>)
        requires
            old(self)@.state.wf(),
        ensures
            final(self)@.state.wf(),
            executes(old(self)@, sql@, final(self)@, r),
    {
        let p = parser::parse_statement(sql)?;
        if p.binds > 0 {
            return Err(OraError::new(1008, "not all variables bound"));
        }
        let mut s = Session::new("MOCK");
        let binds: Vec<Value> = Vec::new();
        assert(functions::views(binds@) =~= Seq::empty());
        let ghost w = World { seat: s@, store: self@ };
        assert(newly_connected(w, old(self)@));
        let ghost due = parsed_due(w, p.stmt@, 0, Seq::empty());
        match s.execute_parsed(self, &p, &binds) {
            Err(e) => {
                let ghost mid = World { seat: s@, store: self@ };
                assert(session::keeps_within(w, mid, p.stmt@, false, false));
                assert(closes(due, self@, Err(e)));
                Err(e)
            },
            Ok(x) => {
                let ghost mid = World { seat: s@, store: self@ };
                assert(session::keeps_within(w, mid, p.stmt@, false, true));
                let c = s.commit(self);
                let r = match c {
                    Ok(_) => Ok(x),
                    Err(e) => Err(e),
                };
                assert(closes(due, self@, r));
                r
            },
        }
    }
}

/// Whether executing a statement in a session of its own can lead from one state of
/// a database to another with a result.
pub open spec fn executes(
    a: Store,
    sql: Seq<char>,
    b: Store,
    r: Result<QueryResult, OraError>,
) -> bool {
    match parser::understood(sql) {
        Err(e) => r is Err && r->Err_0@ == e && b == a,
        Ok((stmt, n)) => if n > 0 {
            r is Err && r->Err_0@ == error::failure(1008, "not all variables bound"@) && b == a
        } else {
            exists|w: World| #[trigger]
                newly_connected(w, a) && closes(parsed_due(w, stmt, n, Seq::empty()), b, r)
                    && closes_within(w, stmt, b, r)
        },
    }
}

/// Whether a statement, and the commit behind it, kept to what the statement is about,
/// whatever its expressions came to: one that failed is not committed.
pub open spec fn closes_within(
    w: World,
    stmt: tree::Statement,
    after: Store,
    r: Result<QueryResult, OraError>,
) -> bool {
    (exists|mid: World| #[trigger]
        session::keeps_within(w, mid, stmt, false, true) && after == session::commit_due(
            mid,
        ).world.store && (r is Ok) == (session::commit_due(mid).result is Ok)) || (exists|mid: World|
     #[trigger]
        session::keeps_within(w, mid, stmt, false, false) && after == mid.store && r is Err)
}

/// Whether a session has just connected to a database.
pub open spec fn newly_connected(w: World, store: Store) -> bool {
    w.store == store && w.seat.env.user == text::upper("MOCK"@) && w.seat.txn is None
}

/// Whether a statement, and the commit behind it, left what they were due to leave.
pub open spec fn closes(due: Done, after: Store, r: Result<QueryResult, OraError>) -> bool {
    due.result == Err::<Answered, Failure>(eval::free()) || match due.result {
        Err(e) => r is Err && r->Err_0@ == e && after == due.world.store,
        Ok(a) => {
            let c = session::commit_due(due.world);
            after == c.world.store && match c.result {
                Ok(_) => r is Ok && r->Ok_0@ == a,
                Err(e) => r is Err && r->Err_0@ == e,
            }
        },
    }
}

} // verus!
