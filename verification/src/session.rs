//! Sessions: statement execution and transactions.

use vstd::prelude::*;
use vstd::string::*;
use vstd::utf8::*;

use crate::ast;
use crate::ast::{Query, Statement};
use crate::catalog;
use crate::catalog::Cat;
use crate::datetime;
use crate::ddl;
use crate::ddl::{Database, Store};
use crate::dml;
use crate::dml::{Column, Deal, Dml, Tally, Txn};
use crate::env;
use crate::env::{Env, Setting};
use crate::error;
use crate::error::{Failure, OraError};
use crate::eval;
use crate::eval::Scene;
use crate::functions;
use crate::plsql::vars;
use crate::plsql::vars::{Vars, Visible};
use crate::server::oranum;
use crate::strings;
use crate::text;
use crate::tree;
use crate::txn;
use crate::value::{Datum, SqlType, Value};

verus! {

/// How many bytes DBMS_OUTPUT holds.
pub const OUTPUT_LIMIT: usize = 1_000_000;

/// DBMS_OUTPUT's buffer for one session.
pub struct Output {
    pub enabled: bool,
    pub lines: Vec<String>,
    pub partial: String,
    /// Bytes held in the buffer, counted against its limit.
    pub bytes: usize,
}

/// What the buffer holds.
pub struct Buffer {
    pub enabled: bool,
    pub lines: Seq<Seq<char>>,
    pub partial: Seq<char>,
    pub bytes: int,
}

impl View for Output {
    type V = Buffer;

    open spec fn view(&self) -> Buffer {
        Buffer {
            enabled: self.enabled,
            lines: ast::texts_tree(self.lines),
            partial: self.partial@,
            bytes: self.bytes as int,
        }
    }
}

pub open spec fn output_full() -> Failure {
    error::failure(20000, "ORU-10027: buffer overflow, limit of 1000000 bytes"@)
}

impl Buffer {
    /// The buffer with a text more, which may end its line. A disabled one takes nothing,
    /// and one without room stays as it is.
    pub open spec fn put(self, text: Seq<char>, end_line: bool) -> Result<Buffer, Failure> {
        let size = encode_utf8(text).len();
        if !self.enabled {
            Ok(self)
        } else if self.bytes + size > OUTPUT_LIMIT {
            Err(output_full())
        } else if end_line {
            Ok(
                Buffer {
                    lines: self.lines.push(self.partial + text),
                    partial: Seq::empty(),
                    bytes: self.bytes + size,
                    ..self
                },
            )
        } else {
            Ok(Buffer { partial: self.partial + text, bytes: self.bytes + size, ..self })
        }
    }

    /// The oldest complete line, and the buffer without it.
    pub open spec fn take_line(self) -> (Option<Seq<char>>, Buffer) {
        if self.lines.len() == 0 {
            (None, self)
        } else {
            let size = encode_utf8(self.lines[0]).len();
            (
                Some(self.lines[0]),
                Buffer {
                    lines: self.lines.skip(1),
                    bytes: if self.bytes >= size {
                        self.bytes - size
                    } else {
                        0
                    },
                    ..self
                },
            )
        }
    }
}

/// A line that was put into an enabled, empty buffer with room comes out again, and leaves
/// as much room as there was.
pub proof fn a_line_comes_out_as_it_went_in(b: Buffer, text: Seq<char>)
    requires
        b.enabled,
        b.lines.len() == 0,
        b.partial.len() == 0,
        b.bytes >= 0,
        b.put(text, true) is Ok,
    ensures
        b.put(text, true)->Ok_0.take_line() == (Some(text), b),
{
    assert(b.partial + text =~= text);
    assert(b.lines.push(text).skip(1) =~= b.lines);
    assert(b.partial =~= Seq::empty());
}

impl Output {
    pub fn new() -> (o: Output)
        ensures
            o@ == (Buffer {
                enabled: false,
                lines: Seq::empty(),
                partial: Seq::empty(),
                bytes: 0,
            }),
    {
        let o = Output {
            enabled: false,
            lines: ast::no_texts(),
            partial: String::new(),
            bytes: 0,
        };
        assert(o@.partial =~= Seq::empty());
        o
    }

    pub fn put(&mut self, text: &str, end_line: bool) -> (r: Result<(), OraError>)
        ensures
            match r {
                Ok(_) => old(self)@.put(text@, end_line) == Ok::<Buffer, Failure>(final(self)@),
                Err(e) => old(self)@.put(text@, end_line) == Err::<Buffer, Failure>(e@)
                    && *final(self) == *old(self),
            },
    {
        if !self.enabled {
            return Ok(());
        }
        let size: usize = text.as_bytes().len();
        if self.bytes > OUTPUT_LIMIT || size > OUTPUT_LIMIT - self.bytes {
            return Err(
                OraError::new(20000, "ORU-10027: buffer overflow, limit of 1000000 bytes"),
            );
        }
        self.bytes = self.bytes + size;
        let ghost before = self.partial@;
        self.partial.append(text);
        assert(self.partial@ =~= before + text@);
        if end_line {
            let line = self.partial.clone();
            let ghost lines = self.lines;
            self.lines.push(line);
            assert(ast::texts_tree(self.lines) =~= ast::texts_tree(lines).push(line@));
            self.partial = String::new();
            assert(self.partial@ =~= Seq::empty());
        }
        Ok(())
    }

    /// Removes the oldest complete line, as GET_LINE does.
    pub fn take_line(&mut self) -> (r: Option<String>)
        ensures
            (catalog::opt_text(r), final(self)@) == old(self)@.take_line(),
    {
        if self.lines.len() == 0 {
            return None;
        }
        let ghost lines = self.lines;
        let line = self.lines.remove(0);
        assert(ast::texts_tree(lines)[0] == lines@[0]@);
        assert(ast::texts_tree(self.lines) =~= ast::texts_tree(lines).skip(1));
        let size: usize = line.as_str().as_bytes().len();
        self.bytes = if self.bytes >= size {
            self.bytes - size
        } else {
            0
        };
        Some(line)
    }

    /// Drops what is held, and takes no more.
    pub fn disable(&mut self)
        ensures
            final(self)@ == (Buffer {
                enabled: false,
                lines: Seq::empty(),
                partial: Seq::empty(),
                bytes: 0,
            }),
    {
        *self = Output::new();
    }
}

// ---- settings ----

/// What a time zone stands for.
pub enum Zone {
    Offset(int),
    /// That of the machine.
    Local,
    Unknown(Failure),
}

pub open spec fn no_region() -> Failure {
    error::failure(1882, "timezone region not found"@)
}

/// The offset that hours and minutes give.
pub open spec fn zone_offset(sign: int, rest: Seq<char>) -> Zone {
    let (h, m) = match strings::index_from(rest, ':', 0) {
        Some(k) => (rest.take(k), rest.skip(k + 1)),
        None => (rest, seq!['0']),
    };
    match oranum::exponent_of(text::trimmed(h)) {
        None => Zone::Unknown(no_region()),
        Some(h) => match oranum::exponent_of(text::trimmed(m)) {
            None => Zone::Unknown(no_region()),
            Some(m) => if 0 <= h <= 14 && 0 <= m < 60 {
                Zone::Offset(sign * (h * 60 + m))
            } else {
                Zone::Unknown(
                    error::failure(1874, "time zone hour must be between -15 and 15"@),
                )
            },
        },
    }
}

pub open spec fn zone_of(value: Seq<char>) -> Zone {
    let v = text::upper(text::trimmed(value));
    if v == "UTC"@ || v == "GMT"@ || v == "DBTIMEZONE"@ || v == "Z"@ {
        Zone::Offset(0)
    } else if v == "LOCAL"@ || v == "SESSIONTIMEZONE"@ {
        Zone::Local
    } else if v.len() > 0 && v[0] == '+' {
        zone_offset(1, v.skip(1))
    } else if v.len() > 0 && v[0] == '-' {
        zone_offset(-1, v.skip(1))
    } else {
        Zone::Unknown(no_region())
    }
}

/// Whether an offset is the one that a time zone has, on a machine with an offset.
pub open spec fn in_zone(z: Zone, local: int, r: Result<i32, OraError>) -> bool {
    match z {
        Zone::Offset(n) => r is Ok && r->Ok_0 == n,
        Zone::Local => r is Ok && r->Ok_0 == local,
        Zone::Unknown(e) => r is Err && r->Err_0@ == e,
    }
}

fn offset_of(sign: i32, rest: &Vec<char>) -> (r: Result<i32, OraError>)
    requires
        sign == 1 || sign == -1,
    ensures
        in_zone(zone_offset(sign as int, rest@), 0, r),
{
    let total: usize = rest.len();
    let (h, m) = match strings::index_of(rest, ':') {
        Some(k) => {
            let h = text::slice(rest, 0, k);
            let m = text::slice(rest, k + 1, total);
            assert(h@ =~= rest@.take(k as int));
            assert(m@ =~= rest@.skip(k + 1));
            (h, m)
        },
        None => {
            let h = text::slice(rest, 0, total);
            assert(h@ =~= rest@);
            let mut m: Vec<char> = Vec::new();
            m.push('0');
            assert(m@ =~= seq!['0']);
            (h, m)
        },
    };
    let h = match oranum::parse_exponent(&text::trim(&text::string_of(&h))) {
        Some(h) => h,
        None => {
            return Err(OraError::new(1882, "timezone region not found"));
        },
    };
    let m = match oranum::parse_exponent(&text::trim(&text::string_of(&m))) {
        Some(m) => m,
        None => {
            return Err(OraError::new(1882, "timezone region not found"));
        },
    };
    if h < 0 || h > 14 || m < 0 || m >= 60 {
        return Err(OraError::new(1874, "time zone hour must be between -15 and 15"));
    }
    let minutes: i32 = h as i32 * 60 + m as i32;
    Ok(
        if sign < 0 {
            -minutes
        } else {
            minutes
        },
    )
}

pub fn parse_time_zone(value: &str, local: i32) -> (r: Result<i32, OraError>)
    ensures
        in_zone(zone_of(value@), local as int, r),
{
    let t = text::string_of(&text::trim(value));
    let v = t.as_str().to_uppercase();
    if text::same(&v, "UTC") || text::same(&v, "GMT") || text::same(&v, "DBTIMEZONE")
        || text::same(&v, "Z") {
        return Ok(0);
    }
    if text::same(&v, "LOCAL") || text::same(&v, "SESSIONTIMEZONE") {
        return Ok(local);
    }
    let c = text::chars_of(&v);
    let total: usize = c.len();
    if total > 0 && (c[0] == '+' || c[0] == '-') {
        let rest = text::slice(&c, 1, total);
        assert(rest@ =~= v@.skip(1));
        return offset_of(
            if c[0] == '+' {
                1
            } else {
                -1
            },
            &rest,
        );
    }
    Err(OraError::new(1882, "timezone region not found"))
}

/// The settings behind ALTER SESSION. LOCAL is the machine's time zone, as it was when
/// the statement started.
pub open spec fn altered(env: Setting, name: Seq<char>, value: Seq<char>) -> Result<
    Setting,
    Failure,
> {
    if name == "NLS_DATE_FORMAT"@ || name == "NLS_TIMESTAMP_FORMAT"@ {
        if datetime::elements(value, 0) is None {
            Err(datetime::unknown_format())
        } else if name == "NLS_DATE_FORMAT"@ {
            Ok(Setting { date_format: value, ..env })
        } else {
            Ok(Setting { timestamp_format: value, ..env })
        }
    } else if name == "TIME_ZONE"@ {
        match zone_of(value) {
            Zone::Offset(n) => Ok(Setting { offset: n, ..env }),
            Zone::Local => Ok(Setting { offset: env.machine, ..env }),
            Zone::Unknown(e) => Err(e),
        }
    } else {
        Ok(env)
    }
}

/// A point in a session's transaction that later changes can be undone to.
#[derive(Debug, Clone, Copy, PartialEq, Eq)]
pub struct Savepoint {
    pub commits: u64,
    pub changes: usize,
}

/// A connection's view of a [`Database`]. Changes are private to the session until
/// [`Session::commit`]; dropping the session rolls them back.
pub struct Session {
    pub env: Env,
    pub txn: Option<Txn>,
    /// Counts commits and rollbacks, so a failed block knows whether it may undo
    /// changes made before it.
    pub commits: u64,
    pub output: Output,
}

/// What a session holds.
pub struct Seat {
    pub env: Setting,
    pub txn: Option<Deal>,
    pub commits: u64,
    pub output: Buffer,
}

impl View for Session {
    type V = Seat;

    open spec fn view(&self) -> Seat {
        Seat {
            env: self.env@,
            txn: match self.txn {
                Some(t) => Some(t@),
                None => None,
            },
            commits: self.commits,
            output: self.output@,
        }
    }
}

/// A session and the database it works on.
pub struct World {
    pub seat: Seat,
    pub store: Store,
}

/// The result of a statement.
pub struct Outcome {
    pub rows_affected: u64,
    /// Rows returned by a query, or the values of a DML RETURNING clause.
    pub rows: Vec<Vec<Value>>,
    /// The columns of a query.
    pub columns: Vec<Column>,
}

pub struct Gain {
    pub count: int,
    pub rows: Seq<Seq<Datum>>,
    pub columns: Seq<(Seq<char>, SqlType)>,
}

impl View for Outcome {
    type V = Gain;

    open spec fn view(&self) -> Gain {
        Gain {
            count: self.rows_affected as int,
            rows: vars::value_rows(self.rows@),
            columns: dml::described(self.columns@),
        }
    }
}

pub open spec fn no_gain() -> Gain {
    Gain { count: 0, rows: Seq::empty(), columns: Seq::empty() }
}

fn nothing() -> (o: Outcome)
    ensures
        o@ == no_gain(),
{
    let o = Outcome { rows_affected: 0, rows: Vec::new(), columns: Vec::new() };
    assert(o@.rows =~= Seq::empty());
    assert(o@.columns =~= Seq::empty());
    o
}

/// What a statement does.
pub struct Ran {
    pub world: World,
    pub result: Result<Gain, Failure>,
}

/// Whether a statement did what it was due to do, where that was settled.
pub open spec fn acts(due: Ran, after: World, r: Result<Outcome, OraError>) -> bool {
    due.result == Err::<Gain, Failure>(eval::free()) || (after == due.world && match r {
        Ok(o) => due.result == Ok::<Gain, Failure>(o@),
        Err(e) => due.result == Err::<Gain, Failure>(e@),
    })
}

/// The state a session sees: its transaction's, or the committed state.
pub open spec fn seen(w: World) -> Cat {
    match w.seat.txn {
        Some(t) => t.work,
        None => w.store.state,
    }
}

pub open spec fn scene(w: World, binds: Seq<Datum>, vars: Option<Visible>) -> Scene {
    Scene { binds, env: w.seat.env, vars, row: None }
}

/// What COMMIT does.
pub open spec fn commit_due(w: World) -> Ran {
    let left = Seat { txn: None, commits: txn::next_version(w.seat.commits), ..w.seat };
    match w.seat.txn {
        None => Ran { world: World { seat: left, ..w }, result: Ok(no_gain()) },
        Some(t) => if t.log.len() == 0 {
            Ran { world: World { seat: left, ..w }, result: Ok(no_gain()) }
        } else {
            match txn::committed(w.store.state, t, w.seat.env.user) {
                Ok(state) => Ran {
                    world: World { seat: left, store: Store { state, ..w.store } },
                    result: Ok(no_gain()),
                },
                Err(e) => Ran { world: World { seat: left, ..w }, result: Err(e) },
            }
        },
    }
}

/// What ROLLBACK leaves.
pub open spec fn rolled_back(w: World) -> World {
    World {
        seat: Seat { txn: None, commits: txn::next_version(w.seat.commits), ..w.seat },
        ..w
    }
}

/// What is left once the changes since a savepoint are undone.
pub open spec fn undone_to(seat: Seat, p: Savepoint) -> Seat {
    match seat.txn {
        None => seat,
        Some(t) => {
            let wanted = if seat.commits == p.commits {
                p.changes as int
            } else {
                0
            };
            let keep = if wanted < t.log.len() {
                wanted
            } else {
                t.log.len() as int
            };
            let left = Deal {
                work: txn::undone(t.work, t.log, keep),
                log: t.log.take(keep),
                ..t
            };
            Seat {
                txn: if keep == 0 {
                    None
                } else {
                    Some(left)
                },
                ..seat
            }
        },
    }
}

/// What INSERT, UPDATE or DELETE does.
pub open spec fn dml_effect(cat: Cat, tally: Tally, s: Scene, stmt: tree::Statement) -> txn::Effect {
    match stmt {
        tree::Statement::Insert(i) => txn::insert_effect(cat, tally, s, i),
        tree::Statement::Update(u) => txn::update_effect(cat, tally, s, u),
        tree::Statement::Delete(d) => txn::delete_effect(cat, tally, s, d),
        _ => txn::fail(cat, tally, error::failure(900, "invalid SQL statement"@)),
    }
}

/// The transaction that a session works in.
pub open spec fn open_deal(w: World) -> Deal {
    match w.seat.txn {
        Some(t) => t,
        None => Deal {
            base_version: w.store.state.version,
            work: w.store.state,
            log: Seq::empty(),
        },
    }
}

/// What INSERT, UPDATE or DELETE does to a session. Without changes there is no transaction,
/// so later queries see other sessions' commits.
pub open spec fn dml_due(w: World, s: Scene, stmt: tree::Statement) -> Ran {
    let t = open_deal(w);
    let e = dml_effect(t.work, w.store.tally, s, stmt);
    let after = Deal { work: e.work, log: t.log + e.added, ..t };
    Ran {
        world: World {
            seat: Seat {
                txn: if after.log.len() == 0 {
                    None
                } else {
                    Some(after)
                },
                ..w.seat
            },
            store: Store { tally: e.tally, ..w.store },
        },
        result: match e.result {
            Ok((n, rows)) => Ok(Gain { count: n, rows, columns: Seq::empty() }),
            Err(x) => Err(x),
        },
    }
}

/// What a query gives a session.
pub open spec fn query_due(w: World, s: Scene, q: tree::Query) -> Ran {
    Ran {
        world: w,
        result: match dml::queried(seen(w), s, q) {
            Ok(a) => Ok(Gain { count: a.rows.len() as int, rows: a.rows, columns: a.columns }),
            Err(e) => Err(e),
        },
    }
}

/// What a statement that defines something does. It commits any open transaction first, then
/// changes the committed state directly.
pub open spec fn define_due(w: World, s: Scene, stmt: tree::Statement) -> Ran {
    let c = commit_due(w);
    match c.result {
        Err(e) => c,
        Ok(_) => {
            let d = ddl::ddl_due(c.world.store, s, stmt);
            Ran {
                world: World { store: d.store, ..c.world },
                result: match d.failure {
                    Some(e) => Err(e),
                    None => Ok(no_gain()),
                },
            }
        },
    }
}

/// Whether DML on a table kept to it, whatever its expressions came to: the committed
/// tables stay, a failure leaves the transaction as it was, and a success changes no
/// other table.
pub open spec fn dml_keeps(w: World, after: World, table: Seq<char>, ok: bool) -> bool {
    let t = open_deal(w);
    &&& after.store == (Store { tally: after.store.tally, ..w.store })
    &&& after.seat == (Seat { txn: after.seat.txn, ..w.seat })
    &&& match after.seat.txn {
        Some(x) => txn::keeps_to(table, t, x, ok),
        None => t.log.len() == 0,
    }
}

/// Whether a statement that makes a table kept to that: it commits first.
pub open spec fn define_keeps(w: World, after: World, ok: bool) -> bool {
    let c = commit_due(w);
    match c.result {
        Err(_) => !ok && after == c.world,
        Ok(_) => after.seat == c.world.seat && ddl::adds_a_table(c.world.store, after.store, ok),
    }
}

/// What holds of a statement whatever its expressions came to.
pub open spec fn keeps_within(
    w: World,
    after: World,
    stmt: tree::Statement,
    read_only: bool,
    ok: bool,
) -> bool {
    match stmt {
        tree::Statement::Query(_) => after == w,
        _ => if read_only {
            after == w && !ok
        } else {
            match stmt {
                tree::Statement::Insert(i) => dml_keeps(w, after, i.table, ok),
                tree::Statement::Update(u) => dml_keeps(w, after, u.table, ok),
                tree::Statement::Delete(d) => dml_keeps(w, after, d.table, ok),
                tree::Statement::CreateTable(_) => define_keeps(w, after, ok),
                _ => true,
            }
        },
    }
}

/// The table that DML is about.
pub open spec fn dml_table(stmt: tree::Statement) -> Seq<char> {
    match stmt {
        tree::Statement::Insert(i) => i.table,
        tree::Statement::Update(u) => u.table,
        tree::Statement::Delete(d) => d.table,
        _ => Seq::empty(),
    }
}

/// What a statement does.
#[verifier::opaque]
pub open spec fn ran(
    w: World,
    binds: Seq<Datum>,
    vars: Option<Visible>,
    stmt: tree::Statement,
    read_only: bool,
) -> Ran {
    let s = scene(w, binds, vars);
    match stmt {
        tree::Statement::Query(q) => query_due(w, s, q),
        _ => if read_only {
            Ran {
                world: w,
                result: Err(
                    error::failure(14551, "cannot perform a DML operation inside a query"@),
                ),
            }
        } else {
            match stmt {
                tree::Statement::Insert(_) => dml_due(w, s, stmt),
                tree::Statement::Update(_) => dml_due(w, s, stmt),
                tree::Statement::Delete(_) => dml_due(w, s, stmt),
                tree::Statement::Commit => commit_due(w),
                tree::Statement::Rollback => Ran {
                    world: rolled_back(w),
                    result: Ok(no_gain()),
                },
                tree::Statement::AlterSession { name, value } => match altered(
                    w.seat.env,
                    name,
                    value,
                ) {
                    Ok(env) => Ran {
                        world: World { seat: Seat { env, ..w.seat }, ..w },
                        result: Ok(no_gain()),
                    },
                    Err(e) => Ran { world: w, result: Err(e) },
                },
                _ => define_due(w, s, stmt),
            }
        },
    }
}

impl Session {
    /// The transaction works on tables that are in shape.
    pub open spec fn wf(&self) -> bool {
        self.txn matches Some(t) ==> t.work@.wf()
    }

    pub fn new(user: &str) -> (s: Session)
        ensures
            s@.env.user == text::upper(user@),
            s@.env.date_format == datetime::DEFAULT_DATE_FORMAT@,
            s@.env.timestamp_format == datetime::DEFAULT_TIMESTAMP_FORMAT@,
            s@.txn is None,
            s@.commits == 0,
            s@.output == (Buffer {
                enabled: false,
                lines: Seq::empty(),
                partial: Seq::empty(),
                bytes: 0,
            }),
            s.wf(),
    {
        Session { env: Env::new(user), txn: None, commits: 0, output: Output::new() }
    }

    pub fn user(&self) -> (s: String)
        ensures
            s@ == self@.env.user,
    {
        self.env.user.clone()
    }

    /// Whether the session has uncommitted changes.
    pub fn in_transaction(&self) -> (r: bool)
        ensures
            r == (self@.txn matches Some(t) && t.log.len() > 0),
    {
        match &self.txn {
            Some(t) => t.log.len() > 0,
            None => false,
        }
    }

    /// The session time zone, in minutes east of UTC.
    pub fn time_zone_offset(&self) -> (n: i32)
        ensures
            n == self@.env.offset,
    {
        self.env.tz_offset_minutes
    }

    /// Commits the session's changes.
    pub fn commit(&mut self, db: &mut Database) -> (r: Result<(), OraError>)
        requires
            old(self).wf(),
            old(db)@.state.wf(),
        ensures
            ({
                let due = commit_due(World { seat: old(self)@, store: old(db)@ });
                &&& (World { seat: final(self)@, store: final(db)@ }) == due.world
                &&& match r {
                    Ok(_) => due.result is Ok,
                    Err(e) => due.result == Err::<Gain, Failure>(e@),
                }
            }),
            final(self).wf(),
            final(db)@.state.wf(),
    {
        self.commits = txn::version_after(self.commits);
        let txn = match self.txn.take() {
            Some(t) => t,
            None => {
                return Ok(());
            },
        };
        if txn.log.len() == 0 {
            return Ok(());
        }
        txn::commit(&mut db.state, txn, &self.env.user)
    }

    /// Marks the current point of the transaction, to undo later work with
    /// [`Session::rollback_to`].
    pub fn savepoint(&self) -> (p: Savepoint)
        ensures
            p.commits == self@.commits,
            p.changes == (match self@.txn {
                Some(t) => t.log.len() as int,
                None => 0,
            }),
    {
        Savepoint {
            commits: self.commits,
            changes: match &self.txn {
                Some(t) => t.log.len(),
                None => 0,
            },
        }
    }

    /// Undoes the uncommitted changes made since `savepoint`. Changes committed since
    /// then stay; only those after the last commit are undone.
    pub fn rollback_to(&mut self, savepoint: Savepoint)
        requires
            old(self).wf(),
        ensures
            final(self)@ == undone_to(old(self)@, savepoint),
            final(self).wf(),
    {
        let wanted: usize = if self.commits == savepoint.commits {
            savepoint.changes
        } else {
            0
        };
        match self.txn.take() {
            Some(t) => {
                let mut t = t;
                let have: usize = t.log.len();
                let keep: usize = if wanted < have {
                    wanted
                } else {
                    have
                };
                txn::undo(&mut t, keep);
                if keep > 0 {
                    self.txn = Some(t);
                }
            },
            None => {},
        }
    }

    pub fn rollback(&mut self)
        ensures
            final(self)@ == (Seat {
                txn: None,
                commits: txn::next_version(old(self)@.commits),
                ..old(self)@
            }),
            final(self).wf(),
    {
        self.commits = txn::version_after(self.commits);
        self.txn = None;
    }

    fn alter_session(&mut self, name: &str, value: &str) -> (r: Result<(), OraError>)
        requires
            old(self).wf(),
        ensures
            ({
                let due = altered(old(self)@.env, name@, value@);
                match r {
                    Ok(_) => due == Ok::<Setting, Failure>(final(self)@.env) && final(self)@
                        == (Seat { env: final(self)@.env, ..old(self)@ }),
                    Err(e) => due == Err::<Setting, Failure>(e@) && final(self)@ == old(self)@,
                }
            }),
            final(self).wf(),
    {
        if text::same(name, "NLS_DATE_FORMAT") {
            datetime::validate_format(value)?;
            self.env.nls_date_format = value.to_owned();
            return Ok(());
        }
        if text::same(name, "NLS_TIMESTAMP_FORMAT") {
            datetime::validate_format(value)?;
            self.env.nls_timestamp_format = value.to_owned();
            return Ok(());
        }
        if text::same(name, "TIME_ZONE") {
            let n = parse_time_zone(value, self.env.local_offset_minutes)?;
            self.env.tz_offset_minutes = n;
            return Ok(());
        }
        // CURRENT_SCHEMA, NLS_LANGUAGE, NLS_TERRITORY and the like are accepted and ignored.
        Ok(())
    }

    /// Runs INSERT, UPDATE or DELETE.
    fn dml(
        &mut self,
        db: &mut Database,
        stmt: &Statement,
        binds: &Vec<Value>,
        vars: Option<&Vars>,
    ) -> (r: Result<Outcome, OraError>)
        requires
            old(self).wf(),
            old(db)@.state.wf(),
            stmt is Insert || stmt is Update || stmt is Delete,
        ensures
            ({
                let w = World { seat: old(self)@, store: old(db)@ };
                acts(
                    dml_due(w, scene(w, functions::views(binds@), opt_visible(vars)), stmt@),
                    World { seat: final(self)@, store: final(db)@ },
                    r,
                )
            }),
            final(self).wf(),
            final(db)@.state.wf(),
            dml_keeps(
                World { seat: old(self)@, store: old(db)@ },
                World { seat: final(self)@, store: final(db)@ },
                dml_table(stmt@),
                r is Ok,
            ),
    {
        let ghost w = World { seat: self@, store: db@ };
        let mut txn = match self.txn.take() {
            Some(t) => t,
            None => {
                let log: Vec<dml::Change> = Vec::new();
                assert(dml::steps(log@) =~= Seq::empty());
                Txn { base_version: db.state.version, work: db.state.copy(), log }
            },
        };
        assert(txn@ == open_deal(w));
        let ghost before = txn@;
        let ghost tally = db.counters@;
        let ctx = Dml { env: &self.env, binds, vars };
        let result = match stmt {
            Statement::Insert(i) => {
                assert(dml_table(stmt@) == i.table@);
                txn::insert(&ctx, &mut txn, &mut db.counters, i)
            },
            Statement::Update(u) => {
                assert(dml_table(stmt@) == u.table@);
                txn::update(&ctx, &mut txn, u, Ghost(tally))
            },
            Statement::Delete(d) => {
                assert(dml_table(stmt@) == d.table@);
                txn::delete(&ctx, &mut txn, d, Ghost(tally))
            },
            _ => Err(OraError::new(900, "invalid SQL statement")),
        };
        let ghost e = dml_effect(before.work, tally, ctx@, stmt@);
        assert(txn::does(e, before, txn@, db.counters@, result));
        if txn.log.len() > 0 {
            self.txn = Some(txn);
        }
        match result {
            Ok((n, rows)) => {
                let columns: Vec<Column> = Vec::new();
                assert(dml::described(columns@) =~= Seq::empty());
                Ok(Outcome { rows_affected: n, rows, columns })
            },
            Err(e) => Err(e),
        }
    }

    fn query(
        &self,
        db: &Database,
        q: &Query,
        binds: &Vec<Value>,
        vars: Option<&Vars>,
    ) -> (r: Result<Outcome, OraError>)
        requires
            self.wf(),
            db@.state.wf(),
        ensures
            ({
                let w = World { seat: self@, store: db@ };
                acts(
                    query_due(w, scene(w, functions::views(binds@), opt_visible(vars)), q@),
                    w,
                    r,
                )
            }),
    {
        let ctx = Dml { env: &self.env, binds, vars };
        let rel = match &self.txn {
            Some(t) => dml::query(&t.work, &ctx, q)?,
            None => dml::query(&db.state, &ctx, q)?,
        };
        Ok(Outcome { rows_affected: rel.rows.len() as u64, rows: rel.rows, columns: rel.columns })
    }

    fn define(
        &mut self,
        db: &mut Database,
        stmt: &Statement,
        binds: &Vec<Value>,
        vars: Option<&Vars>,
    ) -> (r: Result<Outcome, OraError>)
        requires
            old(self).wf(),
            old(db)@.state.wf(),
        ensures
            ({
                let w = World { seat: old(self)@, store: old(db)@ };
                acts(
                    define_due(w, scene(w, functions::views(binds@), opt_visible(vars)), stmt@),
                    World { seat: final(self)@, store: final(db)@ },
                    r,
                )
            }),
            final(self).wf(),
            final(db)@.state.wf(),
            stmt is CreateTable ==> define_keeps(
                World { seat: old(self)@, store: old(db)@ },
                World { seat: final(self)@, store: final(db)@ },
                r is Ok,
            ),
    {
        self.commit(db)?;
        let ctx = Dml { env: &self.env, binds, vars };
        match db.ddl(&ctx, stmt) {
            Ok(_) => Ok(nothing()),
            Err(e) => Err(e),
        }
    }

    /// Runs a statement other than a block.
    pub(crate) fn run(
        &mut self,
        db: &mut Database,
        stmt: &Statement,
        binds: &Vec<Value>,
        vars: Option<&Vars>,
        read_only: bool,
    ) -> (r: Result<Outcome, OraError>)
        requires
            old(self).wf(),
            old(db)@.state.wf(),
        ensures
            acts(
                ran(
                    World { seat: old(self)@, store: old(db)@ },
                    functions::views(binds@),
                    opt_visible(vars),
                    stmt@,
                    read_only,
                ),
                World { seat: final(self)@, store: final(db)@ },
                r,
            ),
            final(self).wf(),
            final(db)@.state.wf(),
            keeps_within(
                World { seat: old(self)@, store: old(db)@ },
                World { seat: final(self)@, store: final(db)@ },
                stmt@,
                read_only,
                r is Ok,
            ),
    {
        proof {
            reveal(ran);
        }
        match stmt {
            Statement::Query(q) => {
                return self.query(db, q, binds, vars);
            },
            _ => {},
        }
        if read_only {
            return Err(
                OraError::new(14551, "cannot perform a DML operation inside a query"),
            );
        }
        match stmt {
            Statement::Insert(_) | Statement::Update(_) | Statement::Delete(_) => self.dml(
                db,
                stmt,
                binds,
                vars,
            ),
            Statement::Commit => match self.commit(db) {
                Ok(_) => Ok(nothing()),
                Err(e) => Err(e),
            },
            Statement::Rollback => {
                self.rollback();
                Ok(nothing())
            },
            Statement::AlterSession { name, value } => match self.alter_session(name, value) {
                Ok(_) => Ok(nothing()),
                Err(e) => Err(e),
            },
            _ => self.define(db, stmt, binds, vars),
        }
    }
}

pub open spec fn opt_visible(v: Option<&Vars>) -> Option<Visible> {
    match v {
        Some(v) => Some(v@),
        None => None,
    }
}

/// Rolling back right after a savepoint was taken changes nothing that a query sees.
pub proof fn rolling_back_at_once_changes_nothing(seat: Seat, p: Savepoint)
    requires
        p.commits == seat.commits,
        p.changes == (match seat.txn {
            Some(t) => t.log.len() as int,
            None => 0,
        }),
        seat.txn matches Some(t) ==> t.log.len() > 0,
    ensures
        undone_to(seat, p) == seat,
{
    match seat.txn {
        Some(t) => {
            assert(t.log.take(t.log.len() as int) =~= t.log);
        },
        None => {},
    }
}

/// A read-only run changes nothing.
pub proof fn a_read_only_run_changes_nothing(
    w: World,
    binds: Seq<Datum>,
    vars: Option<Visible>,
    stmt: tree::Statement,
)
    ensures
        ran(w, binds, vars, stmt, true).world == w,
{
    reveal(ran);
}

} // verus!
