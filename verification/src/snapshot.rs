//! Saved copies of a database, and scripts that fill one.

use vstd::prelude::*;
use vstd::string::*;

use crate::ast;
use crate::catalog::{Cat, Catalog};
use crate::ddl;
use crate::ddl::{Database, Store};
use crate::dml;
use crate::dml::Tally;
use crate::engine;
use crate::engine::QueryResult;
use crate::error::{Failure, OraError};
use crate::script;
use crate::script::split_script;
use crate::txn;

verus! {

/// A saved copy of every table, sequence and routine.
pub struct Snapshot {
    state: Catalog,
    identities: Vec<(String, i64)>,
    positions: Vec<(String, i128)>,
}

/// What a saved copy holds.
pub struct Saved {
    pub state: Cat,
    pub identities: Seq<(Seq<char>, int)>,
    pub positions: Seq<(Seq<char>, int)>,
}

impl View for Snapshot {
    type V = Saved;

    closed spec fn view(&self) -> Saved {
        Saved {
            state: self.state@,
            identities: dml::named_numbers(self.identities@),
            positions: ddl::named_positions(self.positions@),
        }
    }
}

/// What a database holds that a copy keeps.
pub open spec fn saved(s: Store) -> Saved {
    Saved { state: s.state, identities: s.tally.identities, positions: s.positions }
}

/// A database put back to a copy. Row ids and constraint names are not given out
/// twice, and transactions begun before are not current any more.
pub open spec fn put_back(s: Store, c: Saved) -> Store {
    Store {
        state: Cat { version: txn::next_version(s.state.version), ..c.state },
        tally: Tally { identities: c.identities, ..s.tally },
        positions: c.positions,
        ..s
    }
}

fn copy_numbers(v: &Vec<(String, i64)>) -> (r: Vec<(String, i64)>)
    ensures
        dml::named_numbers(r@) == dml::named_numbers(v@),
{
    let mut out: Vec<(String, i64)> = Vec::new();
    for i in 0..v.len()
        invariant
            dml::named_numbers(out@) == dml::named_numbers(v@).take(i as int),
    {
        let ghost had = dml::named_numbers(out@);
        out.push((v[i].0.as_str().to_owned(), v[i].1));
        assert(dml::named_numbers(out@) =~= had.push((v@[i as int].0@, v@[i as int].1 as int)));
        assert(dml::named_numbers(out@) =~= dml::named_numbers(v@).take(i + 1));
    }
    assert(dml::named_numbers(out@) =~= dml::named_numbers(v@));
    out
}

fn copy_places(v: &Vec<(String, i128)>) -> (r: Vec<(String, i128)>)
    ensures
        ddl::named_positions(r@) == ddl::named_positions(v@),
{
    let mut out: Vec<(String, i128)> = Vec::new();
    for i in 0..v.len()
        invariant
            ddl::named_positions(out@) == ddl::named_positions(v@).take(i as int),
    {
        let ghost had = ddl::named_positions(out@);
        out.push((v[i].0.as_str().to_owned(), v[i].1));
        assert(ddl::named_positions(out@) =~= had.push((v@[i as int].0@, v@[i as int].1 as int)));
        assert(ddl::named_positions(out@) =~= ddl::named_positions(v@).take(i + 1));
    }
    assert(ddl::named_positions(out@) =~= ddl::named_positions(v@));
    out
}

/// Whether a statement of a script ran, with the error it met.
#[verifier::opaque]
pub open spec fn piece_ran(a: Store, sql: Seq<char>, b: Store, e: Option<OraError>) -> bool {
    match e {
        Some(e) => engine::executes(a, sql, b, Err(e)),
        None => exists|q: QueryResult| #[trigger]
            engine::executes(a, sql, b, Ok::<QueryResult, OraError>(q)),
    }
}

/// The database behind the statements of a script that ran.
pub open spec fn store_after(a: Store, trace: Seq<Store>) -> Store {
    if trace.len() == 0 {
        a
    } else {
        trace.last()
    }
}

/// Whether a script's first statements can have left the databases of a trace.
pub open spec fn scripted(a: Store, pieces: Seq<Seq<char>>, trace: Seq<Store>) -> bool {
    trace.len() <= pieces.len() && forall|i: int|
        0 <= i < trace.len() ==> #[trigger] piece_ran(
            store_after(a, trace.take(i)),
            pieces[i],
            trace[i],
            None,
        )
}

/// Whether a script ran up to its first error, or to its end.
pub open spec fn script_ran(
    a: Store,
    pieces: Seq<Seq<char>>,
    b: Store,
    r: Result<(), OraError>,
) -> bool {
    exists|trace: Seq<Store>| #[trigger]
        scripted(a, pieces, trace) && match r {
            Ok(_) => trace.len() == pieces.len() && b == store_after(a, trace),
            Err(e) => trace.len() < pieces.len() && exists|met: OraError| #[trigger]
                piece_ran(
                    store_after(a, trace),
                    pieces[trace.len() as int],
                    b,
                    Some(met),
                ) && e@ == told_where(met@, pieces[trace.len() as int]),
        }
}

/// An error with the statement of a script that met it.
pub open spec fn told_where(e: Failure, sql: Seq<char>) -> Failure {
    Failure { message: e.message + " in: "@ + sql, ..e }
}

/// A trace with one more statement behind it.
proof fn scripted_on(a: Store, pieces: Seq<Seq<char>>, trace: Seq<Store>, b: Store)
    requires
        scripted(a, pieces, trace),
        trace.len() < pieces.len(),
        piece_ran(store_after(a, trace), pieces[trace.len() as int], b, None),
    ensures
        scripted(a, pieces, trace.push(b)),
{
    let t = trace.push(b);
    assert forall|i: int| 0 <= i < t.len() implies #[trigger] piece_ran(
        store_after(a, t.take(i)),
        pieces[i],
        t[i],
        None,
    ) by {
        if i < trace.len() {
            assert(t.take(i) =~= trace.take(i));
            assert(piece_ran(store_after(a, trace.take(i)), pieces[i], trace[i], None));
        } else {
            assert(t.take(i) =~= trace);
        }
    }
}

impl Database {
    /// Captures the committed contents of every table.
    pub fn snapshot(&self) -> (s: Snapshot)
        ensures
            s@ == saved(self@),
    {
        Snapshot {
            state: self.state.copy(),
            identities: copy_numbers(&self.counters.identities),
            positions: copy_places(&self.positions),
        }
    }

    /// Puts every table back as it was in a snapshot.
    pub fn restore(&mut self, snapshot: &Snapshot)
        ensures
            final(self)@ == put_back(old(self)@, snapshot@),
            snapshot@.state.wf() ==> final(self)@.state.wf(),
    {
        let version: u64 = txn::version_after(self.state.version);
        self.state = snapshot.state.copy();
        self.state.version = version;
        self.counters.identities = copy_numbers(&snapshot.identities);
        self.positions = copy_places(&snapshot.positions);
        proof {
            let was = snapshot@.state;
            let is = self@.state;
            assert(is.tables == was.tables);
            if was.wf() {
                assert forall|i: int| 0 <= i < is.tables.len() implies (#[trigger] is.tables[i]).wf()
                    && is.tables[i].unique() by {
                    assert(was.tables[i].wf() && was.tables[i].unique());
                }
            }
        }
    }

    /// Drops everything.
    pub fn reset(&mut self)
        ensures
            final(self)@ == put_back(old(self)@, saved(empty_store())),
            final(self)@.state.wf(),
    {
        let empty = Database::new();
        let s = empty.snapshot();
        self.restore(&s);
    }

    /// Runs a script's statements, each in a session of its own that commits, up to
    /// the first that fails.
    pub fn run_script(&mut self, text: &str) -> (r: Result<(), OraError>)
        requires
            old(self)@.state.wf(),
        ensures
            final(self)@.state.wf(),
            script_ran(
                old(self)@,
                script::pieces_from(text@, 0, 0, false, Seq::empty()),
                final(self)@,
                r,
            ),
    {
        let parts = split_script(text);
        let ghost pieces = ast::texts_tree(parts);
        let ghost a = self@;
        let ghost mut trace: Seq<Store> = Seq::empty();
        assert(scripted(a, pieces, trace));
        for i in 0..parts.len()
            invariant
                self@.state.wf(),
                a == old(self)@,
                pieces == ast::texts_tree(parts),
                pieces == script::pieces_from(text@, 0, 0, false, Seq::empty()),
                pieces.len() == parts@.len(),
                trace.len() == i,
                scripted(a, pieces, trace),
                self@ == store_after(a, trace),
        {
            let ghost before = self@;
            assert(pieces[i as int] == parts@[i as int]@);
            if let Some(met) = self.run_piece(parts[i].as_str()) {
                assert(piece_ran(before, pieces[i as int], self@, Some(met)));
                let mut message = met.message.as_str().to_owned();
                message.append(" in: ");
                message.append(parts[i].as_str());
                let e = OraError { code: met.code, message };
                assert(e@ == told_where(met@, pieces[i as int]));
                assert(scripted(a, pieces, trace));
                return Err(e);
            }
            proof {
                scripted_on(a, pieces, trace, self@);
                trace = trace.push(self@);
            }
        }
        Ok(())
    }

    fn run_piece(&mut self, sql: &str) -> (r: Option<OraError>)
        requires
            old(self)@.state.wf(),
        ensures
            final(self)@.state.wf(),
            piece_ran(old(self)@, sql@, final(self)@, r),
    {
        proof {
            reveal(piece_ran);
        }
        match self.execute(sql) {
            Ok(q) => {
                assert(engine::executes(
                    old(self)@,
                    sql@,
                    self@,
                    Ok::<QueryResult, OraError>(q),
                ));
                None
            },
            Err(e) => {
                assert(engine::executes(
                    old(self)@,
                    sql@,
                    self@,
                    Err::<QueryResult, OraError>(e),
                ));
                Some(e)
            },
        }
    }
}

/// What a new database holds.
pub open spec fn empty_store() -> Store {
    Store {
        state: Cat {
            tables: Seq::empty(),
            sequences: Seq::empty(),
            routines: Seq::empty(),
            version: 0,
        },
        tally: Tally { identities: Seq::empty(), next_row: 1 },
        next_constraint: 1,
        positions: Seq::empty(),
    }
}

/// Putting a database back to a copy undoes everything between the two: it holds
/// again what the copy was made of.
pub proof fn a_restored_database_holds_what_was_saved(a: Store, b: Store)
    ensures
        put_back(b, saved(a)).state.tables == a.state.tables,
        put_back(b, saved(a)).state.sequences == a.state.sequences,
        put_back(b, saved(a)).state.routines == a.state.routines,
        put_back(b, saved(a)).tally.identities == a.tally.identities,
        put_back(b, saved(a)).positions == a.positions,
{
}

} // verus!
